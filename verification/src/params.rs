//! The parameters that accompany a message.
use crate::text_map::TextMap;
use vstd::prelude::*;

verus! {

/// The value of a message parameter.
#[derive(Clone, Copy, Debug, PartialEq, Eq, Structural)]
pub enum Param {
    Bool(bool),
    Integer(i64),
}

impl View for Param {
    type V = Param;

    open spec fn view(&self) -> Param {
        *self
    }
}

/// The parameters of a message by name.
pub type Params = TextMap<Param>;

/// The parameters of a decoded frame: one row of `w` by `h` pixels of three
/// channels, recorded at `stamp_ns`.
pub open spec fn frame_params_of(w: usize, h: usize, stamp_ns: i64) -> Map<Seq<char>, Param> {
    map![
        "rows"@ => Param::Integer(1),
        "width"@ => Param::Integer(w as i64),
        "height"@ => Param::Integer(h as i64),
        "channels"@ => Param::Integer(3),
        "stamp_ns"@ => Param::Integer(stamp_ns)
    ]
}

/// The parameters of a decoded frame.
pub fn frame_params(w: usize, h: usize, stamp_ns: i64) -> (params: Params)
    ensures
        params@ == frame_params_of(w, h, stamp_ns),
{
    let mut params: Params = TextMap::new();
    params.insert("rows".to_owned(), Param::Integer(1));
    params.insert("width".to_owned(), Param::Integer(w as i64));
    params.insert("height".to_owned(), Param::Integer(h as i64));
    params.insert("channels".to_owned(), Param::Integer(3));
    params.insert("stamp_ns".to_owned(), Param::Integer(stamp_ns));
    assert(params@ =~= frame_params_of(w, h, stamp_ns));
    params
}

/// The parameters of the message that ends an output.
pub open spec fn eos_params_of() -> Map<Seq<char>, Param> {
    map!["eos"@ => Param::Bool(true)]
}

/// The parameters of the message that ends an output.
pub fn eos_params() -> (params: Params)
    ensures
        params@ == eos_params_of(),
{
    let mut params: Params = TextMap::new();
    params.insert("eos".to_owned(), Param::Bool(true));
    assert(params@ =~= eos_params_of());
    params
}

/// The parameters of a batch of a topic: how many rows it has, and when the
/// first and the last were recorded.
pub open spec fn batch_params_of(rows: usize, t0: i64, t1: i64) -> Map<Seq<char>, Param> {
    map![
        "rows"@ => Param::Integer(rows as i64),
        "t0"@ => Param::Integer(t0),
        "t1"@ => Param::Integer(t1)
    ]
}

/// The parameters of a batch of a topic.
pub fn batch_params(rows: usize, t0: i64, t1: i64) -> (params: Params)
    ensures
        params@ == batch_params_of(rows, t0, t1),
{
    let mut params: Params = TextMap::new();
    params.insert("rows".to_owned(), Param::Integer(rows as i64));
    params.insert("t0".to_owned(), Param::Integer(t0));
    params.insert("t1".to_owned(), Param::Integer(t1));
    assert(params@ =~= batch_params_of(rows, t0, t1));
    params
}

/// The message of a frame tells the frame's own width and height, that it is
/// one row of three channels, when it was recorded, and nothing else.
pub proof fn a_frame_tells_its_size_and_time(w: usize, h: usize, stamp_ns: i64)
    ensures
        frame_params_of(w, h, stamp_ns).contains_pair("width"@, Param::Integer(w as i64)),
        frame_params_of(w, h, stamp_ns).contains_pair("height"@, Param::Integer(h as i64)),
        frame_params_of(w, h, stamp_ns).contains_pair("rows"@, Param::Integer(1)),
        frame_params_of(w, h, stamp_ns).contains_pair("channels"@, Param::Integer(3)),
        frame_params_of(w, h, stamp_ns).contains_pair("stamp_ns"@, Param::Integer(stamp_ns)),
        forall|k: Seq<char>| #[trigger]
            frame_params_of(w, h, stamp_ns).contains_key(k) ==> k == "width"@ || k == "height"@ || k
                == "rows"@ || k == "channels"@ || k == "stamp_ns"@,
{
    reveal_strlit("rows");
    reveal_strlit("width");
    reveal_strlit("height");
    reveal_strlit("channels");
    reveal_strlit("stamp_ns");
    assert("rows"@.len() == 4 && "width"@.len() == 5 && "height"@.len() == 6);
    assert("channels"@.len() == 8 && "stamp_ns"@.len() == 8);
    assert("channels"@[0] == 'c' && "stamp_ns"@[0] == 's');
}

/// The message of a batch tells how many rows it has, when the first and the
/// last of them were recorded, and nothing else.
pub proof fn a_batch_tells_its_rows_and_times(rows: usize, t0: i64, t1: i64)
    ensures
        batch_params_of(rows, t0, t1).contains_pair("rows"@, Param::Integer(rows as i64)),
        batch_params_of(rows, t0, t1).contains_pair("t0"@, Param::Integer(t0)),
        batch_params_of(rows, t0, t1).contains_pair("t1"@, Param::Integer(t1)),
        forall|k: Seq<char>| #[trigger]
            batch_params_of(rows, t0, t1).contains_key(k) ==> k == "rows"@ || k == "t0"@ || k
                == "t1"@,
{
    reveal_strlit("rows");
    reveal_strlit("t0");
    reveal_strlit("t1");
    assert("rows"@.len() == 4 && "t0"@.len() == 2 && "t1"@.len() == 2);
    assert("t0"@[1] == '0' && "t1"@[1] == '1');
}

/// The message that ends an output says so, and nothing else.
pub proof fn an_end_tells_that_it_is_one()
    ensures
        eos_params_of().contains_pair("eos"@, Param::Bool(true)),
        forall|k: Seq<char>| #[trigger] eos_params_of().contains_key(k) ==> k == "eos"@,
{
}

/// The model of a parameter is the parameter.
pub proof fn the_model_of_a_parameter_is_the_parameter(param: Param)
    ensures
        param@ == param,
{
}

} // verus!
