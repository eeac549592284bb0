//! The flow that a user writes: a bag, a report and the nodes that check the
//! bag's topics.
use crate::error::{PreflightError, PreflightErrorView};
use crate::text::{chars_of, texts};
use crate::text_map::TextMap;
use vstd::prelude::*;

verus! {

/// A validation flow.
#[derive(Debug)]
pub struct Flow {
    /// The bag: a directory of recordings, or one recording.
    pub bag: String,
    /// Where the report goes.
    pub report: String,
    /// Defaults for the whole flow, which nodes and inputs override.
    pub defaults: Defaults,
    /// How the source batches what it sends.
    pub source: SourceCfg,
    pub nodes: Vec<FlowNode>,
}

/// Defaults for the whole flow.
#[derive(Clone, Copy, Debug)]
pub struct Defaults {
    pub queue_size: Option<usize>,
}

/// How many rows and bytes the source puts into one batch of a topic.
#[derive(Clone, Copy, Debug)]
pub struct SourceCfg {
    pub batch_rows: Option<usize>,
    pub batch_bytes: Option<usize>,
}

/// One node of a flow.
#[derive(Debug)]
pub struct FlowNode {
    pub id: String,
    /// The program that the node runs.
    pub path: String,
    /// Input name to what the input subscribes to.
    pub inputs: TextMap<FlowInput>,
    pub outputs: Vec<String>,
    pub env: TextMap<String>,
    /// Default queue size of every input of this node.
    pub queue_size: Option<usize>,
}

/// What an input subscribes to.
#[derive(Debug)]
pub enum FlowInput {
    /// `/some/topic` or `node_id/output`.
    Short(String),
    /// The same with one of `topic` and `node` set, and a queue size.
    Long { topic: Option<String>, node: Option<String>, queue_size: Option<usize> },
}

/// The model of a [`Flow`].
pub struct FlowView {
    pub bag: Seq<char>,
    pub report: Seq<char>,
    pub default_queue: Option<usize>,
    pub batch_rows: Option<usize>,
    pub batch_bytes: Option<usize>,
    pub nodes: Seq<FlowNodeView>,
}

/// The model of a [`FlowNode`].
pub struct FlowNodeView {
    pub id: Seq<char>,
    pub path: Seq<char>,
    pub inputs: Map<Seq<char>, FlowInputView>,
    pub outputs: Seq<Seq<char>>,
    pub env: Map<Seq<char>, Seq<char>>,
    pub queue_size: Option<usize>,
}

/// The model of a [`FlowInput`].
pub enum FlowInputView {
    Short(Seq<char>),
    Long { topic: Option<Seq<char>>, node: Option<Seq<char>>, queue_size: Option<usize> },
}

/// The characters of an optional string.
pub open spec fn opt_text(s: Option<String>) -> Option<Seq<char>> {
    match s {
        Some(t) => Some(t@),
        None => None,
    }
}

impl View for FlowInput {
    type V = FlowInputView;

    open spec fn view(&self) -> FlowInputView {
        match *self {
            FlowInput::Short(s) => FlowInputView::Short(s@),
            FlowInput::Long { topic, node, queue_size } => FlowInputView::Long {
                topic: opt_text(topic),
                node: opt_text(node),
                queue_size,
            },
        }
    }
}

impl View for FlowNode {
    type V = FlowNodeView;

    open spec fn view(&self) -> FlowNodeView {
        FlowNodeView {
            id: self.id@,
            path: self.path@,
            inputs: self.inputs@,
            outputs: texts(self.outputs@),
            env: self.env@,
            queue_size: self.queue_size,
        }
    }
}

/// The models of a list of nodes.
pub open spec fn node_views(nodes: Seq<FlowNode>) -> Seq<FlowNodeView> {
    nodes.map_values(|n: FlowNode| n@)
}

impl View for Flow {
    type V = FlowView;

    open spec fn view(&self) -> FlowView {
        FlowView {
            bag: self.bag@,
            report: self.report@,
            default_queue: self.defaults.queue_size,
            batch_rows: self.source.batch_rows,
            batch_bytes: self.source.batch_bytes,
            nodes: node_views(self.nodes@),
        }
    }
}

impl FlowView {
    /// Every node has finitely many inputs, as every [`Flow`] has.
    pub open spec fn well_formed(self) -> bool {
        forall|i: int| 0 <= i < self.nodes.len() ==> #[trigger] self.nodes[i].inputs.dom().finite()
    }
}

impl FlowInputView {
    /// What the input refers to. A long input refers to something only where
    /// exactly one of `topic` and `node` is set.
    pub open spec fn reference(self) -> Option<Seq<char>> {
        match self {
            FlowInputView::Short(s) => Some(s),
            FlowInputView::Long { topic: Some(t), node: None, .. } => Some(t),
            FlowInputView::Long { topic: None, node: Some(n), .. } => Some(n),
            _ => None,
        }
    }

    /// The queue size that the input itself sets.
    pub open spec fn queue_size(self) -> Option<usize> {
        match self {
            FlowInputView::Short(_) => None,
            FlowInputView::Long { queue_size, .. } => queue_size,
        }
    }
}

impl FlowInput {
    /// What the input refers to, or an error where it is not exactly one of a
    /// topic and a node's output.
    pub fn reference(&self) -> (r: Result<&str, PreflightError>)
        ensures
            match r {
                Ok(s) => self@.reference() == Some(s@),
                Err(e) => self@.reference() is None && e@ == PreflightErrorView::TopicOrNode,
            },
    {
        match self {
            FlowInput::Short(s) => Ok(s.as_str()),
            FlowInput::Long { topic, node, .. } => match (topic, node) {
                (Some(t), None) => Ok(t.as_str()),
                (None, Some(n)) => Ok(n.as_str()),
                _ => Err(PreflightError::TopicOrNode),
            },
        }
    }

    /// The queue size that the input itself sets.
    pub fn queue_size(&self) -> (n: Option<usize>)
        ensures
            n == self@.queue_size(),
    {
        match self {
            FlowInput::Short(_) => None,
            FlowInput::Long { queue_size, .. } => *queue_size,
        }
    }
}

/// Where the report goes unless the flow says otherwise.
pub fn default_report() -> (path: String)
    ensures
        path@ == "report.json"@,
{
    "report.json".to_owned()
}

impl Flow {
    /// The flow with its bag and its report replaced where others are given.
    pub fn redirected(self, bag: Option<String>, report: Option<String>) -> (flow: Flow)
        ensures
            flow@ == (FlowView {
                bag: match bag {
                    Some(b) => b@,
                    None => self@.bag,
                },
                report: match report {
                    Some(r) => r@,
                    None => self@.report,
                },
                ..self@
            }),
    {
        let mut flow = self;
        if let Some(b) = bag {
            flow.bag = b;
        }
        if let Some(r) = report {
            flow.report = r;
        }
        flow
    }
}

/// `s` without the `c`s that it starts with.
pub open spec fn without_leading(s: Seq<char>, c: char) -> Seq<char>
    decreases s.len(),
{
    if s.len() > 0 && s[0] == c {
        without_leading(s.drop_first(), c)
    } else {
        s
    }
}

/// `s` with two underscores in place of each slash.
pub open spec fn slashes_replaced(s: Seq<char>) -> Seq<char>
    decreases s.len(),
{
    if s.len() == 0 {
        seq![]
    } else if s.last() == '/' {
        slashes_replaced(s.drop_last()) + seq!['_', '_']
    } else {
        slashes_replaced(s.drop_last()).push(s.last())
    }
}

/// The output of the source that carries `topic`.
pub open spec fn output_of_topic(topic: Seq<char>) -> Seq<char> {
    let s = slashes_replaced(without_leading(topic, '/'));
    if s.len() == 0 {
        "_root"@
    } else {
        s
    }
}

/// The output of the source that carries `topic`.
pub fn sanitize_topic(topic: &str) -> (id: String)
    ensures
        id@ == output_of_topic(topic@),
{
    let list = chars_of(topic);
    let mut start: usize = 0;
    assert(list@.skip(0) =~= list@);
    while start < list.len() && list[start] == '/'
        invariant
            start <= list.len(),
            list@ == topic@,
            without_leading(list@.skip(start as int), '/') == without_leading(topic@, '/'),
        decreases list.len() - start,
    {
        assert(list@.skip(start as int).drop_first() =~= list@.skip(start + 1));
        start += 1;
    }
    let ghost body = list@.skip(start as int);
    assert(body == without_leading(topic@, '/'));
    let mut id = String::new();
    let mut i: usize = start;
    while i < list.len()
        invariant
            start <= i <= list.len(),
            list@ == topic@,
            body == list@.skip(start as int),
            id@ == slashes_replaced(body.take(i - start)),
        decreases list.len() - i,
    {
        let ghost so_far = id@;
        let ghost at = i - start;
        assert(body.take(at + 1).drop_last() =~= body.take(at));
        assert(body.take(at + 1).last() == list@[i as int]);
        if list[i] == '/' {
            proof {
                reveal_strlit("__");
            }
            id.append("__");
            assert("__"@ =~= seq!['_', '_']);
        } else {
            id.append(topic.substring_char(i, i + 1));
            assert(id@ =~= so_far.push(list@[i as int]));
        }
        i += 1;
    }
    assert(body.take(body.len() as int) =~= body);
    if id.as_str().is_empty() {
        return "_root".to_owned();
    }
    id
}

/// The model of an input is the input: what it refers to, in its long form
/// which of topic and node is set, and its queue size.
pub proof fn inputs_refer_to_what_they_say(
    text: String,
    topic: Option<String>,
    node: Option<String>,
    queue: Option<usize>,
)
    ensures
        FlowInput::Short(text)@.reference() == Some(text@),
        FlowInput::Short(text)@.queue_size() == None::<usize>,
        ({
            let input = FlowInput::Long { topic, node, queue_size: queue };
            &&& input@.queue_size() == queue
            &&& input@.reference() is Some <==> (topic is Some) != (node is Some)
            &&& topic is Some && node is None ==> input@.reference() == Some(topic->0@)
            &&& topic is None && node is Some ==> input@.reference() == Some(node->0@)
        }),
{
}

/// The model of a flow has the fields of the flow.
pub proof fn the_model_of_a_flow_is_the_flow(flow: Flow, i: int)
    ensures
        flow@.bag == flow.bag@,
        flow@.report == flow.report@,
        flow@.default_queue == flow.defaults.queue_size,
        flow@.batch_rows == flow.source.batch_rows,
        flow@.batch_bytes == flow.source.batch_bytes,
        flow@.nodes.len() == flow.nodes@.len(),
        0 <= i < flow.nodes@.len() ==> {
            let node = flow.nodes@[i];
            &&& flow@.nodes[i].id == node.id@
            &&& flow@.nodes[i].path == node.path@
            &&& flow@.nodes[i].inputs == node.inputs@
            &&& flow@.nodes[i].outputs == node.outputs@.map_values(|s: String| s@)
            &&& flow@.nodes[i].env == node.env@
            &&& flow@.nodes[i].queue_size == node.queue_size
        },
{
}

/// The output of a topic: leading slashes are dropped, a slash further on
/// becomes two underscores, everything else stays, and a topic of slashes alone
/// has the output `_root`.
pub proof fn an_output_is_its_topic_without_slashes(t: Seq<char>, part: Seq<char>)
    requires
        !part.contains('/'),
    ensures
        output_of_topic(seq![]) == "_root"@,
        output_of_topic(seq!['/'] + t) == output_of_topic(t),
        part.len() > 0 ==> output_of_topic(part) == part,
        t.len() > 0 && t[0] != '/' ==> output_of_topic(t + seq!['/'] + part) == output_of_topic(t)
            + seq!['_', '_'] + part,
{
    assert((seq!['/'] + t).drop_first() =~= t);
    assert(without_leading(Seq::<char>::empty(), '/') == Seq::<char>::empty());
    lemma_replaced_append(seq![], part);
    assert(Seq::<char>::empty() + part =~= part);
    assert(slashes_replaced(Seq::<char>::empty()) + part =~= part);
    if part.len() > 0 {
        assert(part[0] != '/') by {
            if part[0] == '/' {
                assert(part.contains('/'));
            }
        }
    }
    if t.len() > 0 && t[0] != '/' {
        let slashed = t + seq!['/'];
        let whole = slashed + part;
        assert(whole[0] == t[0]);
        assert(slashed.drop_last() =~= t);
        lemma_replaced_append(slashed, part);
        assert(slashes_replaced(slashed) == slashes_replaced(t) + seq!['_', '_']);
        lemma_replaced_len(t);
        assert(output_of_topic(t) == slashes_replaced(t));
    }
}

proof fn lemma_replaced_len(s: Seq<char>)
    ensures
        slashes_replaced(s).len() >= s.len(),
    decreases s.len(),
{
    if s.len() > 0 {
        lemma_replaced_len(s.drop_last());
    }
}

proof fn lemma_replaced_append(s: Seq<char>, part: Seq<char>)
    requires
        !part.contains('/'),
    ensures
        slashes_replaced(s + part) == slashes_replaced(s) + part,
    decreases part.len(),
{
    if part.len() == 0 {
        assert(s + part =~= s);
        assert(slashes_replaced(s) + part =~= slashes_replaced(s));
    } else {
        let rest = part.drop_last();
        assert(!rest.contains('/')) by {
            if rest.contains('/') {
                let i = choose|i: int| 0 <= i < rest.len() && rest[i] == '/';
                assert(part[i] == '/');
            }
        }
        lemma_replaced_append(s, rest);
        assert((s + part).drop_last() =~= s + rest);
        assert(part.contains(part.last()));
        assert((slashes_replaced(s) + rest).push(part.last()) =~= slashes_replaced(s) + part);
    }
}

} // verus!
