//! Decoding of compressed frames: the size to decode at, the exact resize,
//! and what is sent and counted.
use crate::number::{
    decimal, decimal_reads_back, decimal_text, is_digit, lemma_decimal, parse_usize, parsed_usize,
    setting, setting_value, IntError,
};
use crate::params::{
    a_frame_tells_its_size_and_time, frame_params, frame_params_of, Param, Params,
};
use crate::text::{chars_of, set_text};
use fast_image_resize::images::Image;
use fast_image_resize::{FilterType, PixelType, ResizeAlg, ResizeOptions, Resizer};
use vstd::prelude::*;

verus! {

/// What is wrong with a resolution.
#[derive(Clone, Copy, Debug, PartialEq, Eq, Structural)]
pub enum ResolutionError {
    /// It is not two numbers with an `x` between them.
    Shape,
    /// What stands before the `x` is no number.
    Width(IntError),
    /// What stands behind the `x` is no number.
    Height(IntError),
}

impl ResolutionError {
    /// What the error says.
    pub open spec fn text(self) -> Seq<char> {
        match self {
            ResolutionError::Shape => "RESIZE must look like 224x224"@,
            ResolutionError::Width(e) => e.text(),
            ResolutionError::Height(e) => e.text(),
        }
    }

    /// The error as text.
    pub fn message(&self) -> (text: String)
        ensures
            text@ == self.text(),
    {
        match self {
            ResolutionError::Shape => "RESIZE must look like 224x224".to_owned(),
            ResolutionError::Width(e) => e.message(),
            ResolutionError::Height(e) => e.message(),
        }
    }
}

/// Where the first `x` of either case stands.
pub open spec fn first_x(s: Seq<char>) -> Option<int> {
    s.map_values(
        |c: char|
            if c == 'X' {
                'x'
            } else {
                c
            },
    ).index_of_first('x')
}

/// The resolution that a text asks for: none where it is empty, else width
/// and height around the first `x` of either case.
pub open spec fn resolution(s: Seq<char>) -> Result<Option<(usize, usize)>, ResolutionError> {
    if s.len() == 0 {
        Ok(None)
    } else {
        match first_x(s) {
            None => Err(ResolutionError::Shape),
            Some(i) => match parsed_usize(s.take(i)) {
                Err(e) => Err(ResolutionError::Width(e)),
                Ok(w) => match parsed_usize(s.skip(i + 1)) {
                    Err(e) => Err(ResolutionError::Height(e)),
                    Ok(h) => Ok(Some((w, h))),
                },
            },
        }
    }
}

/// Reads a resolution such as `224x224`; an empty text asks for none.
pub fn parse_resize(spec_text: &str) -> (r: Result<Option<(usize, usize)>, ResolutionError>)
    ensures
        r == resolution(spec_text@),
{
    let list = chars_of(spec_text);
    if list.len() == 0 {
        return Ok(None);
    }
    let ghost lower = |c: char|
        if c == 'X' {
            'x'
        } else {
            c
        };
    let ghost lowered = spec_text@.map_values(lower);
    proof {
        lowered.index_of_first_ensures('x');
    }
    let mut i: usize = 0;
    while i < list.len() && list[i] != 'x' && list[i] != 'X'
        invariant
            i <= list.len(),
            list@ == spec_text@,
            lower == (|c: char|
                if c == 'X' {
                    'x'
                } else {
                    c
                }),
            lowered == spec_text@.map_values(lower),
            forall|j: int| 0 <= j < i ==> #[trigger] lowered[j] != 'x',
        decreases list.len() - i,
    {
        assert(lowered[i as int] == lower(list@[i as int]));
        i += 1;
    }
    if i == list.len() {
        assert(!lowered.contains('x'));
        return Err(ResolutionError::Shape);
    }
    proof {
        assert(lowered[i as int] == lower(list@[i as int]));
        assert(lowered.contains('x'));
        assert(first_x(spec_text@) == Some(i as int));
    }
    let before = spec_text.substring_char(0, i);
    let after = spec_text.substring_char(i + 1, list.len());
    assert(before@ =~= spec_text@.take(i as int));
    assert(after@ =~= spec_text@.skip(i + 1));
    let w = match parse_usize(before) {
        Ok(w) => w,
        Err(e) => return Err(ResolutionError::Width(e)),
    };
    let h = match parse_usize(after) {
        Ok(h) => h,
        Err(e) => return Err(ResolutionError::Height(e)),
    };
    Ok(Some((w, h)))
}

/// A resolution in words: `native` where none is asked for.
pub open spec fn resolution_text(target: Option<(usize, usize)>) -> Seq<char> {
    match target {
        None => "native"@,
        Some((w, h)) => decimal(w as nat) + "x"@ + decimal(h as nat),
    }
}

/// A resolution in words.
pub fn resolution_label(target: Option<(usize, usize)>) -> (text: String)
    ensures
        text@ == resolution_text(target),
{
    match target {
        None => "native".to_owned(),
        Some((w, h)) => {
            let mut text = decimal_text(w as u64);
            text.append("x");
            text.append(decimal_text(h as u64).as_str());
            text
        },
    }
}

/// The words for a resolution, read as a resolution, give it back.
pub proof fn resolution_reads_back(w: usize, h: usize)
    ensures
        resolution(resolution_text(Some((w, h)))) == Ok::<
            Option<(usize, usize)>,
            ResolutionError,
        >(Some((w, h))),
{
    reveal_strlit("x");
    let a = decimal(w as nat);
    let b = decimal(h as nat);
    let s = resolution_text(Some((w, h)));
    lemma_decimal(w as nat);
    decimal_reads_back(w);
    decimal_reads_back(h);
    let lower = |c: char|
        if c == 'X' {
            'x'
        } else {
            c
        };
    let lowered = s.map_values(lower);
    let n = a.len() as int;
    lowered.index_of_first_ensures('x');
    assert(s[n] == 'x');
    assert(lowered[n] == 'x');
    assert(lowered.contains('x'));
    assert forall|j: int| 0 <= j < n implies #[trigger] lowered[j] != 'x' by {
        assert(s[j] == a[j]);
        assert(is_digit(a[j]));
    }
    assert(first_x(s) == Some(n));
    assert(s.take(n) =~= a);
    assert(s.skip(n + 1) =~= b);
}

/// A scaling that a decoder applies while it decodes, in eighths.
#[derive(Clone, Copy, Debug, PartialEq, Eq, Structural)]
pub struct ScalingFactor {
    pub eighths: usize,
}

/// `dimension` scaled by `eighths` eighths, rounded up.
pub open spec fn scaled(dimension: int, eighths: int) -> int {
    (dimension * eighths + 7) / 8
}

impl ScalingFactor {
    /// Between one eighth and one.
    pub open spec fn wf(self) -> bool {
        1 <= self.eighths <= 8
    }

    /// `dimension` scaled, rounded up.
    pub fn scale(&self, dimension: usize) -> (n: usize)
        requires
            self.wf(),
        ensures
            n == scaled(dimension as int, self.eighths as int),
            n <= dimension,
    {
        let whole = dimension / 8;
        let rest = dimension % 8;
        proof {
            let d = dimension as int;
            let e = self.eighths as int;
            let q = whole as int;
            let r = rest as int;
            assert(q * e <= q * 8) by (nonlinear_arith)
                requires
                    0 <= q,
                    1 <= e <= 8,
            ;
            assert(0 <= q * e) by (nonlinear_arith)
                requires
                    0 <= q,
                    1 <= e <= 8,
            ;
            assert(0 <= r * e <= r * 8) by (nonlinear_arith)
                requires
                    0 <= r,
                    1 <= e <= 8,
            ;
            assert(d * e == 8 * (q * e) + r * e) by (nonlinear_arith)
                requires
                    d == 8 * q + r,
            ;
        }
        whole * self.eighths + (rest * self.eighths + 7) / 8
    }
}

/// An image of `w` by `h` pixels, scaled by `n` eighths, covers `tw` by `th`.
pub open spec fn covers(n: int, w: usize, h: usize, tw: usize, th: usize) -> bool {
    scaled(w as int, n) >= tw && scaled(h as int, n) >= th
}

/// The smallest number of eighths, from `n` on, at which the image covers the
/// target; eight where none does.
pub open spec fn eighths_from(n: int, w: usize, h: usize, tw: usize, th: usize) -> int
    decreases 8 - n,
{
    if n >= 8 || covers(n, w, h, tw, th) {
        n
    } else {
        eighths_from(n + 1, w, h, tw, th)
    }
}

/// The smallest scaling at which an image of `w` by `h` pixels still covers
/// `tw` by `th`; no scaling where even the whole image does not.
pub fn pick_factor(w: usize, h: usize, tw: usize, th: usize) -> (f: ScalingFactor)
    ensures
        f.wf(),
        f.eighths == eighths_from(1, w, h, tw, th),
{
    let mut n: usize = 1;
    while n < 8
        invariant
            1 <= n <= 8,
            eighths_from(1, w, h, tw, th) == eighths_from(n as int, w, h, tw, th),
        decreases 8 - n,
    {
        let f = ScalingFactor { eighths: n };
        if f.scale(w) >= tw && f.scale(h) >= th {
            return f;
        }
        n += 1;
    }
    ScalingFactor { eighths: 8 }
}

/// The picked scaling is the smallest that covers the target, where the image
/// covers it at all. The decoded image is never larger than the image.
pub proof fn picked_scaling_is_the_smallest_that_covers(w: usize, h: usize, tw: usize, th: usize)
    ensures
        ({
            let n = eighths_from(1, w, h, tw, th);
            &&& 1 <= n <= 8
            &&& scaled(w as int, n) <= w && scaled(h as int, n) <= h
            &&& tw <= w && th <= h ==> covers(n, w, h, tw, th)
            &&& !(tw <= w && th <= h) ==> n == 8
            &&& forall|m: int| 1 <= m < n ==> !#[trigger] covers(m, w, h, tw, th)
        }),
{
    lemma_eighths(1, w, h, tw, th);
    let n = eighths_from(1, w, h, tw, th);
    lemma_scaled_grows(w as int, n, 8);
    lemma_scaled_grows(h as int, n, 8);
}

proof fn lemma_scaled_grows(d: int, m: int, n: int)
    requires
        0 <= d,
        0 <= m <= n,
    ensures
        scaled(d, m) <= scaled(d, n),
        scaled(d, 8) == d,
{
    assert(d * m <= d * n) by (nonlinear_arith)
        requires
            0 <= d,
            m <= n,
    ;
}

proof fn lemma_eighths(n: int, w: usize, h: usize, tw: usize, th: usize)
    requires
        1 <= n <= 8,
    ensures
        ({
            let e = eighths_from(n, w, h, tw, th);
            &&& n <= e <= 8
            &&& e < 8 ==> covers(e, w, h, tw, th)
            &&& covers(e, w, h, tw, th) || e == 8
            &&& tw <= w && th <= h ==> covers(e, w, h, tw, th)
            &&& covers(e, w, h, tw, th) ==> tw <= w && th <= h
            &&& forall|m: int| n <= m < e ==> !#[trigger] covers(m, w, h, tw, th)
        }),
    decreases 8 - n,
{
    if n < 8 && !covers(n, w, h, tw, th) {
        lemma_eighths(n + 1, w, h, tw, th);
    }
    let e = eighths_from(n, w, h, tw, th);
    lemma_scaled_grows(w as int, if e <= 8 { e } else { 8 }, 8);
    lemma_scaled_grows(h as int, if e <= 8 { e } else { 8 }, 8);
}

/// The size at which an image of `w` by `h` pixels is decoded, and the scaling
/// that gives it.
#[derive(Clone, Copy, Debug, PartialEq, Eq, Structural)]
pub struct DecodeSize {
    pub factor: ScalingFactor,
    pub width: usize,
    pub height: usize,
}

/// In how many eighths an image is decoded for a target; whole without one.
pub open spec fn decode_eighths(w: usize, h: usize, target: Option<(usize, usize)>) -> int {
    match target {
        Some((tw, th)) => eighths_from(1, w, h, tw, th),
        None => 8,
    }
}

/// The size at which an image of `w` by `h` pixels is decoded: the smallest
/// that covers the target, or its own where no resolution is asked for.
pub fn decode_size(w: usize, h: usize, target: Option<(usize, usize)>) -> (size: DecodeSize)
    ensures
        size.factor.wf(),
        size.factor.eighths == decode_eighths(w, h, target),
        size.width == scaled(w as int, decode_eighths(w, h, target)),
        size.height == scaled(h as int, decode_eighths(w, h, target)),
{
    let factor = match target {
        Some((tw, th)) => pick_factor(w, h, tw, th),
        None => ScalingFactor { eighths: 8 },
    };
    DecodeSize { factor, width: factor.scale(w), height: factor.scale(h) }
}

/// The number of bytes of a frame of `w` by `h` pixels of three channels.
pub open spec fn frame_bytes(w: int, h: int) -> int {
    w * h * 3
}

/// The number of bytes of a frame, where it can be a size in memory.
pub fn frame_len(w: usize, h: usize) -> (n: Option<usize>)
    ensures
        match n {
            Some(n) => n == frame_bytes(w as int, h as int),
            None => frame_bytes(w as int, h as int) > usize::MAX,
        },
{
    match w.checked_mul(h) {
        Some(area) => area.checked_mul(3),
        None => {
            assert(w * h * 3 > usize::MAX) by (nonlinear_arith)
                requires
                    w * h > usize::MAX,
            ;
            None
        },
    }
}

/// The buffers of a resize from `w` by `h` to `tw` by `th` pixels can be sizes
/// in memory: both images, the image between the two passes, and the weights
/// of either pass.
pub open spec fn resizable(w: u32, h: u32, tw: u32, th: u32) -> bool {
    &&& frame_bytes(w as int, h as int) <= usize::MAX
    &&& frame_bytes(tw as int, th as int) <= isize::MAX
    &&& frame_bytes(w as int, th as int) + 3 <= isize::MAX
    &&& 8 * (w + 8 * tw) <= isize::MAX
    &&& 8 * (h + 8 * th) <= isize::MAX
}

/// A frame of `len` bytes can be handed to a resize: its size can be one in
/// memory, and so can the buffers of the resize, where the frame is not too
/// short for one.
pub open spec fn resize_fits(len: int, w: u32, h: u32, tw: u32, th: u32) -> bool {
    &&& frame_bytes(w as int, h as int) <= usize::MAX
    &&& len >= frame_bytes(w as int, h as int) ==> resizable(w, h, tw, th)
}

/// Whether a frame of `len` bytes can be handed to a resize.
pub fn can_resize(len: usize, w: usize, h: usize, tw: usize, th: usize) -> (can: bool)
    ensures
        can == resize_fits(len as int, w as u32, h as u32, tw as u32, th as u32),
{
    let (a, b, c, d) = (w as u32, h as u32, tw as u32, th as u32);
    let most: u128 = isize::MAX as u128;
    proof {
        lemma_area(c, d);
        lemma_area(a, d);
    }
    let source = wide_frame_bytes(a, b);
    let dest: u128 = c as u128 * d as u128 * 3;
    let between: u128 = a as u128 * d as u128 * 3 + 3;
    if source > usize::MAX as u128 {
        return false;
    }
    (len as u128) < source || (dest <= most && between <= most && 8 * (a as u128 + 8 * c as u128)
        <= most && 8 * (b as u128 + 8 * d as u128) <= most)
}

fn wide_frame_bytes(w: u32, h: u32) -> (n: u128)
    ensures
        n == frame_bytes(w as int, h as int),
{
    proof {
        lemma_area(w, h);
    }
    w as u128 * h as u128 * 3
}

proof fn lemma_area(a: u32, b: u32)
    ensures
        0 <= a * b <= 0xffff_ffff * 0xffff_ffff,
{
    assert(0 <= a * b <= 0xffff_ffff * 0xffff_ffff) by (nonlinear_arith)
        requires
            0 <= a <= 0xffff_ffff,
            0 <= b <= 0xffff_ffff,
    ;
}

/// The pixels that `fast_image_resize` gives for an image of `w` by `h` pixels
/// of three bytes each, resized to `tw` by `th` with a box filter.
pub uninterp spec fn box_resized(pixels: Seq<u8>, w: u32, h: u32, tw: u32, th: u32) -> Seq<u8>;

/// Calls `fast_image_resize::Resizer::resize` with a box convolution on
/// images of the pixel type `U8x3`. It fails only where `pixels` is shorter
/// than the source image, when `Image::from_vec_u8` refuses it. The result
/// has the size of the target image and depends on the arguments alone: the
/// weights are computed from the sizes in IEEE arithmetic and rounded to
/// integers, and the pixels are sums of integers, in whatever order the
/// processor's extensions add them up. Where the two sizes are the same, the
/// image is copied.
#[verifier::external_body]
fn box_resize(pixels: Vec<u8>, w: u32, h: u32, tw: u32, th: u32) -> (r: Option<Vec<u8>>)
    requires
        resizable(w, h, tw, th),
    ensures
        r is Some <==> pixels@.len() >= frame_bytes(w as int, h as int),
        r matches Some(out) ==> out@ == box_resized(pixels@, w, h, tw, th),
        r matches Some(out) ==> out@.len() == frame_bytes(tw as int, th as int),
        w == tw && h == th ==> (r matches Some(out) ==> out@ == pixels@.take(
            frame_bytes(w as int, h as int),
        )),
{
    let source = Image::from_vec_u8(w, h, pixels, PixelType::U8x3).ok()?;
    let mut dest = Image::new(tw, th, PixelType::U8x3);
    let options = ResizeOptions::new().resize_alg(ResizeAlg::Convolution(FilterType::Box));
    Resizer::new().resize(&source, &mut dest, &options).ok()?;
    Some(dest.into_vec())
}

/// A frame has fewer bytes than its size takes.
#[derive(Clone, Copy, Debug, PartialEq, Eq, Structural)]
pub struct FrameTooShort;

impl FrameTooShort {
    /// The error as text.
    pub fn message(&self) -> (text: String)
        ensures
            text@ == "Size of buffer is smaller than required"@,
    {
        "Size of buffer is smaller than required".to_owned()
    }
}

/// What resizing a frame gives. Sizes are taken modulo two to the power of
/// thirty-two, which is what the image library can hold.
pub open spec fn exact_resize(pixels: Seq<u8>, w: usize, h: usize, tw: usize, th: usize) -> Result<
    Seq<u8>,
    FrameTooShort,
> {
    if pixels.len() >= frame_bytes((w as u32) as int, (h as u32) as int) {
        Ok(box_resized(pixels, w as u32, h as u32, tw as u32, th as u32))
    } else {
        Err(FrameTooShort)
    }
}

/// Resizes a frame of `w` by `h` pixels to `tw` by `th`.
pub fn resize_exact(pixels: Vec<u8>, w: usize, h: usize, tw: usize, th: usize) -> (r: Result<
    Vec<u8>,
    FrameTooShort,
>)
    requires
        resize_fits(pixels@.len() as int, w as u32, h as u32, tw as u32, th as u32),
    ensures
        match r {
            Ok(out) => exact_resize(pixels@, w, h, tw, th) == Ok::<Seq<u8>, FrameTooShort>(out@)
                && out@.len() == frame_bytes((tw as u32) as int, (th as u32) as int),
            Err(e) => exact_resize(pixels@, w, h, tw, th) == Err::<Seq<u8>, FrameTooShort>(e),
        },
        w as u32 == tw as u32 && h as u32 == th as u32 ==> (r matches Ok(out) ==> out@
            == pixels@.take(frame_bytes((w as u32) as int, (h as u32) as int))),
{
    if (pixels.len() as u128) < wide_frame_bytes(w as u32, h as u32) {
        return Err(FrameTooShort);
    }
    match box_resize(pixels, w as u32, h as u32, tw as u32, th as u32) {
        Some(out) => Ok(out),
        None => Err(FrameTooShort),
    }
}

/// A decoded frame.
#[derive(Debug)]
pub struct Frame {
    pub pixels: Vec<u8>,
    pub width: usize,
    pub height: usize,
}

/// The model of a [`Frame`].
pub struct FrameView {
    pub pixels: Seq<u8>,
    pub width: usize,
    pub height: usize,
}

impl View for Frame {
    type V = FrameView;

    open spec fn view(&self) -> FrameView {
        FrameView { pixels: self.pixels@, width: self.width, height: self.height }
    }
}

impl FrameView {
    /// The frame has as many bytes as its size takes.
    pub open spec fn is_whole(self) -> bool {
        self.pixels.len() == frame_bytes(self.width as int, self.height as int)
    }
}

/// The width and height that are asked for are ones that an image can have.
pub open spec fn target_fits(target: Option<(usize, usize)>) -> bool {
    match target {
        Some((tw, th)) => tw <= u32::MAX && th <= u32::MAX,
        None => true,
    }
}

proof fn lemma_truncated_frame(w: usize, h: usize)
    ensures
        frame_bytes((w as u32) as int, (h as u32) as int) <= frame_bytes(w as int, h as int),
{
    assert((w as u32) <= w) by (bit_vector);
    assert((h as u32) <= h) by (bit_vector);
    let (a, b) = (w as u32, h as u32);
    assert(a * b * 3 <= w * h * 3) by (nonlinear_arith)
        requires
            a <= w,
            b <= h,
    ;
}

/// A decoded frame at the resolution that is asked for. A frame that has it
/// already stays as it is, whatever is asked for.
pub open spec fn fitted(frame: FrameView, target: Option<(usize, usize)>) -> Result<
    FrameView,
    FrameTooShort,
> {
    match target {
        Some((tw, th)) => if frame.width == tw && frame.height == th {
            Ok(frame)
        } else {
            match exact_resize(frame.pixels, frame.width, frame.height, tw, th) {
                Ok(pixels) => Ok(FrameView { pixels, width: tw, height: th }),
                Err(e) => Err(e),
            }
        },
        None => Ok(frame),
    }
}

/// A frame of `len` bytes and `w` by `h` pixels has the resolution that is
/// asked for, or can be handed to a resize.
pub open spec fn fits_resizer(
    len: int,
    w: usize,
    h: usize,
    target: Option<(usize, usize)>,
) -> bool {
    match target {
        Some((tw, th)) => {
            ||| w == tw && h == th
            ||| resize_fits(len, w as u32, h as u32, tw as u32, th as u32)
        },
        None => true,
    }
}

/// Whether a frame of `len` bytes and `w` by `h` pixels has the resolution that
/// is asked for, or can be handed to a resize.
pub fn can_fit(len: usize, w: usize, h: usize, target: Option<(usize, usize)>) -> (can: bool)
    ensures
        can == fits_resizer(len as int, w, h, target),
{
    match target {
        Some((tw, th)) => (w == tw && h == th) || can_resize(len, w, h, tw, th),
        None => true,
    }
}

/// Brings a decoded frame to the resolution that is asked for.
pub fn fit_frame(frame: Frame, target: Option<(usize, usize)>) -> (r: Result<Frame, FrameTooShort>)
    requires
        fits_resizer(frame@.pixels.len() as int, frame.width, frame.height, target),
    ensures
        match r {
            Ok(out) => fitted(frame@, target) == Ok::<FrameView, FrameTooShort>(out@),
            Err(e) => fitted(frame@, target) == Err::<FrameView, FrameTooShort>(e),
        },
        frame@.is_whole() && target_fits(target) ==> r is Ok && r->Ok_0@.is_whole(),
{
    proof {
        lemma_truncated_frame(frame.width, frame.height);
    }
    match target {
        Some((tw, th)) => {
            if frame.width == tw && frame.height == th {
                return Ok(frame);
            }
            match resize_exact(frame.pixels, frame.width, frame.height, tw, th) {
                Ok(pixels) => Ok(Frame { pixels, width: tw, height: th }),
                Err(e) => Err(e),
            }
        },
        None => Ok(frame),
    }
}

/// Every frame that comes out at a resolution that is asked for has it, from
/// whatever decoder and at whatever size it was decoded.
pub proof fn fitted_frames_have_the_target_size(frame: FrameView, tw: usize, th: usize)
    requires
        fitted(frame, Some((tw, th))) is Ok,
    ensures
        fitted(frame, Some((tw, th)))->Ok_0.width == tw,
        fitted(frame, Some((tw, th)))->Ok_0.height == th,
{
}

/// What becomes of an image that was decoded at `size`: the frame at the
/// resolution that is asked for, or nothing where the image could not be
/// decoded or is too short.
pub open spec fn finished(
    decoded: Option<Seq<u8>>,
    size: DecodeSize,
    target: Option<(usize, usize)>,
) -> Option<FrameView> {
    match decoded {
        Some(pixels) => match fitted(
            FrameView { pixels, width: size.width, height: size.height },
            target,
        ) {
            Ok(frame) => Some(frame),
            Err(_) => None,
        },
        None => None,
    }
}

/// Finishes an image that was decoded at `size`.
pub fn finish_frame(
    decoded: Option<Vec<u8>>,
    size: DecodeSize,
    target: Option<(usize, usize)>,
) -> (frame: Option<Frame>)
    requires
        decoded matches Some(pixels) ==> fits_resizer(
            pixels@.len() as int,
            size.width,
            size.height,
            target,
        ),
    ensures
        match frame {
            Some(f) => decoded is Some && finished(Some(decoded->0@), size, target) == Some(f@),
            None => decoded is None || finished(Some(decoded->0@), size, target) is None,
        },
        decoded is Some && decoded->0@.len() == frame_bytes(
            size.width as int,
            size.height as int,
        ) && target_fits(target) ==> frame is Some && frame->0@.is_whole(),
{
    match decoded {
        Some(pixels) => match fit_frame(
            Frame { pixels, width: size.width, height: size.height },
            target,
        ) {
            Ok(frame) => Some(frame),
            Err(_) => None,
        },
        None => None,
    }
}

/// An image that was decoded whole comes out at the resolution that is asked
/// for, or at its own where none is.
pub proof fn decoded_images_have_the_size_asked_for(
    pixels: Seq<u8>,
    w: usize,
    h: usize,
    size: DecodeSize,
    target: Option<(usize, usize)>,
)
    requires
        size.width == scaled(w as int, decode_eighths(w, h, target)),
        size.height == scaled(h as int, decode_eighths(w, h, target)),
        pixels.len() == frame_bytes(size.width as int, size.height as int),
    ensures
        match finished(Some(pixels), size, target) {
            Some(frame) => Some((frame.width, frame.height)) == match target {
                Some((tw, th)) => Some((tw, th)),
                None => Some((w, h)),
            },
            None => false,
        },
{
    lemma_truncated_frame(size.width, size.height);
}

/// To ask for the resolution that an image has is to ask for none: the image is
/// decoded at its own size, and the frame stays as it is.
pub proof fn the_native_size_as_target_is_as_none(pixels: Seq<u8>, w: usize, h: usize)
    ensures
        scaled(w as int, decode_eighths(w, h, Some((w, h)))) == w,
        scaled(h as int, decode_eighths(w, h, Some((w, h)))) == h,
        scaled(w as int, decode_eighths(w, h, None)) == w,
        scaled(h as int, decode_eighths(w, h, None)) == h,
        fitted(FrameView { pixels, width: w, height: h }, Some((w, h))) == fitted(
            FrameView { pixels, width: w, height: h },
            None,
        ),
{
    picked_scaling_is_the_smallest_that_covers(w, h, w, h);
    lemma_scaled_grows(w as int, 8, 8);
    lemma_scaled_grows(h as int, 8, 8);
}

/// A frame that is ready to be sent.
#[derive(Debug)]
pub struct FrameMessage {
    pub pixels: Vec<u8>,
    pub params: Params,
}

/// How many frames were decoded and how many could not be.
#[derive(Clone, Copy, Debug, PartialEq, Eq, Structural)]
pub struct DecodeTally {
    pub frames: u64,
    pub failed: u64,
}

impl DecodeTally {
    /// Nothing has been decoded.
    pub fn new() -> (tally: DecodeTally)
        ensures
            tally.frames == 0,
            tally.failed == 0,
    {
        DecodeTally { frames: 0, failed: 0 }
    }

    /// Counts a decoded frame, and turns it into a message. A frame that could
    /// not be decoded is counted as failed, and nothing is sent.
    pub fn record(&mut self, decoded: Option<Frame>, stamp_ns: i64) -> (message: Option<
        FrameMessage,
    >)
        requires
            decoded is Some ==> old(self).frames < u64::MAX,
            decoded is None ==> old(self).failed < u64::MAX,
        ensures
            match decoded {
                Some(frame) => {
                    &&& final(self).frames == old(self).frames + 1
                    &&& final(self).failed == old(self).failed
                    &&& message matches Some(m)
                    &&& m.pixels@ == frame.pixels@
                    &&& m.params@ == frame_params_of(frame.width, frame.height, stamp_ns)
                    &&& m.params@.contains_pair("width"@, Param::Integer(frame.width as i64))
                    &&& m.params@.contains_pair("height"@, Param::Integer(frame.height as i64))
                    &&& m.params@.contains_pair("stamp_ns"@, Param::Integer(stamp_ns))
                },
                None => {
                    &&& final(self).frames == old(self).frames
                    &&& final(self).failed == old(self).failed + 1
                    &&& message is None
                },
            },
            final(self).frames + final(self).failed == old(self).frames + old(self).failed + 1,
    {
        match decoded {
            Some(frame) => {
                proof {
                    a_frame_tells_its_size_and_time(frame.width, frame.height, stamp_ns);
                }
                self.frames = self.frames + 1;
                let params = frame_params(frame.width, frame.height, stamp_ns);
                Some(FrameMessage { pixels: frame.pixels, params })
            },
            None => {
                self.failed = self.failed + 1;
                None
            },
        }
    }
}

/// How many threads decode where nothing is set: one for each processor, eight
/// at most. A machine that does not tell its processors counts as having four.
pub open spec fn usual_workers(processors: Option<usize>) -> usize {
    match processors {
        Some(n) => if n < 8 {
            n
        } else {
            8
        },
        None => 4,
    }
}

/// How many threads decode: as set, else as is usual.
pub fn worker_count(set: Option<&str>, processors: Option<usize>) -> (n: usize)
    ensures
        n == setting_value(set_text(set), usual_workers(processors)),
{
    let usual: usize = match processors {
        Some(n) => if n < 8 {
            n
        } else {
            8
        },
        None => 4,
    };
    setting(set, usual)
}

/// A resolution is a width and a height with an `x` of either case between
/// them. No text asks for none; a text without an `x` is refused, and so is one
/// of which either side is no number.
pub proof fn a_resolution_is_width_and_height(before: Seq<char>, x: char, behind: Seq<char>)
    requires
        x == 'x' || x == 'X',
        !before.contains('x'),
        !before.contains('X'),
    ensures
        resolution(seq![]) == Ok::<Option<(usize, usize)>, ResolutionError>(None),
        before.len() > 0 ==> resolution(before) == Err::<Option<(usize, usize)>, _>(
            ResolutionError::Shape,
        ),
        match (parsed_usize(before), parsed_usize(behind)) {
            (Ok(w), Ok(h)) => resolution(before + seq![x] + behind) == Ok::<_, ResolutionError>(
                Some((w, h)),
            ),
            (Err(e), _) => resolution(before + seq![x] + behind) == Err::<
                Option<(usize, usize)>,
                _,
            >(ResolutionError::Width(e)),
            (Ok(_), Err(e)) => resolution(before + seq![x] + behind) == Err::<
                Option<(usize, usize)>,
                _,
            >(ResolutionError::Height(e)),
        },
{
    let lower = |c: char|
        if c == 'X' {
            'x'
        } else {
            c
        };
    let whole = before + seq![x] + behind;
    let n = before.len() as int;
    let front = before.map_values(lower);
    let lowered = whole.map_values(lower);
    assert forall|j: int| 0 <= j < n implies #[trigger] front[j] != 'x' && lowered[j] != 'x' by {
        assert(before.contains(before[j]));
        assert(whole[j] == before[j]);
    }
    front.index_of_first_ensures('x');
    lowered.index_of_first_ensures('x');
    assert(!front.contains('x'));
    assert(whole[n] == x);
    assert(lowered[n] == 'x');
    assert(lowered.contains('x'));
    assert(first_x(whole) == Some(n));
    assert(whole.take(n) =~= before);
    assert(whole.skip(n + 1) =~= behind);
}

/// A scaled dimension is the smallest that is no less than so many eighths of
/// the dimension, and all eighths are the whole.
pub proof fn scaling_takes_eighths_and_rounds_up(dimension: int, eighths: int)
    ensures
        8 * scaled(dimension, eighths) >= dimension * eighths,
        8 * (scaled(dimension, eighths) - 1) < dimension * eighths,
        scaled(dimension, 8) == dimension,
{
}

/// Without a target an image is decoded whole. With one it is decoded at the
/// fewest eighths at which both its sides, rounded up, are at least those of
/// the target, and whole where none are enough.
pub proof fn an_image_is_decoded_at_the_fewest_eighths(w: usize, h: usize, tw: usize, th: usize)
    ensures
        decode_eighths(w, h, None) == 8,
        ({
            let e = decode_eighths(w, h, Some((tw, th)));
            &&& 1 <= e <= 8
            &&& e < 8 ==> (w * e + 7) / 8 >= tw && (h * e + 7) / 8 >= th
            &&& forall|m: int|
                1 <= m < e ==> !((#[trigger] (w * m) + 7) / 8 >= tw && (h * m + 7) / 8 >= th)
        }),
{
    lemma_eighths(1, w, h, tw, th);
    let e = decode_eighths(w, h, Some((tw, th)));
    assert forall|m: int| 1 <= m < e implies !((#[trigger] (w * m) + 7) / 8 >= tw && (h * m + 7) / 8
        >= th) by {
        assert(!covers(m, w, h, tw, th));
    }
    if e < 8 {
        assert(covers(e, w, h, tw, th));
    }
}

/// What becomes of a frame. It stays as it is where no size or its own size is
/// asked for. Else it is what the resizer makes of its pixels, with the size
/// that is asked for, or is refused where it has fewer than three bytes for
/// each of its pixels.
pub proof fn a_frame_is_kept_or_resized(frame: FrameView, tw: usize, th: usize)
    ensures
        fitted(frame, None) == Ok::<FrameView, FrameTooShort>(frame),
        tw == frame.width && th == frame.height ==> fitted(frame, Some((tw, th))) == Ok::<
            FrameView,
            FrameTooShort,
        >(frame),
        !(tw == frame.width && th == frame.height) ==> {
            let resized = exact_resize(frame.pixels, frame.width, frame.height, tw, th);
            match fitted(frame, Some((tw, th))) {
                Ok(out) => out.width == tw && out.height == th && resized == Ok::<
                    Seq<u8>,
                    FrameTooShort,
                >(out.pixels),
                Err(_) => resized is Err,
            }
        },
{
}

/// A resize is refused exactly where the frame has fewer than three bytes for
/// each of its pixels, and gives else what the resizer makes of the pixels.
pub proof fn a_resize_is_what_the_resizer_makes(
    pixels: Seq<u8>,
    w: usize,
    h: usize,
    tw: usize,
    th: usize,
)
    ensures
        exact_resize(pixels, w, h, tw, th) is Err <==> pixels.len() < (w as u32) * (h as u32) * 3,
        exact_resize(pixels, w, h, tw, th) matches Ok(out) ==> out == box_resized(
            pixels,
            w as u32,
            h as u32,
            tw as u32,
            th as u32,
        ),
{
}

/// The model of a frame has the fields of the frame.
pub proof fn the_model_of_a_frame_is_the_frame(frame: Frame)
    ensures
        frame@.pixels == frame.pixels@,
        frame@.width == frame.width,
        frame@.height == frame.height,
{
}

/// What becomes of an image is what becomes of the frame that it was decoded
/// to, and nothing becomes of one that was not decoded.
pub proof fn an_image_is_finished_as_its_frame(
    pixels: Seq<u8>,
    size: DecodeSize,
    target: Option<(usize, usize)>,
)
    ensures
        finished(None, size, target) is None,
        ({
            let frame = FrameView { pixels, width: size.width, height: size.height };
            match finished(Some(pixels), size, target) {
                Some(out) => fitted(frame, target) == Ok::<FrameView, FrameTooShort>(out),
                None => fitted(frame, target) is Err,
            }
        }),
{
}

/// Three bytes for each pixel, a sign for each size: what a frame takes and how
/// a resolution reads.
pub proof fn sizes_are_told_in_bytes_and_words(w: usize, h: usize)
    ensures
        frame_bytes(w as int, h as int) == 3 * (w * h),
        resolution_text(None) == "native"@,
        resolution_text(Some((w, h))) == decimal(w as nat) + seq!['x'] + decimal(h as nat),
{
    reveal_strlit("x");
    assert("x"@ =~= seq!['x']);
    assert(w * h * 3 == 3 * (w * h)) by (nonlinear_arith);
}

/// As many threads decode as there are processors, but never more than eight;
/// four where the processors are not known; and as many as are set, where that
/// is a number.
pub proof fn workers_are_as_many_as_processors(processors: usize)
    ensures
        usual_workers(Some(processors)) <= processors,
        usual_workers(Some(processors)) <= 8,
        usual_workers(Some(processors)) == processors || usual_workers(Some(processors)) == 8,
        usual_workers(None) == 4,
{
}

/// Frames with sides of no more than 16384 pixels can be resized to such sizes,
/// and a frame that has the size that is asked for needs no resize.
pub proof fn usual_sizes_can_be_resized(
    len: int,
    w: usize,
    h: usize,
    tw: usize,
    th: usize,
)
    ensures
        fits_resizer(len, w, h, None),
        w == tw && h == th ==> fits_resizer(len, w, h, Some((tw, th))),
        w <= 16384 && h <= 16384 && tw <= 16384 && th <= 16384 ==> fits_resizer(
            len,
            w,
            h,
            Some((tw, th)),
        ) && resize_fits(len, w as u32, h as u32, tw as u32, th as u32),
{
    if w <= 16384 && h <= 16384 && tw <= 16384 && th <= 16384 {
        lemma_usual_area(w as int, h as int);
        lemma_usual_area(tw as int, th as int);
        lemma_usual_area(w as int, th as int);
    }
}

proof fn lemma_usual_area(a: int, b: int)
    requires
        0 <= a <= 16384,
        0 <= b <= 16384,
    ensures
        frame_bytes(a, b) + 3 <= 0x7fff_ffff,
{
    assert(a * b <= 16384 * 16384) by (nonlinear_arith)
        requires
            0 <= a <= 16384,
            0 <= b <= 16384,
    ;
}

} // verus!
