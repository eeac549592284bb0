//! Decoding on the GPU: which call of the device libraries comes next, and
//! what becomes of a frame.
//!
//! The device calls are made outside. Each [`GpuAction`] asks for one, and the
//! status that it comes back with is the next [`GpuEvent`]. A status other
//! than zero is a failure.
use crate::decode::{frame_bytes, frame_len};
use crate::number::{decimal, decimal_text, signed, signed_text};
use crate::text::{set_text, texts};
use vstd::prelude::*;

verus! {

/// Why a frame could not be decoded, or the device not be set up.
#[derive(Clone, Copy, Debug, PartialEq, Eq, Structural)]
pub enum GpuError {
    Create { status: i32 },
    CreateState { status: i32 },
    Info { status: i32 },
    Allocate { bytes: usize, status: i32 },
    Decode { status: i32 },
    Copy { status: i32 },
}

impl GpuError {
    /// What the error says.
    pub open spec fn text(self) -> Seq<char> {
        match self {
            GpuError::Create { status } => "nvjpegCreateSimple failed with status "@ + signed(
                status as int,
            ) + " (no usable GPU?)"@,
            GpuError::CreateState { status } => "nvjpegJpegStateCreate failed with status "@
                + signed(status as int),
            GpuError::Info { status } => "nvjpegGetImageInfo failed with "@ + signed(status as int),
            GpuError::Allocate { bytes, status } => "cudaMalloc("@ + decimal(bytes as nat)
                + ") failed with "@ + signed(status as int),
            GpuError::Decode { status } => "nvjpegDecode failed with "@ + signed(status as int),
            GpuError::Copy { status } => "cudaMemcpy D2H failed with "@ + signed(status as int),
        }
    }

    /// The error as text.
    pub fn message(&self) -> (text: String)
        ensures
            text@ == self.text(),
    {
        match *self {
            GpuError::Create { status } => {
                let mut text = "nvjpegCreateSimple failed with status ".to_owned();
                text.append(signed_text(status).as_str());
                text.append(" (no usable GPU?)");
                text
            },
            GpuError::CreateState { status } => {
                let mut text = "nvjpegJpegStateCreate failed with status ".to_owned();
                text.append(signed_text(status).as_str());
                text
            },
            GpuError::Info { status } => {
                let mut text = "nvjpegGetImageInfo failed with ".to_owned();
                text.append(signed_text(status).as_str());
                text
            },
            GpuError::Allocate { bytes, status } => {
                let mut text = "cudaMalloc(".to_owned();
                text.append(decimal_text(bytes as u64).as_str());
                text.append(") failed with ");
                text.append(signed_text(status).as_str());
                text
            },
            GpuError::Decode { status } => {
                let mut text = "nvjpegDecode failed with ".to_owned();
                text.append(signed_text(status).as_str());
                text
            },
            GpuError::Copy { status } => {
                let mut text = "cudaMemcpy D2H failed with ".to_owned();
                text.append(signed_text(status).as_str());
                text
            },
        }
    }
}

/// A library that is loaded when the decoder starts.
#[derive(Clone, Copy, Debug, PartialEq, Eq, Structural)]
pub enum CudaLibrary {
    Cudart,
    Nvjpeg,
}

impl CudaLibrary {
    /// The variable that sets another name for the library.
    pub open spec fn variable_name(self) -> Seq<char> {
        match self {
            CudaLibrary::Cudart => "BAGFLOW_CUDART"@,
            CudaLibrary::Nvjpeg => "BAGFLOW_NVJPEG"@,
        }
    }

    /// The names that the library usually has, the newest first.
    pub open spec fn usual_names(self) -> Seq<Seq<char>> {
        match self {
            CudaLibrary::Cudart => seq![
                "libcudart.so.13"@,
                "libcudart.so.12"@,
                "libcudart.so"@,
            ],
            CudaLibrary::Nvjpeg => seq![
                "libnvjpeg.so.13"@,
                "libnvjpeg.so.12"@,
                "libnvjpeg.so"@,
            ],
        }
    }

    /// The variable that sets another name for the library.
    pub fn variable(&self) -> (name: String)
        ensures
            name@ == self.variable_name(),
    {
        match self {
            CudaLibrary::Cudart => "BAGFLOW_CUDART".to_owned(),
            CudaLibrary::Nvjpeg => "BAGFLOW_NVJPEG".to_owned(),
        }
    }

    /// The names under which the library is looked for, in order: the one that
    /// is set, else the usual ones.
    pub fn names(&self, set: Option<&str>) -> (names: Vec<String>)
        ensures
            texts(names@) == match set_text(set) {
                Some(name) => seq![name],
                None => self.usual_names(),
            },
    {
        let mut names: Vec<String> = Vec::new();
        match set {
            Some(name) => {
                names.push(name.to_owned());
                assert(texts(names@) =~= seq![name@]);
            },
            None => {
                match self {
                    CudaLibrary::Cudart => {
                        names.push("libcudart.so.13".to_owned());
                        names.push("libcudart.so.12".to_owned());
                        names.push("libcudart.so".to_owned());
                    },
                    CudaLibrary::Nvjpeg => {
                        names.push("libnvjpeg.so.13".to_owned());
                        names.push("libnvjpeg.so.12".to_owned());
                        names.push("libnvjpeg.so".to_owned());
                    },
                }
                assert(texts(names@) =~= self.usual_names());
            },
        }
        names
    }
}

/// What is done next while a library is looked for.
#[derive(Clone, Copy, Debug, PartialEq, Eq, Structural)]
pub enum OpenStep {
    /// The library is open.
    Done,
    /// Try the name at this place.
    Try(usize),
    /// There is no name left.
    Fail,
}

/// What is done after `tried` of `count` names were tried, where `opened` says
/// whether the last of them opened.
pub open spec fn next_open(count: int, tried: int, opened: bool) -> OpenStep {
    if opened {
        OpenStep::Done
    } else if tried < count {
        OpenStep::Try(tried as usize)
    } else {
        OpenStep::Fail
    }
}

/// What is done next while a library is looked for.
pub fn open_step(count: usize, tried: usize, opened: bool) -> (step: OpenStep)
    ensures
        step == next_open(count as int, tried as int, opened),
{
    if opened {
        OpenStep::Done
    } else if tried < count {
        OpenStep::Try(tried)
    } else {
        OpenStep::Fail
    }
}

/// Which name a search ends with that has tried `tried` names, where `opens`
/// says which of the names open.
pub open spec fn found(opens: Seq<bool>, tried: int, opened: bool) -> Option<int>
    decreases opens.len() - tried,
{
    match next_open(opens.len() as int, tried, opened) {
        OpenStep::Done => Some(tried - 1),
        OpenStep::Try(_) => found(opens, tried + 1, opens[tried]),
        OpenStep::Fail => None,
    }
}

/// A search takes the first name that opens, and fails where none does.
pub proof fn the_first_name_that_opens_is_taken(opens: Seq<bool>)
    ensures
        found(opens, 0, false) == opens.index_of_first(true),
{
    lemma_found(opens, 0);
}

proof fn lemma_found(opens: Seq<bool>, tried: int)
    requires
        0 <= tried <= opens.len(),
        forall|i: int| 0 <= i < tried ==> !#[trigger] opens[i],
    ensures
        found(opens, tried, false) == opens.index_of_first(true),
    decreases opens.len() - tried,
{
    opens.index_of_first_ensures(true);
    if tried < opens.len() {
        if opens[tried] {
            assert(opens.contains(true));
            assert(found(opens, tried + 1, true) == Some(tried));
        } else {
            lemma_found(opens, tried + 1);
        }
    }
}

/// What is said where no name of a library opens. `listed` shows the names.
pub fn open_message(listed: &str) -> (text: String)
    ensures
        text@ == "could not dlopen any of "@ + listed@
            + " — is CUDA available on this machine?"@,
{
    let mut text = "could not dlopen any of ".to_owned();
    text.append(listed);
    text.append(" — is CUDA available on this machine?");
    text
}

/// Checks the status of creating the decoder's handle.
pub fn check_created(status: i32) -> (r: Result<(), GpuError>)
    ensures
        r == if status == 0 {
            Ok::<(), GpuError>(())
        } else {
            Err(GpuError::Create { status })
        },
{
    if status != 0 {
        return Err(GpuError::Create { status });
    }
    Ok(())
}

/// Checks the status of creating the decoder's state.
pub fn check_state_created(status: i32) -> (r: Result<(), GpuError>)
    ensures
        r == if status == 0 {
            Ok::<(), GpuError>(())
        } else {
            Err(GpuError::CreateState { status })
        },
{
    if status != 0 {
        return Err(GpuError::CreateState { status });
    }
    Ok(())
}

/// What is done next.
#[derive(Clone, Copy, Debug, PartialEq, Eq, Structural)]
pub enum GpuAction {
    /// Allocate a buffer on the device. Where `free_first` is set, the one that
    /// was given last is freed before.
    Allocate { free_first: bool, bytes: usize },
    /// Decode into the buffer, with `pitch` bytes for a row.
    Decode { pitch: usize },
    /// Copy the frame from the buffer.
    CopyBack { bytes: usize },
    /// The frame is there.
    Deliver { width: usize, height: usize },
    /// The frame is given up.
    Fail(GpuError),
}

/// What came of it.
#[derive(Clone, Copy, Debug, PartialEq, Eq, Structural)]
pub enum GpuEvent {
    /// The header of an image was read.
    Info { status: i32, width: i32, height: i32 },
    /// A buffer was allocated.
    Allocated { status: i32 },
    /// The image was decoded.
    Decoded { status: i32 },
    /// The frame was copied.
    Copied { status: i32 },
}

/// How far a frame has come.
#[derive(Clone, Copy, Debug, PartialEq, Eq, Structural)]
pub enum Stage {
    /// There is no frame.
    Idle,
    Allocating { width: usize, height: usize },
    Decoding { width: usize, height: usize },
    Copying { width: usize, height: usize },
}

/// The state of the GPU decoder. A frame for which the device has no memory
/// leaves it as it was, though the buffer of the frames before was freed to
/// make room.
#[derive(Clone, Copy, Debug, PartialEq, Eq, Structural)]
pub struct GpuDecoder {
    /// Whether the device has given a buffer.
    pub held: bool,
    /// How many bytes the buffer has that the device gave last.
    pub capacity: usize,
    pub stage: Stage,
}

/// The bytes of a frame, and those of one of its rows, can be sizes in memory.
pub open spec fn size_fits(width: usize, height: usize) -> bool {
    frame_bytes(width as int, height as int) <= usize::MAX && width * 3 <= usize::MAX
}

impl GpuDecoder {
    /// Where no buffer was given there are no bytes, a frame for which one is
    /// being allocated has no room in the one before, and a frame that is being
    /// decoded or copied has as many bytes as the buffer at most.
    pub open spec fn wf(self) -> bool {
        &&& !self.held ==> self.capacity == 0
        &&& match self.stage {
            Stage::Idle => true,
            Stage::Allocating { width, height } => size_fits(width, height) && frame_bytes(
                width as int,
                height as int,
            ) > self.capacity,
            Stage::Decoding { width, height } | Stage::Copying { width, height } => size_fits(
                width,
                height,
            ) && frame_bytes(width as int, height as int) <= self.capacity,
        }
    }

    /// `event` is what came of the last action, and a frame that begins has a
    /// size.
    pub open spec fn expects(self, event: GpuEvent) -> bool {
        match (self.stage, event) {
            (Stage::Idle, GpuEvent::Info { status, width, height }) => status == 0 ==> size_fits(
                width as usize,
                height as usize,
            ),
            (Stage::Allocating { .. }, GpuEvent::Allocated { .. }) => true,
            (Stage::Decoding { .. }, GpuEvent::Decoded { .. }) => true,
            (Stage::Copying { .. }, GpuEvent::Copied { .. }) => true,
            _ => false,
        }
    }

    /// Decoding begins in the buffer that the device gave last.
    pub open spec fn decoding(self, width: usize, height: usize) -> (GpuDecoder, GpuAction) {
        (
            GpuDecoder { stage: Stage::Decoding { width, height }, ..self },
            GpuAction::Decode { pitch: (width * 3) as usize },
        )
    }

    /// The frame is given up.
    pub open spec fn failed(self, error: GpuError) -> (GpuDecoder, GpuAction) {
        (GpuDecoder { stage: Stage::Idle, ..self }, GpuAction::Fail(error))
    }

    /// The next state and what is done in it. A buffer is allocated where the
    /// one that was given last is too small.
    pub open spec fn next(self, event: GpuEvent) -> (GpuDecoder, GpuAction) {
        match (self.stage, event) {
            (Stage::Idle, GpuEvent::Info { status, width, height }) => {
                let (w, h) = (width as usize, height as usize);
                let bytes = frame_bytes(w as int, h as int) as usize;
                if status != 0 {
                    self.failed(GpuError::Info { status })
                } else if bytes <= self.capacity {
                    self.decoding(w, h)
                } else {
                    (
                        GpuDecoder { stage: Stage::Allocating { width: w, height: h }, ..self },
                        GpuAction::Allocate { free_first: self.held, bytes },
                    )
                }
            },
            (Stage::Allocating { width, height }, GpuEvent::Allocated { status }) => {
                let bytes = frame_bytes(width as int, height as int) as usize;
                if status != 0 {
                    self.failed(GpuError::Allocate { bytes, status })
                } else {
                    GpuDecoder { held: true, capacity: bytes, stage: self.stage }.decoding(
                        width,
                        height,
                    )
                }
            },
            (Stage::Decoding { width, height }, GpuEvent::Decoded { status }) => {
                if status != 0 {
                    self.failed(GpuError::Decode { status })
                } else {
                    (
                        GpuDecoder { stage: Stage::Copying { width, height }, ..self },
                        GpuAction::CopyBack {
                            bytes: frame_bytes(width as int, height as int) as usize,
                        },
                    )
                }
            },
            (Stage::Copying { width, height }, GpuEvent::Copied { status }) => {
                if status != 0 {
                    self.failed(GpuError::Copy { status })
                } else {
                    (
                        GpuDecoder { stage: Stage::Idle, ..self },
                        GpuAction::Deliver { width, height },
                    )
                }
            },
            _ => arbitrary(),
        }
    }

    /// A decoder that has no buffer yet.
    pub fn new() -> (decoder: GpuDecoder)
        ensures
            decoder.wf(),
            decoder == (GpuDecoder { held: false, capacity: 0, stage: Stage::Idle }),
    {
        GpuDecoder { held: false, capacity: 0, stage: Stage::Idle }
    }

    /// Whether a frame that begins can have the size that its header tells.
    pub fn can_begin(&self, status: i32, width: i32, height: i32) -> (can: bool)
        requires
            self.stage == Stage::Idle,
        ensures
            can == self.expects(GpuEvent::Info { status, width, height }),
    {
        if status != 0 {
            return true;
        }
        let (w, h) = (width as usize, height as usize);
        match frame_len(w, h) {
            Some(_) => w <= usize::MAX / 3,
            None => false,
        }
    }

    /// Goes on after `event`, and says what is done next.
    pub fn step(&mut self, event: GpuEvent) -> (action: GpuAction)
        requires
            old(self).wf(),
            old(self).expects(event),
        ensures
            final(self).wf(),
            (*final(self), action) == old(self).next(event),
    {
        match (self.stage, event) {
            (Stage::Idle, GpuEvent::Info { status, width, height }) => {
                if status != 0 {
                    return GpuAction::Fail(GpuError::Info { status });
                }
                let (w, h) = (width as usize, height as usize);
                let bytes = byte_count(w, h);
                if bytes <= self.capacity {
                    self.stage = Stage::Decoding { width: w, height: h };
                    return GpuAction::Decode { pitch: w * 3 };
                }
                self.stage = Stage::Allocating { width: w, height: h };
                GpuAction::Allocate { free_first: self.held, bytes }
            },
            (Stage::Allocating { width, height }, GpuEvent::Allocated { status }) => {
                let bytes = byte_count(width, height);
                if status != 0 {
                    self.stage = Stage::Idle;
                    return GpuAction::Fail(GpuError::Allocate { bytes, status });
                }
                self.held = true;
                self.capacity = bytes;
                self.stage = Stage::Decoding { width, height };
                GpuAction::Decode { pitch: width * 3 }
            },
            (Stage::Decoding { width, height }, GpuEvent::Decoded { status }) => {
                if status != 0 {
                    self.stage = Stage::Idle;
                    return GpuAction::Fail(GpuError::Decode { status });
                }
                self.stage = Stage::Copying { width, height };
                GpuAction::CopyBack { bytes: byte_count(width, height) }
            },
            (Stage::Copying { width, height }, GpuEvent::Copied { status }) => {
                self.stage = Stage::Idle;
                if status != 0 {
                    return GpuAction::Fail(GpuError::Copy { status });
                }
                GpuAction::Deliver { width, height }
            },
            _ => vstd::pervasive::unreached(),
        }
    }
}

fn byte_count(width: usize, height: usize) -> (bytes: usize)
    requires
        size_fits(width, height),
    ensures
        bytes == frame_bytes(width as int, height as int),
{
    proof {
        vstd::arithmetic::mul::lemma_mul_nonnegative(width as int, height as int);
    }
    width * height * 3
}

/// How many bytes the decoder has on the device after `event`, where it had
/// `live` before: an allocation gives what was asked for, or nothing where it
/// fails, since what was there is freed before.
pub open spec fn live_bytes(live: int, decoder: GpuDecoder, event: GpuEvent) -> int {
    match (decoder.stage, event) {
        (Stage::Allocating { width, height }, GpuEvent::Allocated { status }) => if status == 0 {
            frame_bytes(width as int, height as int)
        } else {
            0
        },
        _ => live,
    }
}

/// A frame is decoded and copied only where the device has as many bytes for
/// it as it takes. This is kept by every event but one: the refusal of a
/// larger buffer in place of one that was given.
pub proof fn frames_have_room_on_the_device(live: int, decoder: GpuDecoder, event: GpuEvent)
    requires
        decoder.wf(),
        decoder.expects(event),
        live == decoder.capacity,
        !(decoder.held && decoder.next(event).1 matches GpuAction::Fail(GpuError::Allocate { .. })),
    ensures
        live_bytes(live, decoder, event) == decoder.next(event).0.capacity,
        match decoder.next(event).0.stage {
            Stage::Decoding { width, height } | Stage::Copying { width, height } => frame_bytes(
                width as int,
                height as int,
            ) <= live_bytes(live, decoder, event),
            _ => true,
        },
{
}

/// The capacity never shrinks, and a frame that fails leaves it as it was.
pub proof fn the_capacity_only_grows(decoder: GpuDecoder, event: GpuEvent)
    requires
        decoder.wf(),
        decoder.expects(event),
    ensures
        decoder.capacity <= decoder.next(event).0.capacity,
        decoder.held ==> decoder.next(event).0.held,
        decoder.next(event).1 is Fail ==> decoder.next(event).0 == (GpuDecoder {
            stage: Stage::Idle,
            ..decoder
        }),
{
}

/// Where every call succeeds, a frame is delivered in the size that its header
/// tells, and the decoder is ready for the next.
pub proof fn a_good_frame_is_delivered(decoder: GpuDecoder, width: i32, height: i32)
    requires
        decoder.wf(),
        decoder.stage == Stage::Idle,
        size_fits(width as usize, height as usize),
    ensures
        ({
            let (begun, first) = decoder.next(GpuEvent::Info { status: 0, width, height });
            let ready = if first is Allocate {
                begun.next(GpuEvent::Allocated { status: 0 }).0
            } else {
                begun
            };
            let copying = ready.next(GpuEvent::Decoded { status: 0 }).0;
            let (end, last) = copying.next(GpuEvent::Copied { status: 0 });
            &&& last == (GpuAction::Deliver { width: width as usize, height: height as usize })
            &&& end.stage == Stage::Idle
        }),
{
}

/// What is asked of the device is what the frame takes, whatever the buffer
/// has: three bytes for each of its pixels are allocated and copied back, and
/// three for each pixel of a row are its pitch. A frame has the same size from
/// its header to its delivery.
pub proof fn the_device_is_asked_for_the_bytes_of_the_frame(decoder: GpuDecoder, event: GpuEvent)
    requires
        decoder.wf(),
        decoder.expects(event),
    ensures
        match decoder.next(event).1 {
            GpuAction::Allocate { free_first, bytes } => {
                &&& event matches GpuEvent::Info { status, width, height }
                &&& bytes == (width as usize) * (height as usize) * 3
                &&& free_first == decoder.held
                &&& decoder.next(event).0.stage == (Stage::Allocating {
                    width: width as usize,
                    height: height as usize,
                })
            },
            GpuAction::Decode { pitch } => {
                &&& decoder.next(event).0.stage matches Stage::Decoding { width, height }
                &&& pitch == 3 * width
                &&& event matches GpuEvent::Info { width: w, height: h, .. } ==> width
                    == w as usize && height == h as usize
                &&& event is Allocated ==> decoder.stage == (Stage::Allocating { width, height })
            },
            GpuAction::CopyBack { bytes } => {
                &&& decoder.next(event).0.stage matches Stage::Copying { width, height }
                &&& bytes == width * height * 3
                &&& decoder.stage == (Stage::Decoding { width, height })
            },
            GpuAction::Deliver { width, height } => decoder.stage == (Stage::Copying {
                width,
                height,
            }) && decoder.next(event).0.stage == Stage::Idle,
            GpuAction::Fail(_) => decoder.next(event).0.stage == Stage::Idle,
        },
{
}

/// A call that comes back with another status than zero ends the frame, and the
/// error tells the call, the status and, for an allocation, the bytes. A call
/// that comes back with zero ends no frame but one that is delivered.
pub proof fn a_failed_call_ends_the_frame(decoder: GpuDecoder, event: GpuEvent)
    requires
        decoder.wf(),
        decoder.expects(event),
    ensures
        match event {
            GpuEvent::Info { status, .. } => if status != 0 {
                decoder.next(event).1 == GpuAction::Fail(GpuError::Info { status })
            } else {
                decoder.next(event).1 is Allocate || decoder.next(event).1 is Decode
            },
            GpuEvent::Allocated { status } => if status != 0 {
                &&& decoder.next(event).1 matches GpuAction::Fail(
                    GpuError::Allocate { bytes, status: told },
                )
                &&& told == status
                &&& decoder.stage matches Stage::Allocating { width, height }
                &&& bytes == width * height * 3
            } else {
                decoder.next(event).1 is Decode
            },
            GpuEvent::Decoded { status } => if status != 0 {
                decoder.next(event).1 == GpuAction::Fail(GpuError::Decode { status })
            } else {
                decoder.next(event).1 is CopyBack
            },
            GpuEvent::Copied { status } => if status != 0 {
                decoder.next(event).1 == GpuAction::Fail(GpuError::Copy { status })
            } else {
                decoder.next(event).1 is Deliver
            },
        },
{
}

/// A buffer is allocated exactly where the frame has more bytes than the one
/// before, and one that is given has the bytes of the frame. Nothing else
/// changes what the decoder has.
pub proof fn a_buffer_is_allocated_where_it_is_needed(decoder: GpuDecoder, event: GpuEvent)
    requires
        decoder.wf(),
        decoder.expects(event),
    ensures
        event matches GpuEvent::Info { status, width, height } ==> status == 0 ==> (
        decoder.next(event).1 is Allocate <==> (width as usize) * (height as usize) * 3
            > decoder.capacity),
        match (decoder.stage, event) {
            (Stage::Allocating { width, height }, GpuEvent::Allocated { status }) => status == 0
                ==> decoder.next(event).0.held && decoder.next(event).0.capacity == width * height
                * 3,
            _ => decoder.next(event).0.held == decoder.held && decoder.next(event).0.capacity
                == decoder.capacity,
        },
{
}

/// A frame with sides of no more than 16384 pixels can begin, and so can one
/// whose header could not be read.
pub proof fn usual_frames_can_begin(decoder: GpuDecoder, status: i32, width: i32, height: i32)
    requires
        decoder.stage == Stage::Idle,
    ensures
        status != 0 || (0 <= width <= 16384 && 0 <= height <= 16384) ==> decoder.expects(
            GpuEvent::Info { status, width, height },
        ),
{
    if 0 <= width <= 16384 && 0 <= height <= 16384 {
        assert(width * height <= 16384 * 16384) by (nonlinear_arith)
            requires
                0 <= width <= 16384,
                0 <= height <= 16384,
        ;
    }
}

/// An error of the device names the call and the status that it came back with.
pub proof fn a_device_error_tells_call_and_status(bytes: usize, status: i32)
    ensures
        (GpuError::Create { status }).text() == "nvjpegCreateSimple failed with status "@ + signed(
            status as int,
        ) + " (no usable GPU?)"@,
        (GpuError::CreateState { status }).text() == "nvjpegJpegStateCreate failed with status "@
            + signed(status as int),
        (GpuError::Info { status }).text() == "nvjpegGetImageInfo failed with "@ + signed(
            status as int,
        ),
        (GpuError::Allocate { bytes, status }).text() == "cudaMalloc("@ + decimal(bytes as nat)
            + ") failed with "@ + signed(status as int),
        (GpuError::Decode { status }).text() == "nvjpegDecode failed with "@ + signed(
            status as int,
        ),
        (GpuError::Copy { status }).text() == "cudaMemcpy D2H failed with "@ + signed(
            status as int,
        ),
{
}

} // verus!
