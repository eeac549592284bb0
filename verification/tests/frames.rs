use bagflow::batch::{image_columns, BatchError, Column};
use bagflow::decode::{
    can_fit, can_resize, decode_size, finish_frame, fit_frame, frame_len, parse_resize, pick_factor,
    resize_exact, resolution_label, worker_count, DecodeTally, Frame, FrameTooShort,
    ResolutionError, ScalingFactor,
};
use bagflow::gpu::{
    check_created, check_state_created, open_message, open_step, CudaLibrary, GpuAction,
    GpuDecoder, GpuError, GpuEvent, OpenStep, Stage,
};
use bagflow::number::IntError;
use bagflow::params::Param;

#[test]
fn resolutions_are_read() {
    assert_eq!(parse_resize(""), Ok(None));
    assert_eq!(parse_resize("224x224"), Ok(Some((224, 224))));
    assert_eq!(parse_resize("640X480"), Ok(Some((640, 480))));
    assert_eq!(parse_resize("+1x0"), Ok(Some((1, 0))));
}

#[test]
fn bad_resolutions_are_refused() {
    assert_eq!(parse_resize("224"), Err(ResolutionError::Shape));
    assert_eq!(parse_resize("x3"), Err(ResolutionError::Width(IntError::Empty)));
    assert_eq!(parse_resize("3x"), Err(ResolutionError::Height(IntError::Empty)));
    assert_eq!(parse_resize("1x2x3"), Err(ResolutionError::Height(IntError::InvalidDigit)));
    assert_eq!(
        parse_resize("99999999999999999999x1"),
        Err(ResolutionError::Width(IntError::PosOverflow))
    );
    assert_eq!(ResolutionError::Shape.message(), "RESIZE must look like 224x224");
    assert_eq!(
        ResolutionError::Width(IntError::Empty).message(),
        "cannot parse integer from empty string"
    );
    assert_eq!(
        ResolutionError::Height(IntError::InvalidDigit).message(),
        "invalid digit found in string"
    );
}

#[test]
fn resolution_labels_read_back() {
    assert_eq!(resolution_label(None), "native");
    assert_eq!(resolution_label(Some((640, 480))), "640x480");
    for target in [(1, 2), (0, 0), (usize::MAX, 7)] {
        assert_eq!(parse_resize(&resolution_label(Some(target))), Ok(Some(target)));
    }
}

#[test]
fn scaling_rounds_up() {
    assert_eq!(ScalingFactor { eighths: 1 }.scale(640), 80);
    assert_eq!(ScalingFactor { eighths: 3 }.scale(641), 241);
    assert_eq!(ScalingFactor { eighths: 8 }.scale(usize::MAX), usize::MAX);
    assert_eq!(ScalingFactor { eighths: 5 }.scale(0), 0);
}

#[test]
fn the_smallest_covering_scale_is_picked() {
    assert_eq!(pick_factor(640, 480, 224, 224).eighths, 4);
    assert_eq!(pick_factor(640, 480, 80, 60).eighths, 1);
    assert_eq!(pick_factor(640, 480, 81, 60).eighths, 2);
    assert_eq!(pick_factor(640, 480, 640, 480).eighths, 8);
    assert_eq!(pick_factor(640, 480, 641, 1).eighths, 8);
    assert_eq!(pick_factor(640, 480, 0, 0).eighths, 1);
    for n in 1..4 {
        let f = ScalingFactor { eighths: n };
        assert!(f.scale(640) < 224 || f.scale(480) < 224);
    }
}

#[test]
fn images_are_decoded_at_the_picked_scale() {
    let size = decode_size(640, 480, Some((224, 224)));
    assert_eq!((size.factor.eighths, size.width, size.height), (4, 320, 240));
    let whole = decode_size(641, 479, None);
    assert_eq!((whole.factor.eighths, whole.width, whole.height), (8, 641, 479));
}

#[test]
fn frames_take_three_bytes_a_pixel() {
    assert_eq!(frame_len(640, 480), Some(921600));
    assert_eq!(frame_len(0, 480), Some(0));
    assert_eq!(frame_len(usize::MAX, 1), None);
    assert_eq!(frame_len(usize::MAX, 2), None);
}

#[test]
fn resizes_that_fit_in_memory_can_be_done() {
    let huge = u32::MAX as usize;
    assert!(can_resize(1920 * 1080 * 3, 1920, 1080, 224, 224));
    assert!(can_resize(0, 0, 0, 0, 0));
    assert!(!can_resize(12, huge, huge, 1, 1));
    assert!(!can_resize(12, 2, 2, huge, huge));
    assert!(can_fit(12, 2, 2, Some((2, 2))));
    assert!(can_fit(12, 2, 2, None));
    assert!(!can_fit(12, 2, 2, Some((huge, huge))));
}

#[test]
fn short_frames_are_refused_for_any_target() {
    let huge = u32::MAX as usize;
    assert!(can_resize(11, 2, 2, huge, huge));
    assert_eq!(resize_exact(vec![0; 11], 2, 2, huge, huge), Err(FrameTooShort));
    assert!(can_fit(11, 2, 2, Some((huge, huge))));
    let short = Frame { pixels: vec![0; 11], width: 2, height: 2 };
    assert_eq!(fit_frame(short, Some((huge, huge))).unwrap_err(), FrameTooShort);
}

#[test]
fn the_same_size_keeps_the_pixels() {
    let pixels: Vec<u8> = (0..20).collect();
    assert_eq!(resize_exact(pixels.clone(), 3, 2, 3, 2), Ok(pixels[..18].to_vec()));
    assert_eq!(resize_exact(pixels, 0, 2, 0, 2), Ok(vec![]));
}

#[test]
fn the_native_size_is_no_resize() {
    for (w, h) in [(1, 1), (640, 480), (641, 3), (0, 5)] {
        let asked = decode_size(w, h, Some((w, h)));
        let native = decode_size(w, h, None);
        assert_eq!((asked.width, asked.height), (native.width, native.height));
    }
    let frame = || Frame { pixels: (0..12).collect(), width: 2, height: 2 };
    let asked = fit_frame(frame(), Some((2, 2))).unwrap();
    assert_eq!(asked.pixels, fit_frame(frame(), None).unwrap().pixels);
}

#[test]
fn a_box_resize_takes_means() {
    let pixels = vec![
        0, 10, 20, 40, 50, 60, //
        80, 90, 100, 120, 130, 140,
    ];
    assert!(can_resize(pixels.len(), 2, 2, 1, 1));
    assert_eq!(resize_exact(pixels.clone(), 2, 2, 1, 1), Ok(vec![60, 70, 80]));
    assert_eq!(resize_exact(pixels.clone(), 2, 2, 2, 2), Ok(pixels.clone()));
    let wide = resize_exact(pixels, 2, 2, 4, 4).unwrap();
    assert_eq!(wide.len(), 48);
    assert_eq!(wide[..6], [0, 10, 20, 0, 10, 20]);
}

#[test]
fn short_frames_are_refused() {
    let short = resize_exact(vec![0; 11], 2, 2, 1, 1);
    assert_eq!(short, Err(FrameTooShort));
    assert_eq!(FrameTooShort.message(), "Size of buffer is smaller than required");
    assert_eq!(resize_exact(vec![7; 13], 2, 2, 1, 1), Ok(vec![7, 7, 7]));
}

#[test]
fn frames_come_out_at_the_target_size() {
    let frame = || Frame { pixels: vec![9; 12], width: 2, height: 2 };
    let small = fit_frame(frame(), Some((1, 1))).unwrap();
    assert_eq!((small.pixels, small.width, small.height), (vec![9; 3], 1, 1));
    let same = fit_frame(frame(), Some((2, 2))).unwrap();
    assert_eq!((same.pixels.len(), same.width, same.height), (12, 2, 2));
    let native = fit_frame(frame(), None).unwrap();
    assert_eq!((native.pixels.len(), native.width, native.height), (12, 2, 2));
    let short = Frame { pixels: vec![9; 5], width: 2, height: 2 };
    assert_eq!(fit_frame(short, Some((1, 1))).unwrap_err(), FrameTooShort);
    let empty = Frame { pixels: vec![], width: 0, height: 0 };
    assert_eq!(fit_frame(empty, Some((2, 1))).unwrap().pixels, vec![0; 6]);
}

#[test]
fn decoded_images_are_finished() {
    let size = decode_size(4, 4, Some((1, 1)));
    assert_eq!((size.width, size.height), (1, 1));
    let done = finish_frame(Some(vec![1, 2, 3]), size, Some((1, 1))).unwrap();
    assert_eq!((done.pixels, done.width, done.height), (vec![1, 2, 3], 1, 1));
    let whole = decode_size(2, 2, Some((3, 3)));
    let grown = finish_frame(Some(vec![5; 12]), whole, Some((3, 3))).unwrap();
    assert_eq!((grown.pixels, grown.width, grown.height), (vec![5; 27], 3, 3));
    assert!(finish_frame(None, whole, Some((3, 3))).is_none());
    assert!(finish_frame(Some(vec![5; 3]), whole, Some((3, 3))).is_none());
}

#[test]
fn frames_and_failures_are_counted() {
    let mut tally = DecodeTally::new();
    let frame = Frame { pixels: vec![1, 2, 3], width: 1, height: 1 };
    let message = tally.record(Some(frame), -5).unwrap();
    assert_eq!(message.pixels, [1, 2, 3]);
    let params: Vec<(&str, Param)> =
        message.params.entries().iter().map(|(k, v)| (k.as_str(), *v)).collect();
    assert_eq!(
        params,
        [
            ("channels", Param::Integer(3)),
            ("height", Param::Integer(1)),
            ("rows", Param::Integer(1)),
            ("stamp_ns", Param::Integer(-5)),
            ("width", Param::Integer(1)),
        ]
    );
    assert!(tally.record(None, 0).is_none());
    assert!(tally.record(None, 1).is_none());
    assert_eq!((tally.frames, tally.failed), (1, 2));
}

#[test]
fn eight_workers_are_usual() {
    assert_eq!(worker_count(None, Some(2)), 2);
    assert_eq!(worker_count(None, Some(64)), 8);
    assert_eq!(worker_count(None, None), 4);
    assert_eq!(worker_count(Some("12"), Some(2)), 12);
    assert_eq!(worker_count(Some("all"), Some(2)), 2);
}

#[test]
fn image_batches_are_checked_in_order() {
    let columns = |is_batch: bool, data: Column<u8>, time: Column<i64>| {
        image_columns(is_batch, data, time).map_err(|e| (e, e.message()))
    };
    let error = |e: BatchError, text: &str| Err((e, text.to_string()));
    assert_eq!(columns(true, Column::Usable(1), Column::Usable(2)), Ok((1, 2)));
    assert_eq!(
        columns(false, Column::Absent, Column::Absent),
        error(BatchError::NotABatch, "expected a topic batch (StructArray)")
    );
    assert_eq!(
        columns(true, Column::Absent, Column::Absent),
        error(BatchError::NoData, "no data column")
    );
    assert_eq!(
        columns(true, Column::OtherType, Column::Absent),
        error(BatchError::DataType, "data is not LargeBinary")
    );
    assert_eq!(
        columns(true, Column::Usable(1), Column::Absent),
        error(BatchError::NoLogTime, "no log_time column")
    );
    assert_eq!(
        columns(true, Column::Usable(1), Column::OtherType),
        error(BatchError::LogTimeType, "log_time is not a timestamp")
    );
}

#[test]
fn the_gpu_decodes_a_frame() {
    let mut gpu = GpuDecoder::new();
    assert!(gpu.can_begin(0, 640, 480));
    let begun = gpu.step(GpuEvent::Info { status: 0, width: 640, height: 480 });
    assert_eq!(begun, GpuAction::Allocate { free_first: false, bytes: 921600 });
    assert_eq!(gpu.step(GpuEvent::Allocated { status: 0 }), GpuAction::Decode { pitch: 1920 });
    assert_eq!(gpu.step(GpuEvent::Decoded { status: 0 }), GpuAction::CopyBack { bytes: 921600 });
    assert_eq!(
        gpu.step(GpuEvent::Copied { status: 0 }),
        GpuAction::Deliver { width: 640, height: 480 }
    );
    assert_eq!(gpu, GpuDecoder { held: true, capacity: 921600, stage: Stage::Idle });
}

#[test]
fn the_device_buffer_is_used_again() {
    let mut gpu = GpuDecoder { held: true, capacity: 100, stage: Stage::Idle };
    let fits = gpu.step(GpuEvent::Info { status: 0, width: 3, height: 11 });
    assert_eq!(fits, GpuAction::Decode { pitch: 9 });
    let mut gpu = GpuDecoder { held: true, capacity: 100, stage: Stage::Idle };
    let grows = gpu.step(GpuEvent::Info { status: 0, width: 3, height: 12 });
    assert_eq!(grows, GpuAction::Allocate { free_first: true, bytes: 108 });
    gpu.step(GpuEvent::Allocated { status: 0 });
    assert_eq!(gpu.capacity, 108);
}

#[test]
fn each_device_call_can_fail() {
    let mut gpu = GpuDecoder::new();
    assert!(gpu.can_begin(5, -1, -1));
    assert_eq!(
        gpu.step(GpuEvent::Info { status: 5, width: 0, height: 0 }),
        GpuAction::Fail(GpuError::Info { status: 5 })
    );
    gpu.step(GpuEvent::Info { status: 0, width: 2, height: 2 });
    assert_eq!(
        gpu.step(GpuEvent::Allocated { status: 2 }),
        GpuAction::Fail(GpuError::Allocate { bytes: 12, status: 2 })
    );
    assert_eq!(gpu, GpuDecoder::new());
    gpu.step(GpuEvent::Info { status: 0, width: 2, height: 2 });
    gpu.step(GpuEvent::Allocated { status: 0 });
    assert_eq!(
        gpu.step(GpuEvent::Decoded { status: 8 }),
        GpuAction::Fail(GpuError::Decode { status: 8 })
    );
    gpu.step(GpuEvent::Info { status: 0, width: 2, height: 2 });
    gpu.step(GpuEvent::Decoded { status: 0 });
    assert_eq!(
        gpu.step(GpuEvent::Copied { status: -3 }),
        GpuAction::Fail(GpuError::Copy { status: -3 })
    );
    assert_eq!(gpu, GpuDecoder { held: true, capacity: 12, stage: Stage::Idle });
}

#[test]
fn impossible_sizes_do_not_begin() {
    let gpu = GpuDecoder::new();
    assert!(!gpu.can_begin(0, -1, 1));
    assert!(!gpu.can_begin(0, -1, 0));
    assert!(gpu.can_begin(0, 0, 0));
}

#[test]
fn device_errors_have_messages() {
    let cases = [
        (GpuError::Create { status: 1 }, "nvjpegCreateSimple failed with status 1 (no usable GPU?)"),
        (GpuError::CreateState { status: 2 }, "nvjpegJpegStateCreate failed with status 2"),
        (GpuError::Info { status: 3 }, "nvjpegGetImageInfo failed with 3"),
        (GpuError::Allocate { bytes: 12, status: 2 }, "cudaMalloc(12) failed with 2"),
        (GpuError::Decode { status: 8 }, "nvjpegDecode failed with 8"),
        (GpuError::Copy { status: -3 }, "cudaMemcpy D2H failed with -3"),
    ];
    for (error, text) in cases {
        assert_eq!(error.message(), text);
    }
    assert_eq!(check_created(0), Ok(()));
    assert_eq!(check_created(1), Err(GpuError::Create { status: 1 }));
    assert_eq!(check_state_created(0), Ok(()));
    assert_eq!(check_state_created(2), Err(GpuError::CreateState { status: 2 }));
}

#[test]
fn a_refused_buffer_leaves_the_decoder_as_it_was() {
    let before = GpuDecoder { held: true, capacity: 12, stage: Stage::Idle };
    let mut gpu = before;
    assert_eq!(
        gpu.step(GpuEvent::Info { status: 0, width: 3, height: 3 }),
        GpuAction::Allocate { free_first: true, bytes: 27 }
    );
    assert_eq!(
        gpu.step(GpuEvent::Allocated { status: 2 }),
        GpuAction::Fail(GpuError::Allocate { bytes: 27, status: 2 })
    );
    assert_eq!(gpu, before);
    assert_eq!(
        gpu.step(GpuEvent::Info { status: 0, width: 2, height: 2 }),
        GpuAction::Decode { pitch: 6 }
    );
}

#[test]
fn a_library_can_be_named() {
    assert_eq!(
        CudaLibrary::Nvjpeg.names(None),
        ["libnvjpeg.so.13", "libnvjpeg.so.12", "libnvjpeg.so"]
    );
    assert_eq!(
        CudaLibrary::Cudart.names(None),
        ["libcudart.so.13", "libcudart.so.12", "libcudart.so"]
    );
    assert_eq!(CudaLibrary::Nvjpeg.names(Some("/opt/libnvjpeg.so")), ["/opt/libnvjpeg.so"]);
    assert_eq!(CudaLibrary::Nvjpeg.variable(), "BAGFLOW_NVJPEG");
    assert_eq!(CudaLibrary::Cudart.variable(), "BAGFLOW_CUDART");
}

#[test]
fn the_first_library_that_opens_is_taken() {
    let search = |opens: &[bool]| {
        let (mut tried, mut opened) = (0, false);
        loop {
            match open_step(opens.len(), tried, opened) {
                OpenStep::Done => return Some(tried - 1),
                OpenStep::Try(i) => {
                    assert_eq!(i, tried);
                    opened = opens[i];
                    tried += 1;
                }
                OpenStep::Fail => return None,
            }
        }
    };
    assert_eq!(search(&[]), None);
    assert_eq!(search(&[false, false]), None);
    assert_eq!(search(&[true, true]), Some(0));
    assert_eq!(search(&[false, true, true]), Some(1));
    let names = ["a", "b"];
    assert_eq!(
        open_message(&format!("{names:?}")),
        r#"could not dlopen any of ["a", "b"] — is CUDA available on this machine?"#
    );
}
