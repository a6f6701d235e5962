use h264_passthrough::text::push_decimal;
use h264_passthrough::video_frame::{DummyBuffer, I420Buffer, VideoFrame, VideoRotation};
use h264_passthrough::video_source::native::{
    EncodedH264VideoSource, NativeVideoSource, SourceCall,
};
use h264_passthrough::video_source::{RtcVideoSource, VideoResolution};

const UNIT: [u8; 7] = [0, 0, 0, 1, 0x65, 0x88, 0x84];

fn small() -> VideoResolution {
    VideoResolution { width: 320, height: 180 }
}

#[test]
fn default_resolution_is_720p() {
    assert_eq!(VideoResolution::default(), VideoResolution { width: 1280, height: 720 });
    match NativeVideoSource::default().setup_call() {
        SourceCall::NewNativeSource { resolution } => {
            assert_eq!(resolution, VideoResolution { width: 1280, height: 720 })
        }
        _ => panic!("unexpected call"),
    }
}

#[test]
fn native_source_is_created_for_a_resolution() {
    let (source, call) = NativeVideoSource::create(small());
    for call in [call, source.setup_call(), source.clone().setup_call()] {
        match call {
            SourceCall::NewNativeSource { resolution } => assert_eq!(resolution, small()),
            _ => panic!("unexpected call"),
        }
    }
}

#[test]
fn native_source_has_the_resolution_of_the_platform() {
    let hd = VideoResolution { width: 1920, height: 1080 };
    let source = NativeVideoSource::new(small());
    assert_eq!(source.video_resolution(hd), hd);
    assert_eq!(source.video_resolution(small()), small());
    let encoded = EncodedH264VideoSource::new(small());
    assert_eq!(encoded.native_source().video_resolution(hd), hd);
}

#[test]
fn native_source_captures_the_frame_as_it_is() {
    let source = NativeVideoSource::new(small());
    let frame = VideoFrame {
        rotation: VideoRotation::VideoRotation90,
        timestamp_us: -3,
        buffer: vec![1u8, 2],
    };
    let call = source.capture_frame(&frame);
    assert_eq!(call.frame.rotation, VideoRotation::VideoRotation90);
    assert_eq!(call.frame.timestamp_us, -3);
    assert_eq!(call.frame.buffer, vec![1u8, 2]);
}

#[test]
fn rtc_source_has_the_resolution_of_its_kind() {
    let hd = VideoResolution { width: 1920, height: 1080 };
    let native = RtcVideoSource::Native(NativeVideoSource::new(small()));
    assert_eq!(native.video_resolution(hd), hd);
    let encoded = RtcVideoSource::EncodedH264(EncodedH264VideoSource::new(small()));
    assert_eq!(encoded.video_resolution(hd), small());
    assert_eq!(encoded.clone().video_resolution(hd), small());
}

#[test]
fn encoded_source_knows_its_resolution() {
    let source = EncodedH264VideoSource::new(small());
    assert_eq!(source.video_resolution(), small());
    match source.native_source().setup_call() {
        SourceCall::NewNativeSource { resolution } => assert_eq!(resolution, small()),
        _ => panic!("unexpected call"),
    }
}

#[test]
fn setup_registers_the_queue_of_the_source() {
    let (source, calls) = EncodedH264VideoSource::create(small());
    assert_eq!(source.video_resolution(), small());
    assert_eq!(source.setup_calls().len(), calls.len());
    assert_eq!(calls.len(), 4);
    assert!(matches!(&calls[0], SourceCall::NewNativeSource { resolution } if *resolution == small()));
    assert!(matches!(calls[1], SourceCall::NewFrameQueue));
    assert!(matches!(calls[2], SourceCall::RegisterFrameQueue));
    assert!(matches!(&calls[3], SourceCall::NewDummyBuffer { buffer }
        if *buffer == I420Buffer { width: 320, height: 180 }));
}

#[test]
fn push_enqueues_and_then_captures_under_the_lock() {
    let source = EncodedH264VideoSource::new(small());
    let calls = source.push_encoded_frame(&UNIT, 42, true);
    assert_eq!(calls.len(), 4);
    match &calls[0] {
        SourceCall::PushEncodedFrame { encoded } => {
            assert_eq!(encoded.data, &UNIT[..]);
            assert_eq!(encoded.timestamp_us, 42);
            assert!(encoded.is_keyframe);
            assert_eq!((encoded.width, encoded.height), (320, 180));
        }
        _ => panic!("unexpected call"),
    }
    assert!(matches!(calls[1], SourceCall::LockDummyBuffer));
    assert!(matches!(calls[3], SourceCall::UnlockDummyBuffer));
    match &calls[2] {
        SourceCall::CaptureFrame { native_source, frame } => {
            assert!(std::ptr::eq(*native_source, source.native_source()));
            assert_eq!(frame.rotation, VideoRotation::VideoRotation0);
            assert_eq!(frame.timestamp_us, 42);
            assert_eq!(frame.buffer.shape(), I420Buffer { width: 320, height: 180 });
        }
        _ => panic!("unexpected call"),
    }
}

#[test]
fn interleaved_pushes_keep_the_queue_ahead() {
    let source = EncodedH264VideoSource::new(small());
    let other = source.clone();
    let first = source.push_encoded_frame(&UNIT, 1, true);
    let second = other.push_encoded_frame(&UNIT, 2, false);
    for order in 0u32..256 {
        if order.count_ones() != 4 {
            continue;
        }
        let (mut i, mut j) = (0, 0);
        let (mut enqueued, mut captured) = (0, 0);
        for k in 0..8 {
            let call = if order >> k & 1 == 1 {
                i += 1;
                &first[i - 1]
            } else {
                j += 1;
                &second[j - 1]
            };
            match call {
                SourceCall::PushEncodedFrame { .. } => enqueued += 1,
                SourceCall::CaptureFrame { .. } => captured += 1,
                _ => {}
            }
            assert!(captured <= enqueued && enqueued <= captured + 2);
        }
        assert_eq!((enqueued, captured), (2, 2));
    }
}

#[test]
fn each_source_makes_its_own_queue() {
    let sources = [EncodedH264VideoSource::new(small()), EncodedH264VideoSource::new(small())];
    for source in &sources {
        let calls = source.setup_calls();
        let made = calls.iter().filter(|c| matches!(c, SourceCall::NewFrameQueue)).count();
        assert_eq!(made, 1);
    }
    assert!(!std::ptr::eq(sources[0].native_source(), sources[1].native_source()));
}

#[test]
fn dummy_buffer_is_the_same_for_every_push() {
    let source = EncodedH264VideoSource::new(small());
    let other = source.clone();
    let first = source.push_encoded_frame(&UNIT, 1, true);
    let second = other.push_encoded_frame(&UNIT, 2, false);
    match (&first[2], &second[2]) {
        (
            SourceCall::CaptureFrame { frame: a, native_source: m },
            SourceCall::CaptureFrame { frame: b, native_source: n },
        ) => {
            assert!(std::ptr::eq(*m, *n));
            assert!(std::ptr::eq(a.buffer, b.buffer));
        }
        _ => panic!("unexpected call"),
    }
}

#[test]
fn lock_is_released_after_each_use() {
    let buffer = DummyBuffer::new(I420Buffer::new(16, 8));
    for _ in 0..3 {
        assert_eq!(buffer.shape(), I420Buffer { width: 16, height: 8 });
    }
}

#[test]
fn clones_share_the_native_source() {
    let source = EncodedH264VideoSource::new(small());
    let other = source.clone();
    assert!(std::ptr::eq(source.native_source(), other.native_source()));
    assert!(std::ptr::eq(source.native_source(), source.native_source()));
}

#[test]
fn only_the_last_handle_unregisters() {
    let source = EncodedH264VideoSource::new(small());
    let second = source.clone();
    let third = source.clone();
    for handle in [second, source] {
        let dropped = handle.drop_call();
        assert!(dropped.call.is_none());
        assert!(!dropped.released.was_last());
    }
    let dropped = third.drop_call();
    assert!(matches!(dropped.call, Some(SourceCall::UnregisterFrameQueue)));
    assert!(dropped.released.was_last());
}

#[test]
fn dropping_any_kind_of_source() {
    let dropped = RtcVideoSource::Native(NativeVideoSource::new(small())).drop_call();
    assert!(dropped.call.is_none() && !dropped.released.was_last());
    let source = RtcVideoSource::EncodedH264(EncodedH264VideoSource::new(small()));
    assert!(source.clone().drop_call().call.is_none());
    assert!(matches!(source.drop_call().call, Some(SourceCall::UnregisterFrameQueue)));
}

#[test]
fn only_the_last_drop_asks_for_a_call() {
    assert!(matches!(
        EncodedH264VideoSource::drop_call_for(true),
        Some(SourceCall::UnregisterFrameQueue)
    ));
    assert!(EncodedH264VideoSource::drop_call_for(false).is_none());
}

#[test]
fn one_unregistration_after_one_registration() {
    let source = EncodedH264VideoSource::new(small());
    let mut registered = 0;
    let mut cleared = 0;
    for call in source.setup_calls() {
        if matches!(call, SourceCall::RegisterFrameQueue) {
            registered += 1;
        }
    }
    for call in source.push_encoded_frame(&UNIT, 0, true) {
        assert!(!matches!(
            call,
            SourceCall::RegisterFrameQueue | SourceCall::UnregisterFrameQueue
        ));
    }
    let handles: Vec<EncodedH264VideoSource> = (0..5).map(|_| source.clone()).collect();
    assert!(source.drop_call().call.is_none());
    for handle in handles {
        if handle.drop_call().call.is_some() {
            cleared += 1;
        }
    }
    assert_eq!((registered, cleared), (1, 1));
}

#[test]
fn debug_strings() {
    let native = NativeVideoSource::new(small());
    assert_eq!(native.debug_string(), "NativeVideoSource");
    let encoded = EncodedH264VideoSource::new(VideoResolution::default());
    assert_eq!(encoded.debug_string(), "EncodedH264VideoSource { width: 1280, height: 720 }");
    assert_eq!(RtcVideoSource::Native(native).debug_string(), "Native(NativeVideoSource)");
    assert_eq!(
        RtcVideoSource::EncodedH264(encoded).debug_string(),
        "EncodedH264(EncodedH264VideoSource { width: 1280, height: 720 })"
    );
    assert_eq!(format!("{:?}", small()), "VideoResolution { width: 320, height: 180 }");
}

#[test]
fn pretty_debug_strings() {
    let encoded = EncodedH264VideoSource::new(VideoResolution::default());
    assert_eq!(
        encoded.pretty_debug_string(""),
        "EncodedH264VideoSource {\n    width: 1280,\n    height: 720,\n}"
    );
    assert_eq!(
        RtcVideoSource::EncodedH264(encoded).pretty_debug_string(),
        "EncodedH264(\n    EncodedH264VideoSource {\n        width: 1280,\n        height: 720,\n    },\n)"
    );
    let native = RtcVideoSource::Native(NativeVideoSource::new(small()));
    assert_eq!(native.pretty_debug_string(), "Native(\n    NativeVideoSource,\n)");
}

#[test]
fn decimal_numbers() {
    let mut text = String::from("n=");
    push_decimal(&mut text, 0);
    assert_eq!(text, "n=0");
    for n in [7u32, 10, 99, 100, 1080, 123_456_789, u32::MAX] {
        let mut text = String::new();
        push_decimal(&mut text, n);
        assert_eq!(text, format!("{n}"));
    }
}
