use h264_passthrough::access_unit::AccessUnit;
use h264_passthrough::publisher::{
    access_units_of, file_access_units, frame_interval_us, frame_timestamp_us, publish_calls, PublishError,
    StreamAction, StreamEvent, StreamSession,
};
use h264_passthrough::video_source::native::{EncodedH264VideoSource, SourceCall};
use h264_passthrough::video_source::VideoResolution;

const SPS: [u8; 6] = [0, 0, 0, 1, 0x67, 0x42];
const IDR: [u8; 7] = [0, 0, 0, 1, 0x65, 0x88, 0x84];
const SLICE: [u8; 6] = [0, 0, 1, 0x41, 0x9A, 0x02];

fn source() -> EncodedH264VideoSource {
    EncodedH264VideoSource::new(VideoResolution { width: 640, height: 360 })
}

fn enqueued(calls: &[SourceCall<'_>]) -> Vec<(Vec<u8>, i64, bool)> {
    let mut frames = Vec::new();
    for call in calls {
        if let SourceCall::PushEncodedFrame { encoded } = call {
            frames.push((encoded.data.to_vec(), encoded.timestamp_us, encoded.is_keyframe));
        }
    }
    frames
}

#[test]
fn interval_is_rounded_down() {
    assert_eq!(frame_interval_us(30), 33_333);
    assert_eq!(frame_interval_us(1), 1_000_000);
    assert_eq!(frame_interval_us(240), 4_166);
    assert_eq!(frame_interval_us(2_000_000), 0);
}

#[test]
fn timestamps_are_evenly_spaced() {
    let interval = frame_interval_us(25);
    assert_eq!(frame_timestamp_us(1_000, 0, interval), Some(1_000));
    assert_eq!(frame_timestamp_us(1_000, 1, interval), Some(41_000));
    assert_eq!(frame_timestamp_us(1_000, 25, interval), Some(1_001_000));
    assert_eq!(frame_timestamp_us(-5, 2, 3), Some(1));
}

#[test]
fn timestamp_out_of_range() {
    assert_eq!(frame_timestamp_us(i64::MAX, 1, 1), None);
    assert_eq!(frame_timestamp_us(i64::MAX - 1, 1, 1), Some(i64::MAX));
    assert_eq!(frame_timestamp_us(-1, i64::MAX, 2), None);
}

#[test]
fn file_without_pictures_is_an_error() {
    assert_eq!(file_access_units(&[]).unwrap_err(), PublishError::NoAccessUnits);
    assert_eq!(file_access_units(&SPS).unwrap_err(), PublishError::NoAccessUnits);
    assert_eq!(PublishError::NoAccessUnits.message(), "No H.264 access units found");
}

#[test]
fn file_gives_all_units() {
    let data = [&SPS[..], &IDR[..], &SLICE[..]].concat();
    let units = file_access_units(&data).unwrap();
    assert_eq!(units.len(), 2);
    assert_eq!(units[0].data, [&SPS[..], &IDR[..]].concat());
    assert!(units[0].is_keyframe);
    assert_eq!(units[1].data, SLICE.to_vec());
    assert!(!units[1].is_keyframe);
}

#[test]
fn file_reaches_the_queue_in_order() {
    let data = [&SPS[..], &IDR[..], &SLICE[..]].concat();
    let units = file_access_units(&data).unwrap();
    let source = source();
    let published = publish_calls(&source, &units, 500, 0, 100);
    assert!(published.is_complete);
    assert_eq!(published.next_idx, 2);
    assert_eq!(published.calls.len(), 8);
    assert_eq!(
        enqueued(&published.calls),
        vec![([&SPS[..], &IDR[..]].concat(), 500, true), (SLICE.to_vec(), 600, false)]
    );
    for (k, call) in published.calls.iter().enumerate() {
        match call {
            SourceCall::PushEncodedFrame { .. } => assert_eq!(k % 4, 0),
            SourceCall::LockDummyBuffer => assert_eq!(k % 4, 1),
            SourceCall::CaptureFrame { frame, .. } => {
                assert_eq!(k % 4, 2);
                assert_eq!(frame.timestamp_us, 500 + 100 * (k as i64 / 4));
            }
            SourceCall::UnlockDummyBuffer => assert_eq!(k % 4, 3),
            _ => panic!("unexpected call"),
        }
    }
}

#[test]
fn nals_without_pictures_are_an_error() {
    assert_eq!(access_units_of(&Vec::new()).unwrap_err(), PublishError::NoAccessUnits);
    let nals = vec![SPS.to_vec(), IDR.to_vec()];
    let units = access_units_of(&nals).unwrap();
    assert_eq!(units.len(), 1);
    assert_eq!(units[0].data, [&SPS[..], &IDR[..]].concat());
}

#[test]
fn publishing_stops_where_time_ends() {
    let units = vec![
        AccessUnit { data: IDR.to_vec(), is_keyframe: true },
        AccessUnit { data: SLICE.to_vec(), is_keyframe: false },
    ];
    let source = source();
    let published = publish_calls(&source, &units, i64::MAX, 0, 1);
    assert!(!published.is_complete);
    assert_eq!(published.next_idx, 1);
    assert_eq!(enqueued(&published.calls), vec![(IDR.to_vec(), i64::MAX, true)]);
    let none = publish_calls(&source, &units, 0, i64::MAX, 1);
    assert!(!none.is_complete);
    assert_eq!(none.next_idx, i64::MAX);
    assert!(none.calls.is_empty());
}

#[test]
fn batches_are_stamped_as_one() {
    let units = vec![
        AccessUnit { data: IDR.to_vec(), is_keyframe: true },
        AccessUnit { data: SLICE.to_vec(), is_keyframe: false },
        AccessUnit { data: SLICE.to_vec(), is_keyframe: false },
    ];
    let first = vec![AccessUnit { data: IDR.to_vec(), is_keyframe: true }];
    let second = vec![
        AccessUnit { data: SLICE.to_vec(), is_keyframe: false },
        AccessUnit { data: SLICE.to_vec(), is_keyframe: false },
    ];
    let source = source();
    let whole = enqueued(&publish_calls(&source, &units, 7, 0, 10).calls);
    let mut session = StreamSession::new(7, 10);
    let mut parts = enqueued(&session.publish(&source, &first).calls);
    parts.extend(enqueued(&session.publish(&source, &second).calls));
    assert_eq!(parts, whole);
    assert_eq!(parts[2].1, 27);
}

#[test]
fn session_publishes_what_it_reads() {
    let mut session = StreamSession::new(0, 10);
    let data = [&SPS[..], &IDR[..], &SLICE[..]].concat();
    let units = match session.step(StreamEvent::Read(&data)) {
        StreamAction::Publish(units) => units,
        _ => panic!("expected units"),
    };
    assert_eq!(units.len(), 1);
    assert_eq!(units[0].data, [&SPS[..], &IDR[..]].concat());
    let units = match session.step(StreamEvent::Read(&IDR)) {
        StreamAction::Publish(units) => units,
        _ => panic!("expected units"),
    };
    assert_eq!(units.len(), 1);
    assert_eq!(units[0].data, SLICE.to_vec());
}

#[test]
fn session_stops_when_closed_or_interrupted() {
    let mut session = StreamSession::new(0, 10);
    assert!(matches!(session.step(StreamEvent::Read(&[])), StreamAction::Closed));
    assert!(matches!(session.step(StreamEvent::Interrupt), StreamAction::Interrupted));
}
