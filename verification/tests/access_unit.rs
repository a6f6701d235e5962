use h264_passthrough::access_unit::{AccessUnit, AccessUnitBuilder, AnnexBStreamParser};
use h264_passthrough::annex_b::split_annex_b;

const SPS: [u8; 6] = [0, 0, 0, 1, 0x67, 0x42];
const PPS: [u8; 6] = [0, 0, 0, 1, 0x68, 0xCE];
const IDR: [u8; 7] = [0, 0, 0, 1, 0x65, 0x88, 0x84];
const SLICE: [u8; 6] = [0, 0, 1, 0x41, 0x9A, 0x02];

fn join(parts: &[&[u8]]) -> Vec<u8> {
    parts.concat()
}

fn plain(units: Vec<AccessUnit>) -> Vec<(Vec<u8>, bool)> {
    units.into_iter().map(|u| (u.data, u.is_keyframe)).collect()
}

#[test]
fn picture_closes_the_unit() {
    let mut builder = AccessUnitBuilder::default();
    assert!(builder.push_nal(&SPS).is_none());
    assert!(builder.push_nal(&PPS).is_none());
    let unit = builder.push_nal(&IDR).unwrap();
    assert_eq!(unit.data, join(&[&SPS, &PPS, &IDR]));
    assert!(unit.is_keyframe);
    let unit = builder.push_nal(&SLICE).unwrap();
    assert_eq!(unit.data, SLICE.to_vec());
    assert!(!unit.is_keyframe);
}

#[test]
fn unit_without_type_is_ignored() {
    let mut builder = AccessUnitBuilder::default();
    assert!(builder.push_nal(&SPS).is_none());
    assert!(builder.push_nal(&[0, 0, 1]).is_none());
    assert!(builder.push_nal(&[0, 0, 0, 1]).is_none());
    assert!(builder.push_nal(&[]).is_none());
    assert_eq!(builder.push_nal(&SLICE).unwrap().data, join(&[&SPS, &SLICE]));
}

#[test]
fn other_types_are_held_back() {
    let mut builder = AccessUnitBuilder::default();
    for ty in 0u8..32 {
        let nal = [0, 0, 1, ty];
        assert_eq!(builder.push_nal(&nal).is_some(), ty == 1 || ty == 5);
    }
}

#[test]
fn batches_of_nals_give_the_same_units() {
    let nals = vec![SPS.to_vec(), IDR.to_vec(), PPS.to_vec(), SLICE.to_vec(), SPS.to_vec()];
    let mut whole = AccessUnitBuilder::default();
    let expected = plain(whole.push_nals(&nals));
    assert_eq!(expected, vec![(join(&[&SPS, &IDR]), true), (join(&[&PPS, &SLICE]), false)]);
    for cut in 0..=nals.len() {
        let mut builder = AccessUnitBuilder::default();
        let mut units = plain(builder.push_nals(&nals[..cut].to_vec()));
        units.extend(plain(builder.push_nals(&nals[cut..].to_vec())));
        assert_eq!(units, expected);
    }
}

#[test]
fn units_and_pending_keep_every_typed_byte() {
    let nals = vec![SPS.to_vec(), vec![0, 0, 1], IDR.to_vec(), SLICE.to_vec(), PPS.to_vec()];
    let mut builder = AccessUnitBuilder::default();
    let mut bytes: Vec<u8> = Vec::new();
    for (data, _) in plain(builder.push_nals(&nals)) {
        bytes.extend(data);
    }
    let closing = builder.push_nal(&SLICE).unwrap().data;
    bytes.extend(closing);
    assert_eq!(bytes, join(&[&SPS, &IDR, &SLICE, &PPS, &SLICE]));
}

#[test]
fn one_unit_per_picture_in_order() {
    let nals = vec![IDR.to_vec(), SPS.to_vec(), SLICE.to_vec(), IDR.to_vec()];
    let mut builder = AccessUnitBuilder::default();
    let units = plain(builder.push_nals(&nals));
    assert_eq!(units.len(), 3);
    assert!(units[0].1 && !units[1].1 && units[2].1);
    assert!(units[1].0.ends_with(&SLICE));
}

#[test]
fn stream_gives_units_once_the_next_start_code_is_there() {
    let mut parser = AnnexBStreamParser::new();
    assert!(parser.push(&SPS).is_empty());
    assert!(parser.push(&IDR).is_empty());
    let units = plain(parser.push(&SLICE));
    assert_eq!(units, vec![(join(&[&SPS, &IDR]), true)]);
}

#[test]
fn stream_does_not_depend_on_the_chunks() {
    let data = join(&[&[9, 9], &SPS, &PPS, &IDR, &SLICE, &SPS, &IDR, &SLICE]);
    let expected = plain(AnnexBStreamParser::new().push(&data));
    assert_eq!(expected.len(), 3);
    for size in 1..data.len() {
        let mut parser = AnnexBStreamParser::new();
        let mut units = Vec::new();
        for chunk in data.chunks(size) {
            units.extend(plain(parser.push(chunk)));
        }
        assert_eq!(units, expected);
    }
}

#[test]
fn file_gives_the_units_of_the_stream_and_the_last() {
    let data = join(&[&SPS, &IDR, &SLICE, &SLICE]);
    let mut stream = plain(AnnexBStreamParser::new().push(&data));
    let file = plain(AccessUnitBuilder::default().push_nals(&split_annex_b(&data)));
    stream.push((SLICE.to_vec(), false));
    assert_eq!(file, stream);
}
