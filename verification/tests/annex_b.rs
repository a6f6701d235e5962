use h264_passthrough::annex_b::{
    drain_nals, find_start_codes, nal_type, split_annex_b, start_code_len,
};

const SPS: [u8; 6] = [0, 0, 0, 1, 0x67, 0x42];
const PPS: [u8; 6] = [0, 0, 0, 1, 0x68, 0xCE];
const IDR: [u8; 7] = [0, 0, 0, 1, 0x65, 0x88, 0x84];
const SLICE: [u8; 6] = [0, 0, 1, 0x41, 0x9A, 0x02];

fn join(parts: &[&[u8]]) -> Vec<u8> {
    parts.concat()
}

#[test]
fn start_code_of_three_and_of_four_bytes() {
    assert_eq!(start_code_len(&[0, 0, 1, 0x65], 0), Some(3));
    assert_eq!(start_code_len(&[0, 0, 0, 1], 0), Some(4));
    assert_eq!(start_code_len(&[0xFF, 0, 0, 1, 9], 1), Some(3));
    assert_eq!(start_code_len(&[0, 0, 0, 0, 1], 0), None);
    assert_eq!(start_code_len(&[0, 0, 0, 0, 1], 1), Some(4));
    assert_eq!(start_code_len(&[0, 1, 1, 1], 0), None);
    assert_eq!(start_code_len(&[0, 0, 2, 1], 0), None);
}

#[test]
fn start_code_needs_four_bytes() {
    assert_eq!(start_code_len(&[], 0), None);
    assert_eq!(start_code_len(&[0, 0, 1], 0), None);
    assert_eq!(start_code_len(&[7, 0, 0, 1], 1), None);
    assert_eq!(start_code_len(&[0, 0, 1, 5], 4), None);
    assert_eq!(start_code_len(&[0, 0, 1, 5], usize::MAX), None);
}

#[test]
fn four_byte_code_counts_once() {
    assert_eq!(find_start_codes(&[0, 0, 0, 1, 0x67, 0, 0, 1, 0x68]), vec![0, 5]);
    assert_eq!(find_start_codes(&[0, 0, 0, 0, 1, 9]), vec![1]);
    assert_eq!(find_start_codes(&[0, 0, 1, 0, 0, 1, 9]), vec![0, 3]);
    assert_eq!(find_start_codes(&[1, 2, 3, 4]), Vec::<usize>::new());
    assert_eq!(find_start_codes(&[]), Vec::<usize>::new());
}

#[test]
fn start_positions_ascend_and_are_complete() {
    let data = join(&[&[9, 9], &SPS, &SLICE, &IDR]);
    let starts = find_start_codes(&data);
    assert_eq!(starts, vec![2, 8, 14]);
    for i in 0..data.len() {
        let tail_of_four = i > 0 && start_code_len(&data, i - 1) == Some(4);
        assert_eq!(starts.contains(&i), start_code_len(&data, i).is_some() && !tail_of_four);
    }
}

#[test]
fn split_cuts_at_start_codes() {
    let data = join(&[&SPS, &PPS, &IDR, &SLICE]);
    let nals = split_annex_b(&data);
    assert_eq!(nals, vec![SPS.to_vec(), PPS.to_vec(), IDR.to_vec(), SLICE.to_vec()]);
}

#[test]
fn split_without_start_code_gives_nothing() {
    assert_eq!(split_annex_b(&[]), Vec::<Vec<u8>>::new());
    assert_eq!(split_annex_b(&[1, 2, 3, 4, 5]), Vec::<Vec<u8>>::new());
    assert_eq!(split_annex_b(&[0, 0, 1]), Vec::<Vec<u8>>::new());
}

#[test]
fn split_skips_bytes_in_front_and_keeps_all_behind() {
    let data = join(&[&[7, 0xFF], &IDR, &SLICE]);
    assert_eq!(split_annex_b(&data).concat(), join(&[&IDR, &SLICE]));
}

#[test]
fn split_of_split_is_the_same() {
    let data = join(&[&[7, 0], &SPS, &[0, 0, 1], &IDR, &[0, 0], &SLICE]);
    let nals = split_annex_b(&data);
    assert_eq!(split_annex_b(&nals.concat()), nals);
}

#[test]
fn every_nal_opens_with_a_start_code() {
    let data = join(&[&[7], &SPS, &[0, 0, 1], &SLICE, &IDR, &[0, 0, 0]]);
    for nal in split_annex_b(&data) {
        assert!(nal.starts_with(&[0, 0, 1]) || nal.starts_with(&[0, 0, 0, 1]));
        assert!(find_start_codes(&nal).iter().all(|p| *p == 0));
    }
}

#[test]
fn drain_keeps_the_open_unit() {
    let mut buffer = join(&[&[7], &SPS, &PPS, &IDR[..5]]);
    let nals = drain_nals(&mut buffer);
    assert_eq!(nals, vec![SPS.to_vec(), PPS.to_vec()]);
    assert_eq!(buffer, IDR[..5].to_vec());
    assert_eq!(drain_nals(&mut buffer), Vec::<Vec<u8>>::new());
    assert_eq!(buffer, IDR[..5].to_vec());
}

#[test]
fn drain_waits_for_two_start_codes() {
    let mut buffer = join(&[&[7, 8], &SPS]);
    let before = buffer.clone();
    assert_eq!(drain_nals(&mut buffer), Vec::<Vec<u8>>::new());
    assert_eq!(buffer, before);
}

#[test]
fn drain_does_not_depend_on_the_chunks() {
    let data = join(&[&[3], &SPS, &PPS, &IDR, &SLICE, &SLICE]);
    let mut whole = data.clone();
    let expected = drain_nals(&mut whole);
    for cut in 0..data.len() {
        let mut buffer = data[..cut].to_vec();
        let mut nals = drain_nals(&mut buffer);
        buffer.extend_from_slice(&data[cut..]);
        nals.extend(drain_nals(&mut buffer));
        assert_eq!(nals, expected);
        assert_eq!(buffer, whole);
    }
}

#[test]
fn split_is_drain_and_the_open_unit() {
    let data = join(&[&[3], &SPS, &IDR, &SLICE]);
    let mut buffer = data.clone();
    let mut nals = drain_nals(&mut buffer);
    nals.push(buffer);
    assert_eq!(split_annex_b(&data), nals);
}

#[test]
fn type_is_the_low_five_bits_of_the_header() {
    assert_eq!(nal_type(&SPS), Some(7));
    assert_eq!(nal_type(&PPS), Some(8));
    assert_eq!(nal_type(&IDR), Some(5));
    assert_eq!(nal_type(&SLICE), Some(1));
    assert_eq!(nal_type(&[0, 0, 1, 0xFF]), Some(31));
}

#[test]
fn bare_or_missing_start_code_has_no_type() {
    assert_eq!(nal_type(&[]), None);
    assert_eq!(nal_type(&[0, 0, 1]), None);
    assert_eq!(nal_type(&[0, 0, 0, 1]), None);
    assert_eq!(nal_type(&[0x65, 0x88, 0x84, 0x00]), None);
}
