use rtsp_parser::framer::{extract_nal, next_unit};

#[test]
fn mixed_start_codes() {
    let buf: Vec<u8> = vec![0, 0, 1, 0xAA, 0xBB, 0, 0, 0, 1, 0xCC];
    let (first, last) = extract_nal(&buf, 0).unwrap();
    assert_eq!(first, &[0, 0, 1, 0xAA, 0xBB]);
    assert!(!last);
    let (second, last2) = extract_nal(&buf, 5).unwrap();
    assert_eq!(second, &[0, 0, 0, 1, 0xCC]);
    assert!(last2);
}

#[test]
fn no_start_code_yields_none() {
    let buf: Vec<u8> = vec![1, 2, 3, 4, 5, 6, 7, 8];
    assert!(next_unit(&buf, 0).is_none());
    assert!(extract_nal(&buf, 0).is_none());
}

#[test]
fn short_buffer_yields_none() {
    assert!(next_unit(&[0, 0, 1], 0).is_none());
    assert!(next_unit(&[], 0).is_none());
    assert!(next_unit(&[0, 0, 0, 1], 0).is_none());
}

#[test]
fn two_three_byte_codes() {
    let buf: Vec<u8> = vec![0, 0, 1, 9, 0, 0, 1, 7, 7, 7];
    assert_eq!(next_unit(&buf, 0), Some((0, 4, false)));
    assert_eq!(next_unit(&buf, 4), Some((4, 10, true)));
}

#[test]
fn four_byte_opener_three_byte_closer() {
    let buf: Vec<u8> = vec![0, 0, 0, 1, 5, 0, 0, 1, 6, 6, 6];
    assert_eq!(next_unit(&buf, 0), Some((0, 5, false)));
    let (unit, last) = extract_nal(&buf, 0).unwrap();
    assert_eq!(unit, &[0, 0, 0, 1, 5]);
    assert!(!last);
    assert_eq!(next_unit(&buf, 5), Some((5, 11, true)));
}

#[test]
fn code_in_final_window_is_not_opened() {
    let buf: Vec<u8> = vec![9, 9, 9, 0, 0, 1];
    assert!(next_unit(&buf, 0).is_none());
}

#[test]
fn unit_with_no_payload() {
    let buf: Vec<u8> = vec![0, 0, 1, 0, 0, 1, 2, 2, 2];
    assert_eq!(next_unit(&buf, 0), Some((0, 3, false)));
    assert_eq!(next_unit(&buf, 3), Some((3, 9, true)));
}
