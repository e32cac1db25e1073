//! Behaviour of the UTF-8 prefix scanner on whole, split, and corrupt
//! byte sequences.

use fileaccess::decode::utf8_prefix_scan;

#[test]
fn ascii_scans_whole() {
    let v: Vec<u8> = b"hello".to_vec();
    assert_eq!(utf8_prefix_scan(&v), 5);
}

#[test]
fn empty_scans_zero() {
    let v: Vec<u8> = Vec::new();
    assert_eq!(utf8_prefix_scan(&v), 0);
}

#[test]
fn split_three_byte_char_stops_before_it() {
    // 'a' followed by the first two bytes of a three-byte character.
    let v: Vec<u8> = vec![0x61, 0xe2, 0x82];
    assert_eq!(utf8_prefix_scan(&v), 1);
}

#[test]
fn whole_three_byte_char_scans_whole() {
    let v: Vec<u8> = vec![0xe2, 0x82, 0xac];
    assert_eq!(utf8_prefix_scan(&v), 3);
}

#[test]
fn two_byte_char_scans_whole() {
    let v: Vec<u8> = vec![0xc3, 0xa9];
    assert_eq!(utf8_prefix_scan(&v), 2);
}

#[test]
fn overlong_two_byte_rejected() {
    let v: Vec<u8> = vec![0xc0, 0x80];
    assert_eq!(utf8_prefix_scan(&v), 0);
}

#[test]
fn overlong_three_byte_rejected() {
    let v: Vec<u8> = vec![0xe0, 0x9f, 0x80];
    assert_eq!(utf8_prefix_scan(&v), 0);
}

#[test]
fn minimal_three_byte_accepted() {
    let v: Vec<u8> = vec![0xe0, 0xa0, 0x80];
    assert_eq!(utf8_prefix_scan(&v), 3);
}

#[test]
fn surrogate_rejected() {
    let v: Vec<u8> = vec![0xed, 0xa0, 0x80];
    assert_eq!(utf8_prefix_scan(&v), 0);
}

#[test]
fn highest_scalar_accepted() {
    let v: Vec<u8> = vec![0xf4, 0x8f, 0xbf, 0xbf];
    assert_eq!(utf8_prefix_scan(&v), 4);
}

#[test]
fn beyond_highest_scalar_rejected() {
    let v: Vec<u8> = vec![0xf4, 0x90, 0x80, 0x80];
    assert_eq!(utf8_prefix_scan(&v), 0);
}

#[test]
fn overlong_four_byte_rejected() {
    let v: Vec<u8> = vec![0xf0, 0x8f, 0x80, 0x80];
    assert_eq!(utf8_prefix_scan(&v), 0);
}

#[test]
fn minimal_four_byte_accepted() {
    let v: Vec<u8> = vec![0xf0, 0x90, 0x80, 0x80];
    assert_eq!(utf8_prefix_scan(&v), 4);
}

#[test]
fn lone_continuation_rejected() {
    let v: Vec<u8> = vec![0x80];
    assert_eq!(utf8_prefix_scan(&v), 0);
}

#[test]
fn invalid_lead_byte_rejected() {
    let v: Vec<u8> = vec![0xff, 0x61];
    assert_eq!(utf8_prefix_scan(&v), 0);
}

#[test]
fn scan_agrees_with_std_validation() {
    // Each prefix the scanner accepts must be exactly what the standard
    // library accepts as the valid prefix.
    let cases: Vec<Vec<u8>> = vec![
        b"plain ascii".to_vec(),
        vec![0x61, 0xe2, 0x82],
        vec![0xe2, 0x82, 0xac, 0x62],
        vec![0xc3, 0xa9, 0xf0, 0x9f, 0x92, 0x96],
        vec![0x61, 0xff, 0x62],
        vec![0xed, 0x9f, 0xbf],
    ];
    for v in cases {
        let expected = match std::str::from_utf8(&v) {
            Ok(s) => s.len(),
            Err(e) => e.valid_up_to(),
        };
        assert_eq!(utf8_prefix_scan(&v), expected);
    }
}
