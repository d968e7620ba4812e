use xanal::key_buffer::{ArrVec, ARRAY_VEC_SIZE};
use xanal::render::{report_key, report_keys};

#[test]
fn array_vec_size_is_64() {
    assert_eq!(ARRAY_VEC_SIZE, 64);
}

#[test]
fn a_new_key_buffer_is_empty() {
    let key = ArrVec::new();
    assert_eq!(key.len(), 0);
    assert_eq!(key.as_slice(), b"");
    assert!(key.holds(b""));
}

#[test]
fn push_appends_at_the_end() {
    let mut key = ArrVec::new();
    key.push(7);
    key.push(9);
    key.push(7);
    assert_eq!(key.as_slice(), &[7, 9, 7]);
    assert_eq!(key.len(), 3);
}

#[test]
fn from_slice_copies_the_bytes() {
    let key = ArrVec::from_slice(b"beef");
    assert_eq!(key.as_slice(), b"beef");
    assert_eq!(key, ArrVec::from_slice(b"beef"));
    assert_ne!(key, ArrVec::from_slice(b"beet"));
}

#[test]
fn holds_compares_length_and_bytes() {
    let key = ArrVec::from_slice(b"beef");
    assert!(key.holds(b"beef"));
    assert!(!key.holds(b"bee"));
    assert!(!key.holds(b"beefy"));
    assert!(!key.holds(b"beeF"));
}

#[test]
fn a_key_longer_than_the_inline_buffer_keeps_its_bytes() {
    let bytes: Vec<u8> = (0..200u8).collect();
    let mut key = ArrVec::from_slice(&bytes[..ARRAY_VEC_SIZE]);
    assert_eq!(key.len(), ARRAY_VEC_SIZE);
    for &byte in &bytes[ARRAY_VEC_SIZE..] {
        key.push(byte);
    }
    assert_eq!(key.as_slice(), &bytes[..]);
    assert!(key.holds(&bytes));
    assert_eq!(ArrVec::from_slice(&bytes).as_slice(), &bytes[..]);
}

#[test]
fn report_key_renders_text_base64_and_hex() {
    let report = report_key(3, &ArrVec::from_slice(b"beef"));
    assert_eq!(report.index, 3);
    assert_eq!(report.text, "beef");
    assert_eq!(report.base64, "YmVlZg==");
    assert_eq!(report.hex, "62656566");
}

#[test]
fn report_key_renders_bytes_that_are_no_text() {
    let report = report_key(0, &ArrVec::from_slice(&[0x00, 0x0f, 0xf0, 0xff, 0x61]));
    assert_eq!(report.text, "\u{0}\u{f}\u{fffd}\u{fffd}a");
    assert_eq!(report.base64, "AA/w/2E=");
    assert_eq!(report.hex, "000ff0ff61");
}

#[test]
fn report_key_of_an_empty_key_is_empty() {
    let report = report_key(0, &ArrVec::new());
    assert_eq!(report.text, "");
    assert_eq!(report.base64, "");
    assert_eq!(report.hex, "");
}

#[test]
fn report_keys_numbers_the_keys_from_zero() {
    let keys = vec![ArrVec::from_slice(b"key"), ArrVec::from_slice(b"\x01\x02")];
    let reports = report_keys(&keys);
    assert_eq!(reports.len(), 2);
    assert_eq!(reports[0].index, 0);
    assert_eq!(reports[0].text, "key");
    assert_eq!(reports[0].base64, "a2V5");
    assert_eq!(reports[0].hex, "6b6579");
    assert_eq!(reports[1].index, 1);
    assert_eq!(reports[1].base64, "AQI=");
    assert_eq!(reports[1].hex, "0102");
    assert!(report_keys(&Vec::new()).is_empty());
}
