use shardfetch::record::{transform_record, RawRecord};

fn raw(code: &str, name: &[u8], price: i64, prev_close: i64) -> RawRecord {
    RawRecord {
        code: code.as_bytes().to_vec(),
        name: name.to_vec(),
        price,
        change: 123,
        prev_close,
        index: 7,
    }
}

#[test]
fn main_board_record_gets_a_ten_percent_band() {
    // reference 12.34: up 13.574 -> 13.57, down 11.106 -> 11.11
    let r = transform_record(raw("600519", b"plain name", 1250, 1234)).unwrap();
    assert_eq!(r.limit_up, 1357);
    assert_eq!(r.limit_down, 1111);
    assert_eq!(r.code, b"600519".to_vec());
    assert_eq!(r.price, 1250);
    assert_eq!(r.change, 123);
    assert_eq!(r.prev_close, 1234);
    assert_eq!(r.index, 7);
}

#[test]
fn wide_band_classes_get_twenty_percent() {
    let r = transform_record(raw("688001", b"plain name", 1000, 1000)).unwrap();
    assert_eq!(r.limit_up, 1200);
    assert_eq!(r.limit_down, 800);
    let r = transform_record(raw("300750", b"plain name", 1000, 1000)).unwrap();
    assert_eq!(r.limit_up, 1200);
    assert_eq!(r.limit_down, 800);
}

#[test]
fn special_treatment_names_get_five_percent() {
    let r = transform_record(raw("600888", b"*ST weak", 1000, 1000)).unwrap();
    assert_eq!(r.limit_up, 1050);
    assert_eq!(r.limit_down, 950);
}

#[test]
fn wide_band_class_wins_over_special_treatment_name() {
    let r = transform_record(raw("300001", b"*ST weak", 1000, 1000)).unwrap();
    assert_eq!(r.limit_up, 1200);
    assert_eq!(r.limit_down, 800);
}

#[test]
fn bands_are_zero_without_a_positive_reference() {
    let r = transform_record(raw("600001", b"plain name", 1000, 0)).unwrap();
    assert_eq!(r.limit_up, 0);
    assert_eq!(r.limit_down, 0);
}

#[test]
fn sentinel_and_excluded_identifier_classes_are_dropped() {
    assert!(transform_record(raw("-", b"n", 1000, 1000)).is_none());
    assert!(transform_record(raw("830001", b"n", 1000, 1000)).is_none());
    assert!(transform_record(raw("430001", b"n", 1000, 1000)).is_none());
    assert!(transform_record(raw("920001", b"n", 1000, 1000)).is_none());
    assert!(transform_record(raw("110001", b"n", 1000, 1000)).is_none());
    assert!(transform_record(raw("123456", b"n", 1000, 1000)).is_none());
    // similar but non-excluded classes stay
    assert!(transform_record(raw("600001", b"n", 1000, 1000)).is_some());
    assert!(transform_record(raw("000001", b"n", 1000, 1000)).is_some());
}

#[test]
fn delisted_names_are_dropped() {
    // the delisting marker character, UTF-8 encoded
    let mut name: Vec<u8> = b"gone ".to_vec();
    name.extend_from_slice(&[0xE9, 0x80, 0x80]);
    assert!(transform_record(raw("600001", &name, 1000, 1000)).is_none());
}

#[test]
fn priceless_records_are_dropped() {
    assert!(transform_record(raw("600001", b"n", 0, 1000)).is_none());
}
