use btleplug::advertisement::{
    parse_appearance, parse_appearance_from_advertisement, APPEARANCE_DATA_TYPE,
};

#[test]
fn parses_appearance_payload_as_little_endian() {
    assert_eq!(parse_appearance(&[0x80, 0x04]), Some(0x0480));
    assert_eq!(parse_appearance(&[0x00, 0x00]), Some(0x0000));
}

#[test]
fn rejects_appearance_payloads_that_are_not_exactly_two_bytes() {
    assert_eq!(parse_appearance(&[]), None);
    assert_eq!(parse_appearance(&[0x80]), None);
    assert_eq!(parse_appearance(&[0x80, 0x04, 0x00]), None);
}

#[test]
fn finds_appearance_among_other_advertising_sections() {
    let advertisement = [
        2,
        0x01,
        0x06,
        3,
        APPEARANCE_DATA_TYPE,
        0x80,
        0x04,
        2,
        0x0a,
        0xf8,
    ];

    assert_eq!(
        parse_appearance_from_advertisement(&advertisement),
        Some(0x0480)
    );
}

#[test]
fn skips_invalid_appearance_section_and_accepts_a_later_valid_one() {
    let advertisement = [
        2,
        APPEARANCE_DATA_TYPE,
        0x80,
        3,
        APPEARANCE_DATA_TYPE,
        0x40,
        0x03,
    ];

    assert_eq!(
        parse_appearance_from_advertisement(&advertisement),
        Some(0x0340)
    );
}

#[test]
fn handles_missing_and_malformed_advertising_sections() {
    assert_eq!(parse_appearance_from_advertisement(&[]), None);
    assert_eq!(parse_appearance_from_advertisement(&[0]), None);
    assert_eq!(parse_appearance_from_advertisement(&[2, 0x01, 0x06]), None);
    assert_eq!(
        parse_appearance_from_advertisement(&[3, APPEARANCE_DATA_TYPE, 0x80,]),
        None
    );
    assert_eq!(
        parse_appearance_from_advertisement(&[0, 3, APPEARANCE_DATA_TYPE, 0x80, 0x04,]),
        None
    );
}

#[test]
fn appearance_section_with_long_payload_is_skipped() {
    // A four-byte payload is no appearance; the later section is.
    let advertisement = [5, APPEARANCE_DATA_TYPE, 1, 2, 3, 4, 3, APPEARANCE_DATA_TYPE, 0x11, 0x22];
    assert_eq!(parse_appearance_from_advertisement(&advertisement), Some(0x2211));
}
