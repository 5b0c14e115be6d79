use btleplug::bdaddr::{BDAddr, IntErrorKind, ParseBDAddrError, ParseIntError};

/// A BDAddr with the same value as `HEX`.
const ADDR_BYTES: [u8; 6] = [0x1f, 0x2a, 0x00, 0xcc, 0x22, 0xf1];
/// A u64 with the same value as `ADDR`.
const HEX: u64 = 0x00_00_1f_2a_00_cc_22_f1;

fn addr() -> BDAddr {
    BDAddr::from(ADDR_BYTES)
}

#[test]
fn parse_addr() {
    let addr = BDAddr::from([0x2a, 0x00, 0xaa, 0xbb, 0xcc, 0xdd]);

    let result: Result<BDAddr, _> = "2a:00:aa:bb:cc:dd".parse();
    assert_eq!(result, Ok(addr));
    let result: Result<BDAddr, _> = "2a00AabbCcdd".parse();
    assert_eq!(result, Ok(addr));
    let result: Result<BDAddr, _> = "2A:00:00".parse();
    assert_eq!(result, Err(ParseBDAddrError::IncorrectByteCount));
    let result: Result<BDAddr, _> = "2A:00:AA:BB:CC:ZZ".parse();
    assert!(matches!(result, Err(ParseBDAddrError::InvalidDigit(_))));
    let result: Result<BDAddr, _> = "2A00aABbcCZz".parse();
    assert!(matches!(result, Err(ParseBDAddrError::InvalidDigit(_))));
}

#[test]
fn display_addr() {
    assert_eq!(format!("{}", addr().to_string()), "1F:2A:00:CC:22:F1");
    assert_eq!(format!("{}", addr().to_string()), "1F:2A:00:CC:22:F1");
    assert_eq!(addr().to_lower_hex_string(), "1f:2a:00:cc:22:f1");
    assert_eq!(addr().to_upper_hex_string(), "1F:2A:00:CC:22:F1");
    assert_eq!(format!("{}", addr().to_string_no_delim()), "1f2a00cc22f1");
}

#[test]
fn u64_to_addr() {
    let hex_addr: BDAddr = HEX.into();
    assert_eq!(hex_addr, addr());

    let hex_back: u64 = hex_addr.into();
    assert_eq!(HEX, hex_back);
}

#[test]
fn addr_to_u64() {
    let addr_as_hex: u64 = addr().into();
    assert_eq!(HEX, addr_as_hex);

    let addr_back: BDAddr = addr_as_hex.into();
    assert_eq!(addr(), addr_back);
}

#[test]
fn parse_errors_carry_the_integer_error_kind() {
    assert_eq!(
        BDAddr::from_str_delim("2a::aa:bb:cc:dd"),
        Err(ParseBDAddrError::InvalidDigit(ParseIntError { kind: IntErrorKind::Empty }))
    );
    assert_eq!(
        BDAddr::from_str_delim("2a:100:aa:bb:cc:dd"),
        Err(ParseBDAddrError::InvalidDigit(ParseIntError { kind: IntErrorKind::PosOverflow }))
    );
    assert_eq!(
        BDAddr::from_str_delim("2a:+:aa:bb:cc:dd"),
        Err(ParseBDAddrError::InvalidDigit(ParseIntError { kind: IntErrorKind::InvalidDigit }))
    );
    // A leading plus sign and leading zeros are accepted, as u8::from_str_radix accepts them.
    assert_eq!(
        BDAddr::from_str_delim("+2a:000:aa:bb:cc:dd"),
        Ok(BDAddr::from([0x2a, 0, 0xaa, 0xbb, 0xcc, 0xdd]))
    );
    assert_eq!(BDAddr::from_str_no_delim("2a00aabbccd"), Err(ParseBDAddrError::IncorrectByteCount));
}

#[test]
fn parse_agrees_with_std_integer_parsing() {
    for part in ["ff", "FF", "+f", "0", "000f", "100", "", "+", "-1", "g", "f g"] {
        let text = format!("{}:00:00:00:00:00", part);
        let ours = BDAddr::from_str_delim(&text);
        let std_result = u8::from_str_radix(part, 16);
        match std_result {
            Ok(v) => assert_eq!(ours, Ok(BDAddr::from([v, 0, 0, 0, 0, 0]))),
            Err(_) => assert!(matches!(ours, Err(ParseBDAddrError::InvalidDigit(_)))),
        }
    }
}

#[test]
fn slices_and_random_static_addresses() {
    assert_eq!(BDAddr::try_from_slice(&[1, 2, 3]), Err(ParseBDAddrError::IncorrectByteCount));
    assert_eq!(
        BDAddr::try_from_slice(&[1, 2, 3, 4, 5, 6, 7]),
        Ok(BDAddr::from([1, 2, 3, 4, 5, 6]))
    );
    assert!(BDAddr::from([0, 0, 0, 0, 0, 0x03]).is_random_static());
    assert!(!BDAddr::from([0, 0, 0, 0, 0, 0x02]).is_random_static());
    assert_eq!(addr().into_inner(), ADDR_BYTES);
    assert_eq!(addr().as_slice(), &ADDR_BYTES[..]);
}

#[test]
fn displayed_addresses_parse_back() {
    let a = BDAddr::from([0x00, 0x9f, 0xa0, 0x0a, 0xff, 0x10]);
    assert_eq!(BDAddr::from_str(&a.to_string()), Ok(a));
    assert_eq!(BDAddr::from_str(&a.to_lower_hex_string()), Ok(a));
    assert_eq!(BDAddr::from_str(&a.to_string_no_delim()), Ok(a));
}

#[test]
fn undelimited_text_with_a_non_ascii_character_holds_an_invalid_digit() {
    let invalid = Err(ParseBDAddrError::InvalidDigit(ParseIntError { kind: IntErrorKind::InvalidDigit }));
    assert_eq!("0é000000000".len(), 12);
    assert_eq!(BDAddr::from_str_no_delim("0é000000000"), invalid);
    assert_eq!(BDAddr::from_str("0é000000000"), invalid);
    assert_eq!("0é000000000".parse::<BDAddr>(), invalid);
}

#[test]
fn the_undelimited_display_reads_back_with_from_str_no_delim() {
    for bytes in [[0x1f, 0x2a, 0x00, 0xcc, 0x22, 0xf1], [0, 0, 0, 0, 0, 0], [0xff; 6]] {
        let a = BDAddr::from(bytes);
        let s = a.to_string_no_delim();
        assert_eq!(s.len(), 12);
        assert!(s.chars().all(|c| c.is_ascii_digit() || ('a'..='f').contains(&c)));
        assert_eq!(BDAddr::from_str_no_delim(&s), Ok(a));
    }
}
