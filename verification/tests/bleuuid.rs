use btleplug::bleuuid::{uuid_from_u16, uuid_from_u32, BleUuid, Uuid};

fn parse(s: &str) -> Uuid {
    Uuid::from_u128(uuid::Uuid::parse_str(s).unwrap().as_u128())
}

#[test]
fn uuid_from_u32_test() {
    assert_eq!(
        uuid_from_u32(0x11223344),
        parse("11223344-0000-1000-8000-00805f9b34fb")
    );
}

#[test]
fn uuid_from_u16_test() {
    assert_eq!(
        uuid_from_u16(0x1122),
        parse("00001122-0000-1000-8000-00805f9b34fb")
    );
}

#[test]
fn uuid_to_from_u16_success() {
    let uuid = parse("00001234-0000-1000-8000-00805f9b34fb");
    assert_eq!(uuid_from_u16(uuid.to_ble_u16().unwrap()), uuid);
}

#[test]
fn uuid_to_from_u32_success() {
    let uuid = parse("12345678-0000-1000-8000-00805f9b34fb");
    assert_eq!(uuid_from_u32(uuid.to_ble_u32().unwrap()), uuid);
}

#[test]
fn uuid_to_u16_fail() {
    assert_eq!(
        parse("12345678-0000-1000-8000-00805f9b34fb").to_ble_u16(),
        None
    );
    assert_eq!(
        parse("12340000-0000-1000-8000-00805f9b34fb").to_ble_u16(),
        None
    );
    assert_eq!(Uuid::nil().to_ble_u16(), None);
}

#[test]
fn uuid_to_u32_fail() {
    assert_eq!(
        parse("12345678-9000-1000-8000-00805f9b34fb").to_ble_u32(),
        None
    );
    assert_eq!(Uuid::nil().to_ble_u32(), None);
}

#[test]
fn to_short_string_u16() {
    let uuid = uuid_from_u16(0x1122);
    assert_eq!(uuid.to_short_string(), "0x1122");
}

#[test]
fn to_short_string_u32() {
    let uuid = uuid_from_u32(0x11223344);
    assert_eq!(uuid.to_short_string(), "0x11223344");
}

#[test]
fn to_short_string_long() {
    let uuid_str = "12345678-9000-1000-8000-00805f9b34fb";
    let uuid = parse(uuid_str);
    assert_eq!(uuid.to_short_string(), uuid_str);
}

#[test]
fn to_short_string_pads_small_values() {
    assert_eq!(uuid_from_u16(0x0012).to_short_string(), "0x12");
    assert_eq!(uuid_from_u16(0x0001).to_short_string(), "0x01");
    assert_eq!(uuid_from_u32(0x0001_0000).to_short_string(), "0x10000");
}

#[test]
fn short_uuid_round_trips() {
    for short in [0u32, 1, 0xffff, 0x1_0000, 0xdead_beef, u32::MAX] {
        assert_eq!(uuid_from_u32(short).to_ble_u32(), Some(short));
    }
    for short in [0u16, 0x2a00, u16::MAX] {
        assert_eq!(uuid_from_u16(short).to_ble_u16(), Some(short));
        assert_eq!(uuid_from_u16(short).to_ble_u32(), Some(short as u32));
    }
}

#[test]
fn long_form_matches_uuid_crate_text() {
    let v = 0x0123_4567_89ab_cdef_0011_2233_4455_6677u128;
    assert_eq!(
        Uuid::from_u128(v).to_short_string(),
        uuid::Uuid::from_u128(v).to_string()
    );
}
