use btleplug::api::{CharPropFlags, READ, WRITE};
use btleplug::hci_adapter::AddressType;
use btleplug::att::{
    characteristics, error_response, mtu_request, notify_response, read_by_type_req, read_req,
    value_notification, ErrorResponse, ExchangeMTURequest, NotifyResponse, ValueNotification,
};
use btleplug::bdaddr::BDAddr;
use btleplug::device::{Characteristic, CharacteristicUUID, Device};
use btleplug::hci::ParseError;

#[test]
fn test_characteristics() {
    let buf = [9, 7, 2, 0, 2, 3, 0, 0, 42, 4, 0, 2, 5, 0, 1, 42, 6, 0, 10, 7, 0, 2, 42];
    assert_eq!(
        characteristics(&buf),
        Ok((
            &[][..],
            Ok(vec![
                Characteristic {
                    start_handle: 2,
                    value_handle: 3,
                    end_handle: 0xFFFF,
                    uuid: CharacteristicUUID::B16(0x2A00),
                    properties: CharPropFlags::from_bits_truncate(READ),
                },
                Characteristic {
                    start_handle: 4,
                    value_handle: 5,
                    end_handle: 0xFFFF,
                    uuid: CharacteristicUUID::B16(0x2A01),
                    properties: CharPropFlags::from_bits_truncate(READ),
                },
                Characteristic {
                    start_handle: 6,
                    value_handle: 7,
                    end_handle: 0xFFFF,
                    uuid: CharacteristicUUID::B16(0x2A02),
                    properties: CharPropFlags::from_bits_truncate(READ | WRITE),
                },
            ])
        ))
    )
}

#[test]
fn test_value_notification() {
    let buf = [27, 46, 0, 165, 17, 5, 0, 0, 130, 0, 0, 0, 0, 0, 0, 0, 0, 0, 0, 0, 0, 0];
    assert_eq!(
        value_notification(&buf),
        Ok((
            &[][..],
            ValueNotification {
                uuid: CharacteristicUUID::B16(0),
                handle: Some(46),
                value: vec![165, 17, 5, 0, 0, 130, 0, 0, 0, 0, 0, 0, 0, 0, 0, 0, 0, 0, 0],
            }
        ))
    );
}

#[test]
fn test_error() {
    let buf = [1, 8, 32, 0, 10];
    assert_eq!(
        characteristics(&buf),
        Ok((&[][..], Err(ErrorResponse { request_opcode: 0x08, handle: 0x20, error_code: 0x0a })))
    )
}

#[test]
fn test_read_req() {
    let expected: Vec<u8> = vec![0x0A, 0x25, 0x00];
    assert_eq!(expected, read_req(0x0025));
}

#[test]
fn characteristics_with_128_bit_uuids() {
    let mut buf = vec![9, 21, 0x10, 0, 0x02, 0x11, 0];
    buf.extend(1u8..=16);
    buf.push(99);
    let mut uuid = [0u8; 16];
    for (k, b) in uuid.iter_mut().enumerate() {
        *b = k as u8 + 1;
    }
    assert_eq!(
        characteristics(&buf),
        Ok((
            &[99][..],
            Ok(vec![Characteristic {
                start_handle: 0x10,
                value_handle: 0x11,
                end_handle: 0xFFFF,
                uuid: CharacteristicUUID::B128(uuid),
                properties: CharPropFlags::from_bits_truncate(READ),
            }])
        ))
    );
}

#[test]
fn characteristics_errors_and_other_opcodes() {
    assert_eq!(characteristics(&[]), Err(ParseError::Incomplete(1)));
    assert_eq!(characteristics(&[9]), Err(ParseError::Incomplete(1)));
    assert_eq!(characteristics(&[1, 8, 32]), Err(ParseError::Incomplete(2)));
    // A record length of 14 with 16-bit declarations would have two records,
    // but the declarations are read as 128-bit ones, of 21 bytes.
    assert_eq!(characteristics(&[9, 14, 1, 0, 2, 3, 0, 0, 42, 4, 0, 2, 5, 0, 1, 42]), Err(ParseError::Incomplete(1)));
    assert_eq!(characteristics(&[0x13, 1, 2]), Ok((&[][..], Ok(vec![]))));
}

#[test]
fn small_responses_and_requests() {
    assert_eq!(
        notify_response(&[9, 4, 0x20, 0, 0x34, 0x12, 7]),
        Ok((&[7][..], NotifyResponse { typ: 4, handle: 0x20, value: 0x1234 }))
    );
    assert_eq!(notify_response(&[8, 4]), Err(ParseError::Error));
    assert_eq!(mtu_request(&[2, 0x17, 0]), Ok((&[][..], ExchangeMTURequest { client_rx_mtu: 23 })));
    assert_eq!(mtu_request(&[2, 0x17]), Err(ParseError::Incomplete(2)));
    assert_eq!(
        error_response(&[8, 32, 0, 10]),
        Ok((&[][..], ErrorResponse { request_opcode: 8, handle: 32, error_code: 10 }))
    );
    assert_eq!(value_notification(&[27, 46, 0]), Err(ParseError::Error));
    assert_eq!(read_by_type_req(1, 0xFFFF, CharacteristicUUID::B16(0x2803)), vec![8, 1, 0, 0xFF, 0xFF, 0x03, 0x28]);
    let mut uuid = [0u8; 16];
    uuid[0] = 0xAA;
    uuid[15] = 0xBB;
    let req = read_by_type_req(2, 3, CharacteristicUUID::B128(uuid));
    assert_eq!(req.len(), 21);
    assert_eq!(&req[..5], &[8, 2, 0, 3, 0]);
    assert_eq!(req[5], 0xAA);
    assert_eq!(req[20], 0xBB);
}

#[test]
fn uuid_and_characteristic_text() {
    assert_eq!(CharacteristicUUID::B16(0x2A00).to_string(), "2A:00");
    let mut uuid = [0u8; 16];
    for (k, b) in uuid.iter_mut().enumerate() {
        *b = k as u8;
    }
    assert_eq!(
        CharacteristicUUID::B128(uuid).to_string(),
        "0F:0E:0D:0C:0B:0A:09:08:07:06:05:04:03:02:01:00"
    );
    let c = Characteristic {
        start_handle: 2,
        end_handle: 0xFFFF,
        value_handle: 3,
        uuid: CharacteristicUUID::B16(0x2A00),
        properties: CharPropFlags::from_bits_truncate(READ),
    };
    assert_eq!(
        c.to_string(),
        "handle: 0x0002, char properties: 0x02, char value handle: 0x0003, end handle: 0xFFFF, uuid: 2A:00"
    );
}

#[test]
fn new_device_knows_only_its_address() {
    let addr = BDAddr::from([1, 2, 3, 4, 5, 6]);
    let d = Device::new(addr, AddressType::Random);
    assert_eq!(d.address, addr);
    assert_eq!(d.address_type, AddressType::Random);
    assert!(d.local_name.is_none());
    assert!(d.tx_power_level.is_none());
    assert!(d.manufacturer_data.is_none());
    assert!(d.characteristics.is_empty());
}
