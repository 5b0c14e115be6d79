use btleplug::api::AddressType;
use btleplug::bdaddr::BDAddr;
use btleplug::hci::{le_advertising_data, AdvertisingFlags, LEAdvertisingData, ParseError};
use btleplug::hci_codes::{CommandType, HCIStatus};
use btleplug::hci_packet::{
    bd_addr, hci_command, le_advertising_info, message, ACLData, CommandComplete, LEAdvertisingInfo,
    LEConnInfo, LEConnUpdateInfo, LEFeatureFlags, Message,
};

fn flags(bits: u8) -> LEAdvertisingData {
    LEAdvertisingData::Flags(AdvertisingFlags::from_bits_truncate(bits))
}

#[test]
fn test_decode_device_discovery() {
    let buf = [
        4, 62, 40, 2, 1, 4, 0, 192, 74, 150, 234, 218, 116, 28, 18, 9, 76, 69, 68, 66, 108, 117, 101, 45, 69,
        65, 57, 54, 52, 65, 67, 48, 32, 5, 18, 16, 0, 20, 0, 2, 10, 4, 190,
    ];

    let expected = Message::LEAdvertisingReport(LEAdvertisingInfo {
        evt_type: 4,
        bdaddr_type: 0,
        bdaddr: BDAddr::from([192, 74, 150, 234, 218, 116]),
        data: vec![
            LEAdvertisingData::LocalName(String::from("LEDBlue-EA964AC0 ")),
            LEAdvertisingData::SlaveConnectionIntervalRange(16, 20),
            LEAdvertisingData::TxPowerLevel(4),
        ],
    });

    assert_eq!(message(&buf), Ok((&[][..], expected)));
}

#[test]
fn hci_test_decode_device_discovery2() {
    let buf = [
        4, 62, 23, 2, 1, 0, 0, 192, 74, 150, 234, 218, 116, 11, 2, 1, 6, 7, 2, 240, 255, 229, 255, 224, 255,
        194,
    ];

    let expected = Message::LEAdvertisingReport(LEAdvertisingInfo {
        evt_type: 0,
        bdaddr_type: 0,
        bdaddr: BDAddr::from([192, 74, 150, 234, 218, 116]),
        data: vec![
            flags(AdvertisingFlags::BR_EDR_NOT_SUPPORTED | AdvertisingFlags::LE_GENERAL_DISCOVERABLE_MODE),
            LEAdvertisingData::ServiceClassUUID16(0xFFF0),
            LEAdvertisingData::ServiceClassUUID16(0xFFE5),
            LEAdvertisingData::ServiceClassUUID16(0xFFE0),
        ],
    });

    assert_eq!(message(&buf), Ok((&[][..], expected)));
}

#[test]
fn hci_test_bd_addr() {
    let buf = [192u8, 74, 150, 234, 218, 116];
    assert_eq!(bd_addr(&buf), Ok((&[][..], BDAddr::from([192, 74, 150, 234, 218, 116]))))
}

#[test]
fn hci_test_le_advertising_info() {
    let buf = [1, 4, 0, 192, 74, 150, 234, 218, 116, 11, 2, 1, 6, 7, 2, 240, 255, 229, 255, 224, 255];

    assert_eq!(
        le_advertising_info(&buf),
        Ok((
            &[][..],
            LEAdvertisingInfo {
                evt_type: 4,
                bdaddr_type: 0,
                bdaddr: BDAddr::from([192, 74, 150, 234, 218, 116]),
                data: vec![
                    flags(AdvertisingFlags::BR_EDR_NOT_SUPPORTED | AdvertisingFlags::LE_GENERAL_DISCOVERABLE_MODE),
                    LEAdvertisingData::ServiceClassUUID16(65520),
                    LEAdvertisingData::ServiceClassUUID16(65509),
                    LEAdvertisingData::ServiceClassUUID16(65504),
                ],
            }
        ))
    );
}

#[test]
fn hci_test_le_advertising_data() {
    let buf = [7, 2, 240, 255, 229, 255, 224, 255];

    assert_eq!(
        le_advertising_data(&buf),
        Ok((
            &[][..],
            vec![
                LEAdvertisingData::ServiceClassUUID16(65520),
                LEAdvertisingData::ServiceClassUUID16(65509),
                LEAdvertisingData::ServiceClassUUID16(65504),
            ]
        ))
    );

    let buf = [18, 9, 76, 69, 68, 66, 108, 117, 101, 45, 69, 65, 57, 55, 66, 55, 65, 51, 32];
    assert_eq!(
        le_advertising_data(&buf),
        Ok((&[][..], vec![LEAdvertisingData::LocalName(String::from("LEDBlue-EA97B7A3 "))]))
    );
}

#[test]
fn test_acl_data_packet() {
    let buf = [2, 64, 32, 9, 0, 5, 0, 4, 0, 1, 16, 1, 0, 16];
    assert_eq!(
        message(&buf),
        Ok((&[][..], Message::ACLDataPacket(ACLData { handle: 64, cid: 4, data: vec![1, 16, 1, 0, 16], len: 5 }),))
    )
}

#[test]
fn test_cmd_status() {
    let buf = [4, 15, 4, 0, 1, 22, 32];
    assert_eq!(
        message(&buf),
        Ok((
            &[][..],
            Message::CommandStatus { command: CommandType::LEReadRemoteUsedFeatures, status: HCIStatus::Success }
        ))
    );
}

#[test]
fn test_recv_le_meta() {
    let buf = [4, 62, 12, 4, 0, 64, 0, 1, 0, 0, 0, 0, 0, 0, 0];
    assert_eq!(
        message(&buf),
        Ok((
            &[][..],
            Message::LEReadRemoteUsedFeaturesComplete {
                status: HCIStatus::Success,
                handle: 64,
                flags: LEFeatureFlags::from_bits_truncate(LEFeatureFlags::LE_ENCRYPTION),
            }
        ))
    )
}

#[test]
fn hci_command_packet_layout() {
    assert_eq!(hci_command(0x200C, &[1, 0]), vec![1, 0x0C, 0x20, 2, 1, 0]);
    assert_eq!(hci_command(0x0C03, &[]), vec![1, 0x03, 0x0C, 0]);
}

#[test]
fn message_keeps_input_after_the_packet() {
    let buf = [4, 15, 4, 0, 1, 22, 32, 99, 98];
    let (rest, m) = message(&buf).unwrap();
    assert_eq!(rest, &[99, 98][..]);
    assert_eq!(m, Message::CommandStatus { command: CommandType::LEReadRemoteUsedFeatures, status: HCIStatus::Success });
}

#[test]
fn message_errors() {
    assert_eq!(message(&[]), Err(ParseError::Incomplete(1)));
    assert_eq!(message(&[3]), Err(ParseError::Error));
    assert_eq!(message(&[4, 0x10, 0]), Err(ParseError::Error));
    assert_eq!(message(&[4, 0x3e, 5, 2]), Err(ParseError::Incomplete(5)));
    assert_eq!(message(&[4, 0x08, 0]), Err(ParseError::Error));
    assert_eq!(message(&[2, 0x00, 0x30]), Err(ParseError::Error));
    assert_eq!(message(&[2, 0x40]), Err(ParseError::Incomplete(2)));
    assert_eq!(message(&[1, 0xFF, 0xFF, 0]), Err(ParseError::Error));
    assert_eq!(message(&[1, 0x0C, 0x20, 1, 1]), Err(ParseError::Incomplete(1)));
    assert_eq!(message(&[2, 64, 32, 9, 0, 5, 0, 4, 0, 1]), Err(ParseError::Incomplete(5)));
}

#[test]
fn command_packets_are_read() {
    assert_eq!(
        message(&[1, 0x0C, 0x20, 2, 1, 0]),
        Ok((&[][..], Message::LEScanEnableCommand { enable: true, filter_duplicates: false }))
    );
    assert_eq!(
        message(&[1, 0x03, 0x0C, 1, 7, 9]),
        Ok((&[9][..], Message::HCICommand { command: CommandType::Reset, data: vec![7] }))
    );
}

#[test]
fn acl_continuation_takes_the_rest() {
    assert_eq!(
        message(&[2, 0x40, 0x10, 1, 2, 3]),
        Ok((&[][..], Message::ACLDataContinuation { handle: 0x40, data: vec![1, 2, 3] }))
    );
}

#[test]
fn command_complete_events_are_read() {
    assert_eq!(
        message(&[4, 0x0e, 4, 1, 0x03, 0x0C, 0]),
        Ok((&[][..], Message::HCICommandComplete(CommandComplete::Reset)))
    );
    assert_eq!(
        message(&[4, 0x0e, 4, 1, 0x0C, 0x20, 1]),
        Ok((&[][..], Message::HCICommandComplete(CommandComplete::LESetScanEnabled { enabled: true })))
    );
    assert_eq!(
        message(&[4, 0x0e, 11, 1, 0x09, 0x10, 0, 1, 1, 2, 3, 4, 5, 6]),
        Ok((
            &[][..],
            Message::HCICommandComplete(CommandComplete::ReadBDAddr {
                address_type: AddressType::Public,
                address: BDAddr::from([1, 2, 3, 4, 5, 6]),
            })
        ))
    );
    assert_eq!(
        message(&[4, 0x0e, 7, 1, 0x05, 0x14, 0, 0x40, 0, 0xC8]),
        Ok((&[][..], Message::HCICommandComplete(CommandComplete::ReadRSSI { handle: 0x40, rssi: 0xC8 })))
    );
    assert_eq!(
        message(&[4, 0x0e, 6, 1, 0x01, 0x20, 0, 8, 9]),
        Ok((
            &[][..],
            Message::HCICommandComplete(CommandComplete::Other {
                command: CommandType::LESetEventMask,
                status: 0,
                data: vec![8, 9],
            })
        ))
    );
    assert_eq!(message(&[4, 0x0e, 4, 1, 0x09, 0x10, 0, 3]), Err(ParseError::Incomplete(1)));
}

#[test]
fn disconnect_and_connection_events_are_read() {
    assert_eq!(
        message(&[4, 0x05, 4, 0, 0x40, 0, 0x13]),
        Ok((
            &[][..],
            Message::DisconnectComplete {
                status: HCIStatus::Success,
                handle: 0x40,
                reason: HCIStatus::RemoteUserTerminatedConnection,
            }
        ))
    );
    assert_eq!(
        message(&[4, 0x3e, 10, 3, 0, 0x40, 0, 6, 0, 0, 0, 0x48, 0]),
        Ok((
            &[][..],
            Message::LEConnUpdate(LEConnUpdateInfo {
                status: HCIStatus::Success,
                handle: 0x40,
                interval: 6,
                latency: 0,
                supervision_timeout: 0x48,
            })
        ))
    );
    assert_eq!(
        message(&[4, 0x3e, 19, 1, 0, 0x40, 0, 1, 0, 1, 2, 3, 4, 5, 6, 6, 0, 0, 0, 0x48, 0, 1]),
        Ok((
            &[][..],
            Message::LEConnComplete(LEConnInfo {
                handle: 0x40,
                role: 1,
                bdaddr: BDAddr::from([1, 2, 3, 4, 5, 6]),
                bdaddr_type: 0,
                interval: 6,
                latency: 0,
                supervision_timeout: 0x48,
                master_clock_accuracy: 1,
            })
        ))
    );
}

#[test]
fn advertising_data_elements_by_type() {
    assert_eq!(le_advertising_data(&[2, 0x0A, 0xFC]), Ok((&[][..], vec![LEAdvertisingData::TxPowerLevel(-4)])));
    assert_eq!(
        le_advertising_data(&[4, 0xFF, 1, 2, 3, 9]),
        Ok((&[9][..], vec![LEAdvertisingData::ManufacturerSpecific(vec![1, 2, 3])]))
    );
    assert_eq!(
        le_advertising_data(&[5, 0x16, 0x0F, 0x18, 0x55, 0x66]),
        Ok((&[][..], vec![LEAdvertisingData::ServiceData16(0x180F, vec![0x55, 0x66])]))
    );
    assert_eq!(
        le_advertising_data(&[5, 0x1F, 1, 2, 3, 4]),
        Ok((&[][..], vec![LEAdvertisingData::SolicitationUUID32(0x04030201)]))
    );
    assert_eq!(le_advertising_data(&[3, 0x55, 1, 2, 7]), Ok((&[7][..], vec![])));
    assert_eq!(le_advertising_data(&[5, 0x12, 1, 0]), Err(ParseError::Incomplete(2)));
    assert_eq!(le_advertising_data(&[5, 0x09, 65]), Err(ParseError::Incomplete(4)));
    assert_eq!(le_advertising_data(&[1]), Err(ParseError::Incomplete(1)));
}

#[test]
fn advertising_report_stops_at_a_truncated_element() {
    let buf = [1, 0, 0, 1, 2, 3, 4, 5, 6, 7, 2, 0x0A, 3, 3, 0x12, 1, 0];
    assert_eq!(
        le_advertising_info(&buf),
        Ok((
            &[][..],
            LEAdvertisingInfo {
                evt_type: 0,
                bdaddr_type: 0,
                bdaddr: BDAddr::from([1, 2, 3, 4, 5, 6]),
                data: vec![LEAdvertisingData::TxPowerLevel(3)],
            }
        ))
    );
}
