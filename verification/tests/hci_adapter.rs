use btleplug::api::{CharPropFlags, READ};
use btleplug::bdaddr::BDAddr;
use btleplug::device::{characteristic_key, Characteristic, CharacteristicUUID};
use btleplug::hci::LEAdvertisingData;
use btleplug::hci_adapter::{
    att_payload, discover_chars_request, get_uuid_by_handle, hci_set_bit, is_answer, is_write_response, reassemble,
    scan_enable, scan_parameters, socket_filter, unasked_data_reply, write_command, write_request,
    Adapter, AdapterState, AdapterType, AddressType, DiscoveredDevices, HCIDevInfo, HCIDevStats,
    HCIFilter,
};
use btleplug::hci_codes::{CommandType, HCIStatus};
use btleplug::hci_packet::{ACLData, LEAdvertisingInfo, Message};

#[test]
fn address_and_adapter_types() {
    assert_eq!(AddressType::from_u8(0), Some(AddressType::Public));
    assert_eq!(AddressType::from_u8(1), Some(AddressType::Random));
    assert_eq!(AddressType::from_u8(2), None);
    assert_eq!(AddressType::Random.num(), 1);
    assert_eq!(AddressType::default(), AddressType::Public);
    assert_eq!(AdapterType::parse(0), AdapterType::BrEdr);
    assert_eq!(AdapterType::parse(1), AdapterType::Amp);
    assert_eq!(AdapterType::parse(7), AdapterType::Unknown(7));
    assert_eq!(AdapterType::Unknown(7).num(), 7);
}

#[test]
fn adapter_states_follow_flag_bits() {
    assert_eq!(AdapterState::parse(0), vec![]);
    assert_eq!(AdapterState::parse(0b1_0000_0101), vec![AdapterState::Up, AdapterState::Running, AdapterState::Encrypt]);
    assert_eq!(AdapterState::parse(0xFFFF_FE00), vec![]);
}

#[test]
fn adapter_from_device_info() {
    let mut di = HCIDevInfo::default();
    assert_eq!(di.stat, HCIDevStats::default());
    di.name = [b'h' as i8, b'c' as i8, b'i' as i8, b'0' as i8, 0, 0, 0, 0];
    di.type_ = 0x10;
    di.flags = 1;
    di.bdaddr = BDAddr::from([1, 2, 3, 4, 5, 6]);
    di.dev_id = 3;
    let a = Adapter::from_device_info(&di);
    assert_eq!(a.name, "hci0");
    assert_eq!(a.dev_id, 0);
    assert_eq!(a.addr, di.bdaddr);
    assert_eq!(a.typ, AdapterType::Amp);
    assert!(a.is_up());
    di.flags = 2;
    assert!(!Adapter::from_device_info(&di).is_up());
}

#[test]
fn hci_filter_bits() {
    assert_eq!(hci_set_bit(33, 0), 2);
    assert_eq!(hci_set_bit(31, 0), i32::MIN);
    let mut f = HCIFilter::default();
    f.set_ptype(4);
    f.set_ptype(1);
    assert_eq!(f.type_mask, 0x12);
    f.set_event(0x3E);
    f.set_event(5);
    assert_eq!(f.event_mask, [0x20, 0x4000_0000]);
    assert_eq!(f.opcode, 0);
}

#[test]
fn socket_filter_and_scan_commands() {
    assert_eq!(
        socket_filter(),
        vec![0x16, 0, 0, 0, 0x20, 0xC1, 0, 0, 0, 0, 0, 0x40, 0, 0, 0, 0]
    );
    assert_eq!(scan_parameters(), vec![1, 0x10, 0, 0x10, 0, 0, 0]);
    assert_eq!(scan_enable(true), vec![1, 1]);
    assert_eq!(scan_enable(false), vec![0, 1]);
}

fn report(evt_type: u8, bdaddr_type: u8, data: Vec<LEAdvertisingData>) -> Message {
    Message::LEAdvertisingReport(LEAdvertisingInfo {
        evt_type,
        bdaddr_type,
        bdaddr: BDAddr::from([1, 2, 3, 4, 5, 6]),
        data,
    })
}

#[test]
fn advertising_reports_fill_the_registry() {
    let mut reg = DiscoveredDevices::new();
    assert!(reg.handle(report(0, 1, vec![LEAdvertisingData::LocalName("a".to_string())])).is_none());
    assert!(reg
        .handle(report(
            4,
            0,
            vec![
                LEAdvertisingData::TxPowerLevel(-3),
                LEAdvertisingData::ManufacturerSpecific(vec![9]),
                LEAdvertisingData::LocalName("b".to_string()),
            ]
        ))
        .is_none());
    let devices = reg.discovered();
    assert_eq!(devices.len(), 1);
    let d = reg.device(BDAddr::from([1, 2, 3, 4, 5, 6])).unwrap();
    assert_eq!(d.address_type, AddressType::Random);
    assert_eq!(d.local_name, Some("b".to_string()));
    assert_eq!(d.tx_power_level, Some(-3));
    assert_eq!(d.manufacturer_data, Some(vec![9]));
    assert!(reg.device(BDAddr::from([0; 6])).is_none());
    let other = Message::CommandStatus { command: CommandType::Reset, status: HCIStatus::Success };
    assert!(reg.handle(other).is_none());
}

#[test]
fn found_characteristics_continue_discovery() {
    let mut reg = DiscoveredDevices::new();
    let addr = BDAddr::from([1, 2, 3, 4, 5, 6]);
    reg.handle(report(0, 0, vec![]));
    let c = |start: u16| Characteristic {
        start_handle: start,
        end_handle: 0xFFFF,
        value_handle: start + 1,
        uuid: CharacteristicUUID::B16(0x2A00),
        properties: CharPropFlags::from_bits_truncate(READ),
    };
    assert_eq!(reg.characteristics_found(addr, vec![c(2), c(4)], 0xFFFF), Some(5));
    assert_eq!(reg.characteristics_found(addr, vec![c(8)], 9), None);
    assert_eq!(reg.characteristics_found(addr, vec![], 0xFFFF), None);
    assert_eq!(reg.characteristics_found(BDAddr::from([0; 6]), vec![c(2)], 0xFFFF), None);
    assert_eq!(reg.device(addr).unwrap().characteristics.len(), 3);
    assert_eq!(discover_chars_request(1, 0xFFFF), vec![0x08, 1, 0, 0xFF, 0xFF, 0x03, 0x28]);
}

#[test]
fn packets_are_reassembled_from_reads() {
    let mut cur = Vec::new();
    assert!(reassemble(&mut cur, &[4, 15, 4]).is_none());
    assert_eq!(cur, vec![4, 15, 4]);
    let m = reassemble(&mut cur, &[0, 1, 22, 32, 4]).unwrap();
    assert_eq!(m, Message::CommandStatus { command: CommandType::LEReadRemoteUsedFeatures, status: HCIStatus::Success });
    assert_eq!(cur, vec![4]);
    assert!(reassemble(&mut cur, &[0x77]).is_none());
    assert!(cur.is_empty());
}

#[test]
fn att_bytes_on_a_data_stream() {
    assert_eq!(write_command(0x0025, &[1, 2]), vec![0x52, 0x25, 0x00, 1, 2]);
    assert_eq!(write_request(0x0102, &[]), vec![0x12, 0x02, 0x01]);
    assert_eq!(att_payload(ACLData { handle: 1, cid: 4, data: vec![7], len: 1 }), Some(vec![7]));
    assert_eq!(att_payload(ACLData { handle: 1, cid: 5, data: vec![7], len: 1 }), None);
    assert!(is_answer(&[0x13], &[0x52, 1, 0]));
    assert!(!is_answer(&[1, 2], &[1, 2]));
    assert!(is_write_response(&[0x13]));
    assert!(!is_write_response(&[0x13, 0]));
    assert_eq!(unasked_data_reply(&[0x02, 0x17, 0x00]), Some(vec![0x01, 0x02, 0x00, 0x00, 0x06]));
    assert_eq!(unasked_data_reply(&[0x02, 0x17]), None);
}

#[test]
fn uuids_are_found_by_value_handle() {
    let c = |value_handle: u16, uuid: u16| Characteristic {
        start_handle: value_handle - 1,
        end_handle: value_handle + 1,
        value_handle,
        uuid: CharacteristicUUID::B16(uuid),
        properties: CharPropFlags::from_bits_truncate(READ),
    };
    let chars = vec![c(0x03, 0x2a00), c(0x05, 0x2a01), c(0x05, 0x2a02)];
    assert_eq!(get_uuid_by_handle(&chars, 0x05), Some(CharacteristicUUID::B16(0x2a01)));
    assert_eq!(get_uuid_by_handle(&chars, 0x03), Some(CharacteristicUUID::B16(0x2a00)));
    assert_eq!(get_uuid_by_handle(&chars, 0x04), None);
    assert_eq!(get_uuid_by_handle(&[], 0x04), None);
}

#[test]
fn a_characteristic_found_twice_is_kept_once() {
    let mut reg = DiscoveredDevices::new();
    let addr = BDAddr::from([1, 2, 3, 4, 5, 6]);
    reg.handle(report(0, 0, vec![]));
    let c = Characteristic {
        start_handle: 2,
        end_handle: 0xFFFF,
        value_handle: 3,
        uuid: CharacteristicUUID::B16(0x2A00),
        properties: CharPropFlags::from_bits_truncate(READ),
    };
    reg.characteristics_found(addr, vec![c.clone(), c.clone()], 0xFFFF);
    reg.characteristics_found(addr, vec![c.clone()], 0xFFFF);
    let d = reg.device(addr).unwrap();
    assert_eq!(d.characteristics.len(), 1);
    assert!(d.characteristics.contains(&c));
}

#[test]
fn characteristic_keys_hold_handles_uuid_and_properties() {
    let short = Characteristic {
        start_handle: 1,
        end_handle: 2,
        value_handle: 3,
        uuid: CharacteristicUUID::B16(0x2A00),
        properties: CharPropFlags::from_bits_truncate(READ),
    };
    assert_eq!(characteristic_key(&short), (1, 2, 3, 0, 0x2A00, (0, 0, 0, 0, 0, 0, 0, 0), (0, 0, 0, 0, 0, 0, 0, 0), READ));
    let mut bytes = [0u8; 16];
    for (i, b) in bytes.iter_mut().enumerate() {
        *b = i as u8 + 1;
    }
    let long = Characteristic { uuid: CharacteristicUUID::B128(bytes), ..short.clone() };
    assert_eq!(characteristic_key(&long), (1, 2, 3, 1, 0, (1, 2, 3, 4, 5, 6, 7, 8), (9, 10, 11, 12, 13, 14, 15, 16), READ));
    assert!(characteristic_key(&short) < characteristic_key(&long));
    assert!(short < long);
}
