use btleplug::api::DEFAULT_MTU_SIZE;
use btleplug::api::{CharPropFlags, PeripheralId, RetrievePeripheralsOptions, ScanFilter, WriteType};
use btleplug::bleuuid::Uuid;
use btleplug::api::CentralState;
use btleplug::corebluetooth::{
    cbuuid_to_uuid, characteristic_debug, descriptor_debug, get_central_state,
    get_characteristic_value, get_descriptor_value, nsuuid_to_uuid, peripheral_debug,
    effective_write_type, is_connected_state, scan_filter_to_service_uuids, service_debug, uuid_to_cbuuid, CBManagerState, DescriptorValue,
    maximum_write_value_length_to_att_mtu, on_discovered_peripheral, retrieval_queries,
    split_manufacturer_data, BluetoothDiscoverySession, CBManagerAuthorization, CBPeripheralState,
    DiscoveryNotice,
};

#[test]
fn maximum_write_value_length_is_converted_to_att_mtu() {
    assert_eq!(maximum_write_value_length_to_att_mtu(20), Ok(23));
    assert_eq!(maximum_write_value_length_to_att_mtu(512), Ok(515));
    assert_eq!(
        maximum_write_value_length_to_att_mtu(u16::MAX as usize - 3),
        Ok(u16::MAX)
    );
}

#[test]
fn zero_maximum_write_value_length_uses_default_mtu() {
    assert_eq!(
        maximum_write_value_length_to_att_mtu(0),
        Ok(DEFAULT_MTU_SIZE)
    );
}

#[test]
fn unrepresentable_maximum_write_value_length_is_rejected() {
    assert!(maximum_write_value_length_to_att_mtu(u16::MAX as usize).is_err());
    assert!(maximum_write_value_length_to_att_mtu(usize::MAX).is_err());
}

#[test]
fn unrepresentable_length_message_names_the_length() {
    assert_eq!(
        maximum_write_value_length_to_att_mtu(65533),
        Err("CoreBluetooth maximum write value length 65533 cannot be represented as a u16 ATT MTU".to_string())
    );
}

#[test]
fn manufacturer_data_is_split_after_the_company_id() {
    assert_eq!(split_manufacturer_data(&[0x4c]), None);
    assert_eq!(split_manufacturer_data(&[0x4c, 0x00]), Some((0x004c, vec![])));
    assert_eq!(split_manufacturer_data(&[0x4c, 0x01, 9, 8]), Some((0x014c, vec![9, 8])));
}

#[test]
fn discovery_session_operations_succeed() {
    let session = BluetoothDiscoverySession::create_session().unwrap();
    assert!(session.start_discovery().is_ok());
    assert!(session.stop_discovery().is_ok());
}

#[test]
fn framework_enum_numbers() {
    for v in 0..4i64 {
        assert_eq!(CBPeripheralState::from_i64(v).map(|s| s.num()), Some(v));
        assert_eq!(CBManagerAuthorization::from_i64(v).map(|a| a.num()), Some(v));
    }
    assert_eq!(CBPeripheralState::from_i64(4), None);
    assert_eq!(CBManagerAuthorization::from_i64(-1), None);
    assert_eq!(CBPeripheralState::from_i64(2), Some(CBPeripheralState::Connected));
    assert_eq!(CBManagerAuthorization::from_i64(3), Some(CBManagerAuthorization::AllowedAlways));
}

#[test]
fn discovered_peripheral_notices() {
    assert_eq!(
        on_discovered_peripheral(true, None, Some("short".to_string())),
        Some(DiscoveryNotice::DeviceDiscovered { local_name: Some("short".to_string()), advertisement_name: None })
    );
    assert_eq!(
        on_discovered_peripheral(false, Some("complete".to_string()), Some("short".to_string())),
        Some(DiscoveryNotice::DeviceUpdated {
            local_name: Some("complete".to_string()),
            advertisement_name: Some("complete".to_string())
        })
    );
    assert_eq!(on_discovered_peripheral(false, None, None), None);
}

#[test]
fn retrieval_needs_a_selector() {
    let none = RetrievePeripheralsOptions { identifiers: None, services: None };
    assert_eq!(
        retrieval_queries(&none),
        Err("retrieve_peripherals requires an identifier or service selector".to_string())
    );
    let ids = RetrievePeripheralsOptions { identifiers: Some(vec![PeripheralId(Uuid(1))]), services: Some(vec![]) };
    assert_eq!(retrieval_queries(&ids), Ok((false, true)));
    let services = RetrievePeripheralsOptions { identifiers: None, services: Some(vec![Uuid(2)]) };
    assert_eq!(retrieval_queries(&services), Ok((true, false)));
}

#[test]
fn central_states_from_the_framework() {
    for v in 0..6i64 {
        let s = CBManagerState::from_i64(v).unwrap();
        assert_eq!(s.num(), v);
    }
    assert_eq!(CBManagerState::from_i64(6), None);
    assert_eq!(CBManagerState::from_i64(-1), None);
    assert_eq!(get_central_state(CBManagerState::PoweredOn), CentralState::PoweredOn);
    assert_eq!(get_central_state(CBManagerState::PoweredOff), CentralState::PoweredOff);
    assert_eq!(get_central_state(CBManagerState::Resetting), CentralState::Unknown);
    assert_eq!(get_central_state(CBManagerState::Unauthorized), CentralState::Unknown);
}

#[test]
fn core_bluetooth_parse_uuid_short() {
    let uuid = cbuuid_to_uuid("1234").unwrap();
    assert_eq!(uuid, Uuid::from_u128(0x00001234_0000_1000_8000_00805f9b34fb));
}

#[test]
fn core_bluetooth_parse_uuid_long() {
    let uuid = cbuuid_to_uuid("12345678-0000-1111-2222-333344445555").unwrap();
    assert_eq!(uuid, Uuid::from_u128(0x12345678_0000_1111_2222_333344445555));
}

#[test]
fn utils_parse_uuid_short() {
    let uuid = cbuuid_to_uuid("1234").unwrap();
    assert_eq!(uuid, Uuid::from_u128(0x00001234_0000_1000_8000_00805f9b34fb));
}

#[test]
fn utils_parse_uuid_long() {
    let uuid = cbuuid_to_uuid("12345678-0000-1111-2222-333344445555").unwrap();
    assert_eq!(uuid, Uuid::from_u128(0x12345678_0000_1111_2222_333344445555));
}

#[test]
fn cbuuid_roundtrip() {
    for uuid in [
        Uuid::from_u128(0x00001234_0000_1000_8000_00805f9b34fb),
        Uuid::from_u128(0xabcd1234_0000_1000_8000_00805f9b34fb),
        Uuid::from_u128(0x12345678_0000_1111_2222_333344445555),
    ] {
        assert_eq!(cbuuid_to_uuid(&uuid.to_string()).unwrap(), uuid);
    }
}

#[test]
fn cbuuid_texts_are_completed_and_lowercased() {
    assert_eq!(
        cbuuid_to_uuid("ABCD1234").unwrap(),
        Uuid::from_u128(0xabcd1234_0000_1000_8000_00805f9b34fb)
    );
    assert_eq!(
        cbuuid_to_uuid("180F").unwrap(),
        Uuid::from_u128(0x0000180f_0000_1000_8000_00805f9b34fb)
    );
    assert_eq!(cbuuid_to_uuid("12"), None);
    assert_eq!(cbuuid_to_uuid("XYZW"), None);
    assert_eq!(
        nsuuid_to_uuid("68753A44-4D6F-1226-9C60-0050E4C00067").unwrap(),
        Uuid::from_u128(0x68753a44_4d6f_1226_9c60_0050e4c00067)
    );
    assert_eq!(nsuuid_to_uuid("1234"), None);
}

#[test]
fn descriptor_and_characteristic_values() {
    assert_eq!(get_descriptor_value(Some(DescriptorValue::Text("hé".to_string()))), vec![0x68, 0xc3, 0xa9]);
    assert_eq!(get_descriptor_value(Some(DescriptorValue::Number("42".to_string()))), b"42".to_vec());
    assert_eq!(get_descriptor_value(Some(DescriptorValue::Data(vec![1, 2]))), vec![1, 2]);
    assert_eq!(get_descriptor_value(Some(DescriptorValue::Unknown)), Vec::<u8>::new());
    assert_eq!(get_descriptor_value(None), Vec::<u8>::new());
    assert_eq!(get_characteristic_value(Some(vec![9])), vec![9]);
    assert_eq!(get_characteristic_value(None), Vec::<u8>::new());
}

#[test]
fn framework_objects_are_shown_with_their_uuid() {
    assert_eq!(peripheral_debug(Some("lamp"), "ABCD"), "CBPeripheral(lamp, ABCD)");
    assert_eq!(peripheral_debug(None, "ABCD"), "CBPeripheral(ABCD)");
    assert_eq!(service_debug("180F"), "CBService(180F)");
    assert_eq!(characteristic_debug("2A19"), "CBCharacteristic(2A19)");
    assert_eq!(descriptor_debug("2902"), "CBDescriptor(2902)");
}

#[test]
fn scan_filters_name_their_services() {
    assert_eq!(scan_filter_to_service_uuids(&ScanFilter { services: vec![] }), None);
    assert_eq!(
        scan_filter_to_service_uuids(&ScanFilter {
            services: vec![Uuid::from_u128(0x0000180f_0000_1000_8000_00805f9b34fb), Uuid::from_u128(1)]
        }),
        Some(vec![
            "0000180f-0000-1000-8000-00805f9b34fb".to_string(),
            "00000000-0000-0000-0000-000000000001".to_string()
        ])
    );
    assert_eq!(
        uuid_to_cbuuid(Uuid::from_u128(0x12345678_0000_1111_2222_333344445555)),
        "12345678-0000-1111-2222-333344445555"
    );
}

#[test]
fn writes_without_response_fall_back_when_not_allowed() {
    let read_write = CharPropFlags::from_bits_truncate(0x0a);
    let all = CharPropFlags::from_bits_truncate(0x0e);
    assert_eq!(effective_write_type(WriteType::WithoutResponse, read_write), WriteType::WithResponse);
    assert_eq!(effective_write_type(WriteType::WithoutResponse, all), WriteType::WithoutResponse);
    assert_eq!(effective_write_type(WriteType::WithResponse, all), WriteType::WithResponse);
    assert!(is_connected_state(CBPeripheralState::Connected));
    assert!(!is_connected_state(CBPeripheralState::Connecting));
    assert!(!is_connected_state(CBPeripheralState::Disonnected));
}
