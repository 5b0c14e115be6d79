use btleplug::api::{AddressType, CharPropFlags, Error, ParseCharPropFlagsError};
use btleplug::bleuuid::Uuid;
use btleplug::bdaddr::BDAddr;
use btleplug::bluez_peripheral::{
    build_characteristic_ranges, central_event, characteristic_info, parse_characteristic_flags,
    BluezCentralEvent, BluezDeviceEvent, update_properties, Attribute, AttributeType, ChangedProperties,
    ConnectionState, DeviceEvent, DeviceProperties, PeripheralUpdate,
};
use btleplug::device::{Characteristic, CharacteristicUUID};
use std::collections::HashMap;

fn addr() -> BDAddr {
    BDAddr::from([1, 2, 3, 4, 5, 6])
}

fn props() -> DeviceProperties {
    DeviceProperties {
        address: addr(),
        address_type: AddressType::Public,
        local_name: None,
        tx_power_level: None,
        manufacturer_data: HashMap::new(),
        discovery_count: 0,
    }
}

fn nothing() -> ChangedProperties {
    ChangedProperties {
        connected: None,
        name: None,
        services_resolved: None,
        manufacturer_data: None,
        address_type: None,
        rssi: None,
    }
}

#[test]
fn connection_is_announced_once_and_disconnection_after_it() {
    let mut p = props();
    let mut s = ConnectionState::NotConnected;
    let up = update_properties(&mut p, &mut s, ChangedProperties { connected: Some(true), ..nothing() });
    assert_eq!(
        up,
        vec![
            PeripheralUpdate::Emit(DeviceEvent::DeviceConnected(addr())),
            PeripheralUpdate::NotifyWaiters,
            PeripheralUpdate::Emit(DeviceEvent::DeviceUpdated(addr())),
        ]
    );
    assert_eq!(s, ConnectionState::Connected);
    let up = update_properties(&mut p, &mut s, ChangedProperties { connected: Some(true), ..nothing() });
    assert_eq!(
        up,
        vec![PeripheralUpdate::NotifyWaiters, PeripheralUpdate::Emit(DeviceEvent::DeviceUpdated(addr()))]
    );
    let up = update_properties(
        &mut p,
        &mut s,
        ChangedProperties { services_resolved: Some(true), ..nothing() },
    );
    assert_eq!(
        up,
        vec![
            PeripheralUpdate::BuildCharacteristicRanges,
            PeripheralUpdate::NotifyWaiters,
            PeripheralUpdate::Emit(DeviceEvent::DeviceUpdated(addr())),
        ]
    );
    assert_eq!(s, ConnectionState::ServicesResolved);
    let up = update_properties(&mut p, &mut s, ChangedProperties { connected: Some(false), ..nothing() });
    assert_eq!(up[0], PeripheralUpdate::Emit(DeviceEvent::DeviceDisconnected(addr())));
    assert_eq!(s, ConnectionState::NotConnected);
    let up = update_properties(&mut p, &mut s, ChangedProperties { connected: Some(false), ..nothing() });
    assert_eq!(
        up,
        vec![PeripheralUpdate::NotifyWaiters, PeripheralUpdate::Emit(DeviceEvent::DeviceUpdated(addr()))]
    );
    assert_eq!(p.discovery_count, 5);
}

#[test]
fn changed_properties_are_recorded() {
    let mut p = props();
    let mut s = ConnectionState::NotConnected;
    update_properties(
        &mut p,
        &mut s,
        ChangedProperties {
            name: Some("lamp".to_string()),
            manufacturer_data: Some(vec![(0x4c, Some(vec![1, 2])), (0x06, None), (0x4c, Some(vec![3]))]),
            address_type: Some("random".to_string()),
            rssi: Some(-70),
            ..nothing()
        },
    );
    assert_eq!(p.local_name, Some("lamp".to_string()));
    let mut expected = HashMap::new();
    expected.insert(0x4c, vec![3]);
    assert_eq!(p.manufacturer_data, expected);
    assert_eq!(p.address_type, AddressType::Random);
    assert_eq!(p.tx_power_level, Some(-70));
    assert_eq!(p.discovery_count, 1);
    update_properties(
        &mut p,
        &mut s,
        ChangedProperties { address_type: Some("bogus".to_string()), rssi: Some(300), ..nothing() },
    );
    assert_eq!(p.address_type, AddressType::Public);
    assert_eq!(p.tx_power_level, Some(300i16 as i8));
    assert_eq!(p.local_name, Some("lamp".to_string()));
}

fn attr(typ: AttributeType, handle: u16, uuid: u16) -> Attribute {
    Attribute {
        typ,
        handle,
        uuid: CharacteristicUUID::B16(uuid),
        properties: CharPropFlags::from_bits_truncate(0x02),
    }
}

fn ch(start: u16, end: u16, uuid: u16) -> Characteristic {
    Characteristic {
        start_handle: start,
        end_handle: end,
        value_handle: start,
        uuid: CharacteristicUUID::B16(uuid),
        properties: CharPropFlags::from_bits_truncate(0x02),
    }
}

#[test]
fn characteristic_ranges_reach_the_next_of_their_kind() {
    let attrs = vec![
        attr(AttributeType::Service, 0x10, 0x1800),
        attr(AttributeType::Characteristic, 0x11, 0x2a00),
        attr(AttributeType::Descriptor, 0x13, 0x2902),
        attr(AttributeType::Characteristic, 0x14, 0x2a01),
        attr(AttributeType::Service, 0x20, 0x180f),
        attr(AttributeType::Characteristic, 0x21, 0x2a19),
    ];
    assert_eq!(
        build_characteristic_ranges(&attrs),
        vec![
            ch(0x10, 0x1f, 0x1800),
            ch(0x20, 0xffff, 0x180f),
            ch(0x11, 0x13, 0x2a00),
            ch(0x14, 0x20, 0x2a01),
            ch(0x21, 0xffff, 0x2a19),
        ]
    );
    assert_eq!(build_characteristic_ranges(&vec![]), vec![]);
}

#[test]
fn flag_names_are_combined_or_the_last_unknown_is_reported() {
    let names = |v: &[&str]| v.iter().map(|s| s.to_string()).collect::<Vec<_>>();
    assert_eq!(
        parse_characteristic_flags(&names(&["read", "notify", "authorize"])).map(|f| f.bits()),
        Ok(0x12)
    );
    assert_eq!(parse_characteristic_flags(&names(&[])).map(|f| f.bits()), Ok(0));
    assert_eq!(
        parse_characteristic_flags(&names(&["read", "bogus"])).map(|f| f.bits()),
        Err(ParseCharPropFlagsError::UnknownFlag("bogus".to_string()))
    );
    assert_eq!(
        parse_characteristic_flags(&names(&["bogus", "other"])).map(|f| f.bits()),
        Err(ParseCharPropFlagsError::UnknownFlag("other".to_string()))
    );
}

#[test]
fn characteristic_info_is_found_by_service_then_characteristic() {
    let u = Uuid::from_u128;
    let services = vec![
        (u(0x180f), vec![(u(0x2a19), "battery level"), (u(0x2a1a), "other")]),
        (u(0x1800), vec![(u(0x2a00), "device name")]),
    ];
    assert_eq!(characteristic_info(&services, u(0x1800), u(0x2a00)), Ok(&"device name"));
    assert_eq!(characteristic_info(&services, u(0x180f), u(0x2a1a)), Ok(&"other"));
    assert_eq!(
        characteristic_info(&services, u(0x1801), u(0x2a00)),
        Err(Error::Other("Service with UUID 00000000-0000-0000-0000-000000001801 not found.".to_string()))
    );
    assert_eq!(
        characteristic_info(&services, u(0x180f), u(0x2a00)),
        Err(Error::Other(
            "Characteristic with UUID 00000000-0000-0000-0000-000000002a00 not found.".to_string()
        ))
    );
}

#[test]
fn device_events_are_told_with_the_device_address() {
    let a = addr();
    assert_eq!(central_event(BluezDeviceEvent::Discovered, Some(a)), Some(BluezCentralEvent::DeviceDiscovered(a)));
    assert_eq!(
        central_event(BluezDeviceEvent::Connected { connected: true }, Some(a)),
        Some(BluezCentralEvent::DeviceConnected(a))
    );
    assert_eq!(
        central_event(BluezDeviceEvent::Connected { connected: false }, Some(a)),
        Some(BluezCentralEvent::DeviceDisconnected(a))
    );
    assert_eq!(central_event(BluezDeviceEvent::Rssi { rssi: -40 }, Some(a)), Some(BluezCentralEvent::DeviceUpdated(a)));
    let mut md = HashMap::new();
    md.insert(0x4cu16, vec![1u8]);
    assert_eq!(
        central_event(BluezDeviceEvent::ManufacturerData { manufacturer_data: md.clone() }, Some(a)),
        Some(BluezCentralEvent::ManufacturerDataAdvertisement { address: a, manufacturer_data: md })
    );
    let u = Uuid::from_u128(0x180f);
    assert_eq!(
        central_event(BluezDeviceEvent::Services { services: vec![u] }, Some(a)),
        Some(BluezCentralEvent::ServicesAdvertisement { address: a, services: vec![u] })
    );
    assert_eq!(
        central_event(BluezDeviceEvent::ServiceData { service_data: vec![(u, vec![2])] }, Some(a)),
        Some(BluezCentralEvent::ServiceDataAdvertisement { address: a, service_data: vec![(u, vec![2])] })
    );
    assert_eq!(central_event(BluezDeviceEvent::Other, Some(a)), None);
    assert_eq!(central_event(BluezDeviceEvent::Discovered, None), None);
}
