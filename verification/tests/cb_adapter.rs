use btleplug::api::{
    CentralEvent, CentralState, Error, PeripheralId, PeripheralProperties, RetrievePeripheralsOptions,
};
use btleplug::bleuuid::Uuid;
use btleplug::cb_adapter::{
    collect_retrieved, on_peripheral_event, retrieve_without_thread, AdapterAction, AdapterRegistry, CBPeripheralEvent,
    CoreBluetoothEvent, PeripheralReaction, RetrievedPeripheral,
};
use btleplug::corebluetooth::CBManagerState;
use std::collections::HashMap;

fn u(v: u128) -> Uuid {
    Uuid::from_u128(v)
}

fn discovered(v: u128, name: &str) -> CoreBluetoothEvent {
    CoreBluetoothEvent::DeviceDiscovered {
        uuid: u(v),
        local_name: Some(name.to_string()),
        advertisement_name: None,
    }
}

#[test]
fn a_discovered_peripheral_is_announced_once() {
    let mut reg = AdapterRegistry::new();
    let first = reg.on_event(discovered(1, "a"));
    assert_eq!(
        first,
        vec![
            AdapterAction::CreatePeripheral {
                uuid: u(1),
                local_name: Some("a".to_string()),
                advertisement_name: None
            },
            AdapterAction::RegisterHandle { uuid: u(1) },
            AdapterAction::Emit(CentralEvent::DeviceDiscovered(PeripheralId(u(1)))),
        ]
    );
    assert!(reg.has_handle(u(1)));
    assert!(reg.is_registered(u(1)));
    assert_eq!(reg.on_event(discovered(1, "b")), vec![]);
}

#[test]
fn updates_reach_registered_peripherals_only() {
    let mut reg = AdapterRegistry::new();
    let update = CoreBluetoothEvent::DeviceUpdated {
        uuid: u(2),
        local_name: None,
        advertisement_name: Some("adv".to_string()),
    };
    assert_eq!(reg.on_event(update.clone()), vec![]);
    reg.on_event(discovered(2, "x"));
    assert_eq!(
        reg.on_event(update),
        vec![
            AdapterAction::RenameRegistered {
                uuid: u(2),
                local_name: None,
                advertisement_name: Some("adv".to_string())
            },
            AdapterAction::Emit(CentralEvent::DeviceUpdated(PeripheralId(u(2)))),
        ]
    );
}

#[test]
fn disconnection_forgets_and_rediscovery_announces_again() {
    let mut reg = AdapterRegistry::new();
    reg.on_event(discovered(3, "x"));
    let acts = reg.on_event(CoreBluetoothEvent::DeviceDisconnected { uuid: u(3) });
    assert_eq!(
        acts,
        vec![
            AdapterAction::DropHandle { uuid: u(3) },
            AdapterAction::Emit(CentralEvent::DeviceDisconnected(PeripheralId(u(3)))),
        ]
    );
    assert!(!reg.has_handle(u(3)));
    assert!(!reg.is_registered(u(3)));
    assert_eq!(reg.on_event(discovered(3, "x")).len(), 3);
}

#[test]
fn clearing_answers_and_forgets_everything() {
    let mut reg = AdapterRegistry::new();
    reg.on_event(discovered(4, "x"));
    reg.on_event(discovered(5, "y"));
    assert_eq!(
        reg.on_event(CoreBluetoothEvent::PeripheralsCleared),
        vec![AdapterAction::ClearAll, AdapterAction::ReplyOk]
    );
    assert!(!reg.is_registered(u(4)) && !reg.has_handle(u(5)));
    assert_eq!(reg.on_event(discovered(4, "x")).len(), 3);
}

#[test]
fn state_updates_are_told() {
    let mut reg = AdapterRegistry::new();
    assert_eq!(
        reg.on_event(CoreBluetoothEvent::DidUpdateState { state: CBManagerState::PoweredOff }),
        vec![AdapterAction::Emit(CentralEvent::StateUpdate(CentralState::PoweredOff))]
    );
}

fn retrieved(v: u128, receiver: bool) -> RetrievedPeripheral {
    RetrievedPeripheral {
        uuid: u(v),
        local_name: None,
        advertisement_name: None,
        has_event_receiver: receiver,
    }
}

#[test]
fn retrieval_renames_creates_and_skips() {
    let mut reg = AdapterRegistry::new();
    reg.on_event(discovered(1, "known"));
    reg.on_event(CoreBluetoothEvent::DeviceDisconnected { uuid: u(1) });
    reg.on_event(discovered(2, "handle"));
    let acts = reg.on_event(CoreBluetoothEvent::RetrievedPeripherals {
        peripherals: vec![retrieved(2, false), retrieved(7, true), retrieved(9, false)],
    });
    assert_eq!(
        acts,
        vec![
            AdapterAction::RenameHandle { uuid: u(2), local_name: None, advertisement_name: None },
            AdapterAction::CreatePeripheral { uuid: u(7), local_name: None, advertisement_name: None },
            AdapterAction::RegisterHandle { uuid: u(7) },
            AdapterAction::Emit(CentralEvent::DeviceDiscovered(PeripheralId(u(7)))),
            AdapterAction::ReplyPeripherals(vec![u(2), u(7)]),
        ]
    );
    assert!(reg.has_handle(u(7)) && reg.is_registered(u(7)));
    assert!(!reg.has_handle(u(9)));
}

#[test]
fn retrieval_reports_each_peripheral_once() {
    let found = vec![
        (u(5), Some("five".to_string())),
        (u(6), None),
        (u(5), Some("again".to_string())),
    ];
    let rs = collect_retrieved(found, &[u(6)]);
    assert_eq!(
        rs,
        vec![
            RetrievedPeripheral {
                uuid: u(5),
                local_name: Some("five".to_string()),
                advertisement_name: None,
                has_event_receiver: true
            },
            RetrievedPeripheral {
                uuid: u(6),
                local_name: None,
                advertisement_name: None,
                has_event_receiver: false
            },
        ]
    );
}

#[test]
fn advertisements_update_the_properties() {
    let mut p = PeripheralProperties::default();
    let id = u(8);
    let r = on_peripheral_event(&mut p, id, CBPeripheralEvent::ManufacturerData(0x4c, vec![1, 2], -40));
    let mut expected = HashMap::new();
    expected.insert(0x4c, vec![1, 2]);
    assert_eq!(
        r,
        PeripheralReaction::Emit(CentralEvent::ManufacturerDataAdvertisement {
            id: PeripheralId(id),
            manufacturer_data: expected.clone()
        })
    );
    assert_eq!(p.rssi, Some(-40));
    on_peripheral_event(&mut p, id, CBPeripheralEvent::ManufacturerData(0x4c, vec![3], -41));
    on_peripheral_event(&mut p, id, CBPeripheralEvent::ManufacturerData(0x06, vec![], -42));
    expected.insert(0x4c, vec![3]);
    expected.insert(0x06, vec![]);
    assert_eq!(p.manufacturer_data, expected);
    assert_eq!(p.rssi, Some(-42));

    let r = on_peripheral_event(
        &mut p,
        id,
        CBPeripheralEvent::ServiceData(vec![(u(0x180f), vec![99]), (u(0x1810), vec![1])], -50),
    );
    assert_eq!(
        r,
        PeripheralReaction::Emit(CentralEvent::ServiceDataAdvertisement {
            id: PeripheralId(id),
            service_data: vec![(u(0x180f), vec![99]), (u(0x1810), vec![1])]
        })
    );
    on_peripheral_event(&mut p, id, CBPeripheralEvent::ServiceData(vec![(u(0x180f), vec![50])], -51));
    let mut sd = p.service_data.clone();
    sd.sort();
    assert_eq!(sd, vec![(u(0x180f), vec![50]), (u(0x1810), vec![1])]);

    let r = on_peripheral_event(&mut p, id, CBPeripheralEvent::Services(vec![u(1), u(2)], -60));
    assert_eq!(
        r,
        PeripheralReaction::Emit(CentralEvent::ServicesAdvertisement {
            id: PeripheralId(id),
            services: vec![u(1), u(2)]
        })
    );
    assert_eq!(p.services, vec![u(1), u(2)]);
    assert_eq!(p.rssi, Some(-60));
    assert_eq!(
        on_peripheral_event(&mut p, id, CBPeripheralEvent::Disconnected),
        PeripheralReaction::Nothing
    );
}

#[test]
fn notifications_go_to_subscribers() {
    let mut p = PeripheralProperties::default();
    let r = on_peripheral_event(&mut p, u(1), CBPeripheralEvent::Notification(u(2), u(3), vec![7]));
    match r {
        PeripheralReaction::Notify(n) => {
            assert_eq!(n.uuid, u(2));
            assert_eq!(n.service_uuid, u(3));
            assert_eq!(n.value, vec![7]);
        }
        _ => panic!("expected a notification"),
    }
    assert_eq!(p.rssi, None);
}

#[test]
fn retrievals_answered_without_the_thread() {
    let opts = |ids: Option<Vec<PeripheralId>>, sv: Option<Vec<Uuid>>| RetrievePeripheralsOptions {
        identifiers: ids,
        services: sv,
    };
    assert_eq!(
        retrieve_without_thread::<u8>(&opts(None, None)),
        Some(Err(Error::NotSupported("retrieve_peripherals".to_string())))
    );
    assert_eq!(retrieve_without_thread::<u8>(&opts(Some(vec![]), None)), Some(Ok(vec![])));
    assert_eq!(retrieve_without_thread::<u8>(&opts(Some(vec![]), Some(vec![]))), Some(Ok(vec![])));
    assert_eq!(retrieve_without_thread::<u8>(&opts(None, Some(vec![]))), None);
    assert_eq!(retrieve_without_thread::<u8>(&opts(Some(vec![]), Some(vec![u(1)]))), None);
    assert_eq!(retrieve_without_thread::<u8>(&opts(Some(vec![PeripheralId(u(1))]), None)), None);
}
