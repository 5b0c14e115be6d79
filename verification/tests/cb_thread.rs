use btleplug::bleuuid::Uuid;
use btleplug::cb_adapter::{CoreBluetoothEvent, RetrievedPeripheral};
use btleplug::cb_peripheral::{CoreBluetoothReply, PeripheralAction};
use btleplug::cb_thread::{PeripheralTable, ThreadAction};
use btleplug::corebluetooth::CBManagerState;

fn u(v: u128) -> Uuid {
    Uuid::from_u128(v)
}

fn table_with(ids: &[u128]) -> PeripheralTable {
    let mut t = PeripheralTable::new();
    for id in ids {
        t.on_discovered_peripheral(u(*id), None, None);
    }
    t
}

fn disconnected(ticket: u64) -> PeripheralAction {
    PeripheralAction::Reply(ticket, CoreBluetoothReply::Failure("Device disconnected".to_string()))
}

#[test]
fn a_new_peripheral_is_discovered_and_becomes_known() {
    let mut t = PeripheralTable::new();
    let e = t.on_discovered_peripheral(u(1), Some("adv".to_string()), Some("gap".to_string()));
    assert_eq!(
        e,
        Some(CoreBluetoothEvent::DeviceDiscovered {
            uuid: u(1),
            local_name: Some("adv".to_string()),
            advertisement_name: Some("adv".to_string()),
        })
    );
    assert!(t.contains(u(1)));
    assert_eq!(t.known_ids(), vec![u(1)]);
}

#[test]
fn a_known_peripheral_is_updated_only_when_a_name_is_known() {
    let mut t = table_with(&[1]);
    assert_eq!(t.on_discovered_peripheral(u(1), None, None), None);
    assert_eq!(
        t.on_discovered_peripheral(u(1), None, Some("gap".to_string())),
        Some(CoreBluetoothEvent::DeviceUpdated {
            uuid: u(1),
            local_name: Some("gap".to_string()),
            advertisement_name: None,
        })
    );
    assert_eq!(t.known_ids(), vec![u(1)]);
}

#[test]
fn retrieval_registers_new_peripherals_and_keeps_known_ones() {
    let mut t = table_with(&[1]);
    let e = t.retrieve(vec![
        (u(2), Some("b".to_string())),
        (u(1), None),
        (u(2), Some("c".to_string())),
        (u(3), None),
    ]);
    assert_eq!(
        e,
        CoreBluetoothEvent::RetrievedPeripherals {
            peripherals: vec![
                RetrievedPeripheral {
                    uuid: u(2),
                    local_name: Some("b".to_string()),
                    advertisement_name: None,
                    has_event_receiver: true,
                },
                RetrievedPeripheral { uuid: u(1), local_name: None, advertisement_name: None, has_event_receiver: false },
                RetrievedPeripheral { uuid: u(3), local_name: None, advertisement_name: None, has_event_receiver: true },
            ],
        }
    );
    assert_eq!(t.known_ids(), vec![u(1), u(2), u(3)]);
}

#[test]
fn retrieval_keeps_the_state_of_a_known_peripheral() {
    let mut t = table_with(&[1]);
    let i = t.find(u(1)).unwrap();
    let mut p = t.take_state(i);
    assert_eq!(p.connect(7), vec![PeripheralAction::Connect]);
    t.put_state(i, p);
    t.retrieve(vec![(u(1), None)]);
    let actions = t.on_peripheral_disconnect(u(1));
    assert_eq!(
        actions,
        vec![
            ThreadAction::NotifyDisconnected(u(1)),
            ThreadAction::Peripheral(u(1), disconnected(7)),
            ThreadAction::Dispatch(CoreBluetoothEvent::DeviceDisconnected { uuid: u(1) }),
        ]
    );
}

#[test]
fn clearing_forgets_every_peripheral() {
    let mut t = table_with(&[1, 2]);
    assert_eq!(t.clear(), CoreBluetoothEvent::PeripheralsCleared);
    assert_eq!(t.known_ids(), Vec::<Uuid>::new());
    assert!(!t.contains(u(1)));
}

#[test]
fn a_disconnection_answers_waiting_operations_and_forgets_the_peripheral() {
    let mut t = table_with(&[1, 2]);
    let i = t.find(u(2)).unwrap();
    let mut p = t.take_state(i);
    p.connect(5);
    p.read_rssi(6);
    t.put_state(i, p);
    let actions = t.on_peripheral_disconnect(u(2));
    assert_eq!(
        actions,
        vec![
            ThreadAction::NotifyDisconnected(u(2)),
            ThreadAction::Peripheral(u(2), disconnected(5)),
            ThreadAction::Peripheral(u(2), disconnected(6)),
            ThreadAction::Dispatch(CoreBluetoothEvent::DeviceDisconnected { uuid: u(2) }),
        ]
    );
    assert_eq!(t.known_ids(), vec![u(1)]);
}

#[test]
fn a_disconnection_of_an_unknown_peripheral_does_nothing() {
    let mut t = table_with(&[1]);
    assert_eq!(t.on_peripheral_disconnect(u(9)), Vec::<ThreadAction>::new());
    assert_eq!(t.known_ids(), vec![u(1)]);
}

#[test]
fn powering_off_disconnects_every_peripheral_before_reporting_the_state() {
    let mut t = table_with(&[1, 2]);
    let i = t.find(u(1)).unwrap();
    let mut p = t.take_state(i);
    p.connect(3);
    t.put_state(i, p);
    let actions = t.on_state_update(CBManagerState::PoweredOff);
    assert_eq!(
        actions,
        vec![
            ThreadAction::NotifyDisconnected(u(1)),
            ThreadAction::Peripheral(u(1), disconnected(3)),
            ThreadAction::Dispatch(CoreBluetoothEvent::DeviceDisconnected { uuid: u(1) }),
            ThreadAction::NotifyDisconnected(u(2)),
            ThreadAction::Dispatch(CoreBluetoothEvent::DeviceDisconnected { uuid: u(2) }),
            ThreadAction::Dispatch(CoreBluetoothEvent::DidUpdateState { state: CBManagerState::PoweredOff }),
        ]
    );
    assert_eq!(t.known_ids(), Vec::<Uuid>::new());
}

#[test]
fn another_state_is_reported_and_keeps_the_peripherals() {
    let mut t = table_with(&[1]);
    assert_eq!(
        t.on_state_update(CBManagerState::PoweredOn),
        vec![ThreadAction::Dispatch(CoreBluetoothEvent::DidUpdateState { state: CBManagerState::PoweredOn })]
    );
    assert_eq!(t.known_ids(), vec![u(1)]);
}

#[test]
fn forgetting_removes_only_that_peripheral() {
    let mut t = table_with(&[1, 2, 3]);
    assert!(t.forget(u(2)));
    assert!(!t.forget(u(2)));
    assert_eq!(t.known_ids(), vec![u(1), u(3)]);
}
