use btleplug::adapter_manager::AdapterManager;
use btleplug::api::{CentralEvent, PeripheralId};
use btleplug::bleuuid::Uuid;

fn id(v: u128) -> PeripheralId {
    PeripheralId(Uuid::from_u128(v))
}

#[test]
fn a_peripheral_added_twice_keeps_the_first() {
    let mut m: AdapterManager<String> = AdapterManager::new();
    assert_eq!(m.add_peripheral(id(1), "first".to_string()), "first");
    assert_eq!(m.add_peripheral(id(1), "second".to_string()), "first");
    assert_eq!(m.peripherals(), vec!["first".to_string()]);
    assert!(m.has_peripheral(&id(1)));
    assert_eq!(m.peripheral(&id(1)), Some("first".to_string()));
    assert_eq!(m.peripheral(&id(2)), None);
}

#[test]
fn a_disconnection_forgets_only_that_peripheral() {
    let mut m: AdapterManager<u8> = AdapterManager::new();
    m.add_peripheral(id(1), 1);
    m.add_peripheral(id(2), 2);
    m.emit(&CentralEvent::DeviceUpdated(id(1)));
    assert_eq!(m.peripherals(), vec![1, 2]);
    m.emit(&CentralEvent::DeviceDisconnected(id(1)));
    assert_eq!(m.peripherals(), vec![2]);
    assert!(!m.has_peripheral(&id(1)));
    m.emit(&CentralEvent::DeviceDisconnected(id(9)));
    assert_eq!(m.peripherals(), vec![2]);
}

#[test]
fn clearing_the_manager_forgets_every_peripheral() {
    let mut m: AdapterManager<u8> = AdapterManager::new();
    m.add_peripheral(id(1), 1);
    m.add_peripheral(id(2), 2);
    m.clear_peripherals();
    assert_eq!(m.peripherals(), Vec::<u8>::new());
}
