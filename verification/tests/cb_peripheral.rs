use btleplug::api::WriteType;
use btleplug::bleuuid::Uuid;
use btleplug::cb_peripheral::{
    disconnect_missing, is_connected_reply, peripheral_missing, CoreBluetoothReply, PeripheralAction,
    PeripheralState,
};
use btleplug::corebluetooth::CBPeripheralState;

const SERVICE: Uuid = Uuid(0x0000180f_0000_1000_8000_00805f9b34fb);
const CHAR_A: Uuid = Uuid(0x00002a19_0000_1000_8000_00805f9b34fb);
const CHAR_B: Uuid = Uuid(0x00002a1a_0000_1000_8000_00805f9b34fb);
const DESC: Uuid = Uuid(0x00002902_0000_1000_8000_00805f9b34fb);

fn err(ticket: u64, msg: &str) -> PeripheralAction {
    PeripheralAction::Reply(ticket, CoreBluetoothReply::Failure(msg.to_string()))
}

fn ok(ticket: u64) -> PeripheralAction {
    PeripheralAction::Reply(ticket, CoreBluetoothReply::Success)
}

fn notify(c: Uuid, enabled: bool) -> PeripheralAction {
    PeripheralAction::SetNotifyValue { service: SERVICE, characteristic: c, enabled }
}

/// A peripheral with one service holding two characteristics, the first
/// with one descriptor; discovery waits on ticket 100.
fn discovered() -> PeripheralState {
    let mut p = PeripheralState::new();
    p.discover_services(100);
    p.on_discovered_services(vec![(SERVICE, true)]);
    assert!(p.set_characteristics(SERVICE, vec![(CHAR_A, 0x12), (CHAR_B, 0x08)], 182).is_empty());
    let (found, actions) = p.set_characteristic_descriptors(SERVICE, CHAR_A, vec![DESC], 182);
    assert!(found);
    assert!(actions.is_empty());
    p
}

#[test]
fn service_discovery_completes_when_every_characteristic_has_its_descriptors() {
    let mut p = discovered();
    let (found, actions) = p.set_characteristic_descriptors(SERVICE, CHAR_B, vec![], 182);
    assert!(found);
    assert_eq!(actions.len(), 1);
    match &actions[0] {
        PeripheralAction::Reply(100, CoreBluetoothReply::ServicesDiscovered(services, mtu)) => {
            assert_eq!(*mtu, 185);
            assert_eq!(services.len(), 1);
            assert_eq!(services[0].uuid, SERVICE);
            assert!(services[0].primary);
            assert_eq!(services[0].characteristics.len(), 2);
            assert_eq!(services[0].characteristics[0].uuid, CHAR_A);
            assert_eq!(services[0].characteristics[0].properties.bits(), 0x12);
            assert_eq!(services[0].characteristics[0].descriptors, vec![DESC]);
            assert!(services[0].characteristics[1].descriptors.is_empty());
        }
        other => panic!("unexpected discovery reply: {other:?}"),
    }
}

#[test]
fn descriptor_discovery_error_completes_service_discovery_without_descriptors() {
    let mut p = PeripheralState::new();
    p.discover_services(7);
    p.on_discovered_services(vec![(SERVICE, true)]);
    assert!(p.set_characteristics(SERVICE, vec![(CHAR_A, 0x02)], 0).is_empty());
    let (found, actions) = p.set_characteristic_descriptors(SERVICE, CHAR_A, vec![], 0);
    assert!(found);
    match &actions[..] {
        [PeripheralAction::Reply(7, CoreBluetoothReply::ServicesDiscovered(services, mtu))] => {
            assert_eq!(*mtu, 23);
            assert!(services[0].characteristics[0].descriptors.is_empty());
        }
        other => panic!("unexpected discovery reply: {other:?}"),
    }
}

#[test]
fn a_service_without_characteristics_is_discovered_at_once() {
    let mut p = PeripheralState::new();
    p.discover_services(3);
    p.on_discovered_services(vec![(SERVICE, false)]);
    let actions = p.set_characteristics(SERVICE, vec![], 0x1_0000);
    match &actions[..] {
        [PeripheralAction::Reply(3, CoreBluetoothReply::Failure(msg))] => assert_eq!(
            msg,
            "CoreBluetooth maximum write value length 65536 cannot be represented as a u16 ATT MTU"
        ),
        other => panic!("unexpected discovery reply: {other:?}"),
    }
}

#[test]
fn unknown_descriptor_relationship_fails_discovery() {
    let mut p = discovered();
    let actions = p.on_discovered_characteristic_descriptors(SERVICE, Uuid(5), vec![], 0);
    assert_eq!(
        actions,
        vec![err(
            100,
            "Unknown descriptor relationship for service 0000180f-0000-1000-8000-00805f9b34fb, characteristic 00000000-0000-0000-0000-000000000005"
        )]
    );
}

#[test]
fn notification_requests_are_serialized_per_characteristic() {
    let mut p = discovered();
    assert_eq!(p.queue_notification_request(SERVICE, CHAR_A, true, 1), vec![notify(CHAR_A, true)]);
    assert!(p.queue_notification_request(SERVICE, CHAR_A, false, 2).is_empty());
    assert!(p.queue_notification_request(SERVICE, CHAR_A, true, 3).is_empty());
    assert_eq!(p.on_notification_state_updated(SERVICE, CHAR_A, None), vec![ok(1), notify(CHAR_A, false)]);
    assert_eq!(
        p.on_notification_state_updated(SERVICE, CHAR_A, Some("att error".to_string())),
        vec![err(2, "att error"), notify(CHAR_A, true)]
    );
    assert_eq!(p.on_notification_state_updated(SERVICE, CHAR_A, None), vec![ok(3)]);
    assert!(p.on_notification_state_updated(SERVICE, CHAR_A, None).is_empty());
}

#[test]
fn notification_requests_on_distinct_characteristics_are_independent() {
    let mut p = discovered();
    assert_eq!(p.queue_notification_request(SERVICE, CHAR_A, true, 1), vec![notify(CHAR_A, true)]);
    assert_eq!(p.queue_notification_request(SERVICE, CHAR_B, true, 2), vec![notify(CHAR_B, true)]);
    assert!(p.queue_notification_request(SERVICE, CHAR_B, false, 3).is_empty());
    assert_eq!(p.on_notification_state_updated(SERVICE, CHAR_A, Some("e".to_string())), vec![err(1, "e")]);
    assert_eq!(p.on_notification_state_updated(SERVICE, CHAR_B, None), vec![ok(2), notify(CHAR_B, false)]);
    assert_eq!(p.on_notification_state_updated(SERVICE, CHAR_B, None), vec![ok(3)]);
}

#[test]
fn unexpected_notification_callback_is_ignored() {
    let mut p = discovered();
    assert!(p.on_notification_state_updated(SERVICE, CHAR_A, None).is_empty());
    assert!(p.on_notification_state_updated(SERVICE, Uuid(9), None).is_empty());
    assert_eq!(p.queue_notification_request(SERVICE, CHAR_A, true, 1), vec![notify(CHAR_A, true)]);
    assert!(p.on_notification_state_updated(SERVICE, CHAR_B, None).is_empty());
    assert_eq!(p.on_notification_state_updated(SERVICE, CHAR_A, None), vec![ok(1)]);
}

#[test]
fn requests_on_missing_attributes_are_answered_at_once() {
    let mut p = discovered();
    assert_eq!(
        p.queue_notification_request(Uuid(1), CHAR_A, true, 4),
        vec![err(4, "Service no longer available")]
    );
    assert_eq!(
        p.queue_notification_request(SERVICE, Uuid(1), true, 5),
        vec![err(5, "Characteristic no longer available")]
    );
    assert_eq!(p.read_value(SERVICE, Uuid(1), 6), vec![err(6, "Characteristic no longer available")]);
    assert_eq!(
        p.read_descriptor_value(SERVICE, CHAR_A, Uuid(1), 7),
        vec![err(7, "Descriptor no longer available")]
    );
    assert_eq!(peripheral_missing(8), err(8, "Peripheral no longer available"));
    assert_eq!(disconnect_missing(9), ok(9));
    assert_eq!(
        is_connected_reply(10, None),
        PeripheralAction::Reply(10, CoreBluetoothReply::State(CBPeripheralState::Disonnected))
    );
}

#[test]
fn disconnect_drains_active_and_queued_operations() {
    let mut p = discovered();
    p.connect(11);
    assert_eq!(p.queue_notification_request(SERVICE, CHAR_A, true, 1), vec![notify(CHAR_A, true)]);
    assert!(p.queue_notification_request(SERVICE, CHAR_A, false, 2).is_empty());
    p.read_value(SERVICE, CHAR_B, 3);
    p.write_value(SERVICE, CHAR_B, vec![1], WriteType::WithResponse, 4, true);
    p.write_value(SERVICE, CHAR_B, vec![2], WriteType::WithoutResponse, 5, false);
    p.read_descriptor_value(SERVICE, CHAR_A, DESC, 6);
    p.read_rssi(7);
    let drained = p.confirm_disconnect();
    let d = "Device disconnected";
    assert_eq!(
        drained,
        vec![err(11, d), err(100, d), err(7, d), err(5, d), err(1, d), err(2, d), err(6, d), err(3, d), err(4, d)]
    );
    assert!(p.confirm_disconnect().is_empty());
    assert!(p.on_notification_state_updated(SERVICE, CHAR_A, None).is_empty());
}

#[test]
fn reads_and_writes_wait_for_their_callbacks() {
    let mut p = discovered();
    assert_eq!(
        p.read_value(SERVICE, CHAR_A, 1),
        vec![PeripheralAction::ReadValue { service: SERVICE, characteristic: CHAR_A }]
    );
    assert_eq!(
        p.on_characteristic_read(SERVICE, CHAR_A, vec![5, 6], None),
        vec![PeripheralAction::Reply(1, CoreBluetoothReply::ReadResult(vec![5, 6]))]
    );
    assert_eq!(
        p.on_characteristic_read(SERVICE, CHAR_A, vec![7], None),
        vec![PeripheralAction::Notification { characteristic: CHAR_A, service: SERVICE, data: vec![7] }]
    );
    assert!(p.on_characteristic_read(SERVICE, CHAR_A, vec![], Some("x".to_string())).is_empty());
    assert_eq!(
        p.write_value(SERVICE, CHAR_B, vec![9], WriteType::WithResponse, 2, false),
        vec![PeripheralAction::WriteValue {
            service: SERVICE,
            characteristic: CHAR_B,
            data: vec![9],
            with_response: true
        }]
    );
    assert_eq!(p.on_characteristic_written(SERVICE, CHAR_B, None), vec![ok(2)]);
    assert!(p.on_characteristic_written(SERVICE, CHAR_B, None).is_empty());
    p.write_descriptor_value(SERVICE, CHAR_A, DESC, vec![1, 0], 3);
    assert_eq!(p.on_descriptor_written(SERVICE, CHAR_A, DESC, Some("no".to_string())), vec![err(3, "no")]);
    p.read_descriptor_value(SERVICE, CHAR_A, DESC, 4);
    assert_eq!(
        p.on_descriptor_read(SERVICE, CHAR_A, DESC, vec![1], None),
        vec![PeripheralAction::Reply(4, CoreBluetoothReply::ReadResult(vec![1]))]
    );
}

#[test]
fn writes_without_response_wait_until_the_peripheral_can_take_them() {
    let mut p = discovered();
    assert_eq!(
        p.write_value(SERVICE, CHAR_B, vec![1], WriteType::WithoutResponse, 1, true),
        vec![
            PeripheralAction::WriteValue { service: SERVICE, characteristic: CHAR_B, data: vec![1], with_response: false },
            ok(1)
        ]
    );
    assert!(p.write_value(SERVICE, CHAR_B, vec![2], WriteType::WithoutResponse, 2, false).is_empty());
    assert!(p.write_value(SERVICE, CHAR_A, vec![3], WriteType::WithoutResponse, 3, false).is_empty());
    let (actions, more) = p.drain_write_step(false);
    assert!(actions.is_empty() && !more);
    p.clear_services();
    let (actions, more) = p.drain_write_step(true);
    assert!(more);
    assert_eq!(actions, vec![err(2, "Service no longer available")]);
    p.on_discovered_services(vec![(SERVICE, true)]);
    p.set_characteristics(SERVICE, vec![(CHAR_A, 0)], 0);
    let (actions, more) = p.drain_write_step(true);
    assert!(more);
    assert_eq!(
        actions,
        vec![
            PeripheralAction::WriteValue { service: SERVICE, characteristic: CHAR_A, data: vec![3], with_response: false },
            ok(3)
        ]
    );
    let (actions, more) = p.drain_write_step(true);
    assert!(actions.is_empty() && !more);
}

#[test]
fn connection_and_signal_strength_callbacks() {
    let mut p = PeripheralState::new();
    assert_eq!(p.connect(1), vec![PeripheralAction::Connect]);
    assert_eq!(p.on_peripheral_connect(), vec![PeripheralAction::Reply(1, CoreBluetoothReply::Connected)]);
    assert!(p.on_peripheral_connect().is_empty());
    p.connect(2);
    assert_eq!(p.on_peripheral_connection_failed(None), vec![err(2, "Connection failed")]);
    p.connect(3);
    assert_eq!(p.on_peripheral_connection_failed(Some("busy".to_string())), vec![err(3, "busy")]);
    assert_eq!(p.read_rssi(4), vec![PeripheralAction::ReadRssi]);
    assert_eq!(
        p.on_read_rssi(-40, None),
        vec![PeripheralAction::Reply(4, CoreBluetoothReply::ReadRssi(-40)), PeripheralAction::RssiRead(-40)]
    );
    assert_eq!(p.on_read_rssi(-41, None), vec![PeripheralAction::RssiRead(-41)]);
    assert_eq!(p.disconnect(5), vec![PeripheralAction::CancelConnection]);
    assert_eq!(p.confirm_disconnect(), vec![err(5, "Device disconnected")]);
}

#[test]
fn known_characteristics_keep_their_waiting_operations_on_rediscovery() {
    let mut p = discovered();
    p.read_value(SERVICE, CHAR_A, 1);
    assert!(p.set_characteristics(SERVICE, vec![(CHAR_A, 0xFF)], 0).is_empty());
    assert_eq!(
        p.on_characteristic_read(SERVICE, CHAR_A, vec![1], None),
        vec![PeripheralAction::Reply(1, CoreBluetoothReply::ReadResult(vec![1]))]
    );
}

#[test]
fn notification_callback_error_completes_requested_operation() {
    for enabled in [true, false] {
        for att_error in [false, true] {
            let mut p = discovered();
            assert_eq!(
                p.queue_notification_request(SERVICE, CHAR_A, enabled, 1),
                vec![notify(CHAR_A, enabled)]
            );
            let message = if att_error { "ATT error 0x0e" } else { "The operation was cancelled." };
            assert_eq!(
                p.on_notification_state_updated(SERVICE, CHAR_A, Some(message.to_string())),
                vec![err(1, message)]
            );
        }
    }
}

#[test]
fn notification_callback_success_completes_requested_operation() {
    let mut p = discovered();
    assert_eq!(p.queue_notification_request(SERVICE, CHAR_A, true, 1), vec![notify(CHAR_A, true)]);
    assert_eq!(p.on_notification_state_updated(SERVICE, CHAR_A, None), vec![ok(1)]);
    assert_eq!(p.queue_notification_request(SERVICE, CHAR_A, false, 2), vec![notify(CHAR_A, false)]);
    assert_eq!(p.on_notification_state_updated(SERVICE, CHAR_A, None), vec![ok(2)]);
    // Repeated requests in the same direction stay separate calls and replies.
    assert_eq!(p.queue_notification_request(SERVICE, CHAR_A, true, 3), vec![notify(CHAR_A, true)]);
    assert!(p.queue_notification_request(SERVICE, CHAR_A, true, 4).is_empty());
    assert_eq!(p.on_notification_state_updated(SERVICE, CHAR_A, None), vec![ok(3), notify(CHAR_A, true)]);
    assert_eq!(p.on_notification_state_updated(SERVICE, CHAR_A, None), vec![ok(4)]);
}

#[test]
fn cancelled_notification_waiter_does_not_steal_next_reply() {
    // The first waiter goes away: its reply is still addressed to its own
    // ticket, and its callback submits the next request.
    let mut p = discovered();
    assert_eq!(p.queue_notification_request(SERVICE, CHAR_A, true, 1), vec![notify(CHAR_A, true)]);
    assert!(p.queue_notification_request(SERVICE, CHAR_A, false, 2).is_empty());
    assert_eq!(p.on_notification_state_updated(SERVICE, CHAR_A, None), vec![ok(1), notify(CHAR_A, false)]);
    assert_eq!(p.on_notification_state_updated(SERVICE, CHAR_A, None), vec![ok(2)]);
}
