//! The bookkeeping of the CoreBluetooth back end for one peripheral: its
//! services, characteristics and descriptors as discovered, and the
//! operations that wait for a CoreBluetooth callback.
//!
//! CoreBluetooth answers every request through a delegate callback, so the
//! back end keeps, per attribute, the operations that wait for an answer.
//! Each operation is named by a ticket that the caller chose; a method here
//! takes a request or a callback and returns the actions it leads to: the
//! replies owed to tickets, and the requests to hand to CoreBluetooth.

use std::collections::VecDeque;
use vstd::prelude::*;
use crate::api::{CharPropFlags, WriteType};
use crate::bleuuid::Uuid;
use crate::api::{spec_from_core_bluetooth, DEFAULT_MTU_SIZE};
use crate::bleuuid::spec_hyphenated;
use crate::corebluetooth::{maximum_write_value_length_to_att_mtu, spec_mtu_error, CBPeripheralState};

verus! {

/// A characteristic as reported when service discovery completes.
#[derive(Debug, Clone, PartialEq)]
pub struct DiscoveredCharacteristic {
    pub uuid: Uuid,
    pub properties: CharPropFlags,
    pub descriptors: Vec<Uuid>,
}

/// A service as reported when service discovery completes.
#[derive(Debug, Clone, PartialEq)]
pub struct DiscoveredService {
    pub uuid: Uuid,
    pub primary: bool,
    pub characteristics: Vec<DiscoveredCharacteristic>,
}

/// The mathematical value of a [`DiscoveredCharacteristic`].
pub struct SpecDiscoveredCharacteristic {
    pub uuid: u128,
    pub properties: u8,
    pub descriptors: Seq<u128>,
}

/// The mathematical value of a [`DiscoveredService`].
pub struct SpecDiscoveredService {
    pub uuid: u128,
    pub primary: bool,
    pub characteristics: Seq<SpecDiscoveredCharacteristic>,
}

/// The UUIDs of a sequence of UUIDs.
pub open spec fn uuid_views(s: Seq<Uuid>) -> Seq<u128> {
    s.map_values(|u: Uuid| u@)
}

impl View for DiscoveredCharacteristic {
    type V = SpecDiscoveredCharacteristic;

    open spec fn view(&self) -> SpecDiscoveredCharacteristic {
        SpecDiscoveredCharacteristic {
            uuid: self.uuid@,
            properties: self.properties@,
            descriptors: uuid_views(self.descriptors@),
        }
    }
}

impl View for DiscoveredService {
    type V = SpecDiscoveredService;

    open spec fn view(&self) -> SpecDiscoveredService {
        SpecDiscoveredService {
            uuid: self.uuid@,
            primary: self.primary,
            characteristics: self.characteristics@.map_values(|c: DiscoveredCharacteristic| c@),
        }
    }
}

/// The answer to an operation that waited for a callback.
#[derive(Debug, Clone, PartialEq)]
pub enum CoreBluetoothReply {
    ReadResult(Vec<u8>),
    ReadRssi(i16),
    Connected,
    ServicesDiscovered(Vec<DiscoveredService>, u16),
    State(CBPeripheralState),
    Success,
    Failure(String),
}

/// The mathematical value of a [`CoreBluetoothReply`].
pub enum SpecReply {
    ReadResult(Seq<u8>),
    ReadRssi(i16),
    Connected,
    ServicesDiscovered(Seq<SpecDiscoveredService>, u16),
    State(CBPeripheralState),
    Success,
    Failure(Seq<char>),
}

impl View for CoreBluetoothReply {
    type V = SpecReply;

    open spec fn view(&self) -> SpecReply {
        match self {
            CoreBluetoothReply::ReadResult(d) => SpecReply::ReadResult(d@),
            CoreBluetoothReply::ReadRssi(r) => SpecReply::ReadRssi(*r),
            CoreBluetoothReply::Connected => SpecReply::Connected,
            CoreBluetoothReply::ServicesDiscovered(s, m) => SpecReply::ServicesDiscovered(
                s@.map_values(|d: DiscoveredService| d@),
                *m,
            ),
            CoreBluetoothReply::State(st) => SpecReply::State(*st),
            CoreBluetoothReply::Success => SpecReply::Success,
            CoreBluetoothReply::Failure(e) => SpecReply::Failure(e@),
        }
    }
}

/// What a request or a callback leads to: a reply to a waiting operation,
/// a request to CoreBluetooth, or an event for the peripheral's listeners.
#[derive(Debug, Clone, PartialEq)]
pub enum PeripheralAction {
    /// Answer the operation with this ticket.
    Reply(u64, CoreBluetoothReply),
    /// Ask CoreBluetooth to turn notifications of a characteristic on or off.
    SetNotifyValue { service: Uuid, characteristic: Uuid, enabled: bool },
    /// Ask CoreBluetooth to write a characteristic's value.
    WriteValue { service: Uuid, characteristic: Uuid, data: Vec<u8>, with_response: bool },
    /// Ask CoreBluetooth to read a characteristic's value.
    ReadValue { service: Uuid, characteristic: Uuid },
    /// Ask CoreBluetooth to write a descriptor's value.
    WriteDescriptor { service: Uuid, characteristic: Uuid, descriptor: Uuid, data: Vec<u8> },
    /// Ask CoreBluetooth to read a descriptor's value.
    ReadDescriptor { service: Uuid, characteristic: Uuid, descriptor: Uuid },
    /// Ask CoreBluetooth to read the signal strength.
    ReadRssi,
    /// Ask CoreBluetooth to connect the peripheral.
    Connect,
    /// Ask CoreBluetooth to cancel the peripheral's connection.
    CancelConnection,
    /// Ask CoreBluetooth to discover the peripheral's services.
    DiscoverServices,
    /// A characteristic's value arrived without a read waiting for it.
    Notification { characteristic: Uuid, service: Uuid, data: Vec<u8> },
    /// The signal strength was read.
    RssiRead(i16),
}

/// The mathematical value of a [`PeripheralAction`].
pub enum SpecAction {
    Reply(u64, SpecReply),
    SetNotifyValue { service: u128, characteristic: u128, enabled: bool },
    WriteValue { service: u128, characteristic: u128, data: Seq<u8>, with_response: bool },
    ReadValue { service: u128, characteristic: u128 },
    WriteDescriptor { service: u128, characteristic: u128, descriptor: u128, data: Seq<u8> },
    ReadDescriptor { service: u128, characteristic: u128, descriptor: u128 },
    ReadRssi,
    Connect,
    CancelConnection,
    DiscoverServices,
    Notification { characteristic: u128, service: u128, data: Seq<u8> },
    RssiRead(i16),
}

impl View for PeripheralAction {
    type V = SpecAction;

    open spec fn view(&self) -> SpecAction {
        match self {
            PeripheralAction::Reply(t, r) => SpecAction::Reply(*t, r@),
            PeripheralAction::SetNotifyValue {
                service,
                characteristic,
                enabled,
            } => SpecAction::SetNotifyValue {
                service: service@,
                characteristic: characteristic@,
                enabled: *enabled,
            },
            PeripheralAction::WriteValue {
                service,
                characteristic,
                data,
                with_response,
            } => SpecAction::WriteValue {
                service: service@,
                characteristic: characteristic@,
                data: data@,
                with_response: *with_response,
            },
            PeripheralAction::ReadValue { service, characteristic } => SpecAction::ReadValue {
                service: service@,
                characteristic: characteristic@,
            },
            PeripheralAction::WriteDescriptor {
                service,
                characteristic,
                descriptor,
                data,
            } => SpecAction::WriteDescriptor {
                service: service@,
                characteristic: characteristic@,
                descriptor: descriptor@,
                data: data@,
            },
            PeripheralAction::ReadDescriptor {
                service,
                characteristic,
                descriptor,
            } => SpecAction::ReadDescriptor {
                service: service@,
                characteristic: characteristic@,
                descriptor: descriptor@,
            },
            PeripheralAction::ReadRssi => SpecAction::ReadRssi,
            PeripheralAction::Connect => SpecAction::Connect,
            PeripheralAction::CancelConnection => SpecAction::CancelConnection,
            PeripheralAction::DiscoverServices => SpecAction::DiscoverServices,
            PeripheralAction::Notification {
                characteristic,
                service,
                data,
            } => SpecAction::Notification {
                characteristic: characteristic@,
                service: service@,
                data: data@,
            },
            PeripheralAction::RssiRead(r) => SpecAction::RssiRead(*r),
        }
    }
}

/// The values of a sequence of actions.
pub open spec fn action_views(s: Seq<PeripheralAction>) -> Seq<SpecAction> {
    s.map_values(|a: PeripheralAction| a@)
}

/// A subscribe (`enabled`) or unsubscribe request waiting its turn.
#[derive(Debug, Clone, Copy, PartialEq, Eq, Structural)]
pub struct NotificationRequest {
    pub enabled: bool,
    pub ticket: u64,
}

/// A descriptor and the operations waiting for its callbacks.
pub struct DescriptorState {
    pub uuid: Uuid,
    pub read_queue: VecDeque<u64>,
    pub write_queue: VecDeque<u64>,
}

/// A characteristic, what is known of it, and the operations waiting for
/// its callbacks.
pub struct CharacteristicState {
    pub uuid: Uuid,
    pub properties: CharPropFlags,
    pub descriptors: Vec<DescriptorState>,
    pub discovered: bool,
    pub read_queue: VecDeque<u64>,
    pub write_queue: VecDeque<u64>,
    pub notification_requests: VecDeque<NotificationRequest>,
}

/// A service and its characteristics.
pub struct ServiceState {
    pub uuid: Uuid,
    pub primary: bool,
    pub characteristics: Vec<CharacteristicState>,
    pub discovered: bool,
}

/// A write without response that waits until the peripheral can take it.
pub struct PendingWrite {
    pub service_uuid: Uuid,
    pub characteristic_uuid: Uuid,
    pub data: Vec<u8>,
    pub ticket: u64,
}

/// A peripheral's attributes and every operation that waits for one of its
/// callbacks.
pub struct PeripheralState {
    pub services: Vec<ServiceState>,
    pub connected: Option<u64>,
    pub disconnected: Option<u64>,
    pub services_discovered: Option<u64>,
    pub read_rssi_queue: VecDeque<u64>,
    pub write_without_response_queue: VecDeque<PendingWrite>,
}

/// The mathematical value of a [`DescriptorState`].
pub struct SpecDescriptor {
    pub uuid: u128,
    pub reads: Seq<u64>,
    pub writes: Seq<u64>,
}

/// The mathematical value of a [`CharacteristicState`].
pub struct SpecCharacteristic {
    pub uuid: u128,
    pub properties: u8,
    pub descriptors: Seq<SpecDescriptor>,
    pub discovered: bool,
    pub reads: Seq<u64>,
    pub writes: Seq<u64>,
    pub notifications: Seq<NotificationRequest>,
}

/// The mathematical value of a [`ServiceState`].
pub struct SpecService {
    pub uuid: u128,
    pub primary: bool,
    pub characteristics: Seq<SpecCharacteristic>,
    pub discovered: bool,
}

/// The mathematical value of a [`PendingWrite`].
pub struct SpecPendingWrite {
    pub service: u128,
    pub characteristic: u128,
    pub data: Seq<u8>,
    pub ticket: u64,
}

/// The mathematical value of a [`PeripheralState`].
pub struct SpecPeripheral {
    pub services: Seq<SpecService>,
    pub connected: Option<u64>,
    pub disconnected: Option<u64>,
    pub services_discovered: Option<u64>,
    pub rssi_reads: Seq<u64>,
    pub pending_writes: Seq<SpecPendingWrite>,
}

impl View for DescriptorState {
    type V = SpecDescriptor;

    open spec fn view(&self) -> SpecDescriptor {
        SpecDescriptor { uuid: self.uuid@, reads: self.read_queue@, writes: self.write_queue@ }
    }
}

impl View for CharacteristicState {
    type V = SpecCharacteristic;

    open spec fn view(&self) -> SpecCharacteristic {
        SpecCharacteristic {
            uuid: self.uuid@,
            properties: self.properties@,
            descriptors: self.descriptors@.map_values(|d: DescriptorState| d@),
            discovered: self.discovered,
            reads: self.read_queue@,
            writes: self.write_queue@,
            notifications: self.notification_requests@,
        }
    }
}

impl View for ServiceState {
    type V = SpecService;

    open spec fn view(&self) -> SpecService {
        SpecService {
            uuid: self.uuid@,
            primary: self.primary,
            characteristics: self.characteristics@.map_values(|c: CharacteristicState| c@),
            discovered: self.discovered,
        }
    }
}

impl View for PendingWrite {
    type V = SpecPendingWrite;

    open spec fn view(&self) -> SpecPendingWrite {
        SpecPendingWrite {
            service: self.service_uuid@,
            characteristic: self.characteristic_uuid@,
            data: self.data@,
            ticket: self.ticket,
        }
    }
}

impl View for PeripheralState {
    type V = SpecPeripheral;

    open spec fn view(&self) -> SpecPeripheral {
        SpecPeripheral {
            services: self.services@.map_values(|s: ServiceState| s@),
            connected: self.connected,
            disconnected: self.disconnected,
            services_discovered: self.services_discovered,
            rssi_reads: self.read_rssi_queue@,
            pending_writes: self.write_without_response_queue@.map_values(|w: PendingWrite| w@),
        }
    }
}

/// No two descriptors of a characteristic have the same UUID.
pub open spec fn descriptors_distinct(d: Seq<SpecDescriptor>) -> bool {
    forall|i: int, j: int| 0 <= i < j < d.len() ==> d[i].uuid != d[j].uuid
}

/// No two characteristics of a service have the same UUID, nor two
/// descriptors of one characteristic.
pub open spec fn characteristics_wf(c: Seq<SpecCharacteristic>) -> bool {
    &&& forall|i: int, j: int| 0 <= i < j < c.len() ==> c[i].uuid != c[j].uuid
    &&& forall|i: int| 0 <= i < c.len() ==> descriptors_distinct(#[trigger] c[i].descriptors)
}

/// No two services of a peripheral have the same UUID, and each service's
/// attributes are keyed by UUID too.
pub open spec fn peripheral_wf(p: SpecPeripheral) -> bool {
    &&& forall|i: int, j: int| 0 <= i < j < p.services.len() ==> p.services[i].uuid != p.services[j].uuid
    &&& forall|i: int| 0 <= i < p.services.len() ==> characteristics_wf(#[trigger] p.services[i].characteristics)
}

/// The position of the service with this UUID, if there is one.
pub open spec fn service_pos(s: Seq<SpecService>, u: u128) -> Option<int> {
    if exists|i: int| 0 <= i < s.len() && s[i].uuid == u {
        Some(choose|i: int| 0 <= i < s.len() && s[i].uuid == u)
    } else {
        None
    }
}

/// The position of the characteristic with this UUID, if there is one.
pub open spec fn characteristic_pos(c: Seq<SpecCharacteristic>, u: u128) -> Option<int> {
    if exists|i: int| 0 <= i < c.len() && c[i].uuid == u {
        Some(choose|i: int| 0 <= i < c.len() && c[i].uuid == u)
    } else {
        None
    }
}

/// The position of the descriptor with this UUID, if there is one.
pub open spec fn descriptor_pos(d: Seq<SpecDescriptor>, u: u128) -> Option<int> {
    if exists|i: int| 0 <= i < d.len() && d[i].uuid == u {
        Some(choose|i: int| 0 <= i < d.len() && d[i].uuid == u)
    } else {
        None
    }
}

/// The position of the characteristic `cu` of service `su`, if both exist.
pub open spec fn char_location(p: SpecPeripheral, su: u128, cu: u128) -> Option<(int, int)> {
    match service_pos(p.services, su) {
        None => None,
        Some(i) => match characteristic_pos(p.services[i].characteristics, cu) {
            None => None,
            Some(j) => Some((i, j)),
        },
    }
}

/// `p` with the characteristic at `(i, j)` replaced by `c`.
pub open spec fn with_characteristic(p: SpecPeripheral, i: int, j: int, c: SpecCharacteristic) -> SpecPeripheral {
    SpecPeripheral {
        services: p.services.update(
            i,
            SpecService {
                characteristics: p.services[i].characteristics.update(j, c),
                ..p.services[i]
            },
        ),
        ..p
    }
}

/// The message of the reply to an operation on an attribute that is not
/// there: `"<what> no longer available"`.
pub open spec fn spec_missing(what: Seq<char>) -> Seq<char> {
    what + " no longer available"@
}

/// The action that answers `ticket` with an error.
pub open spec fn spec_err(ticket: u64, msg: Seq<char>) -> SpecAction {
    SpecAction::Reply(ticket, SpecReply::Failure(msg))
}

fn find_service(services: &Vec<ServiceState>, u: Uuid) -> (r: Option<usize>)
    requires
        forall|i: int, j: int|
            0 <= i < j < services@.len() ==> services@[i].uuid@ != services@[j].uuid@,
    ensures
        match r {
            Some(i) => service_pos(services@.map_values(|s: ServiceState| s@), u@) == Some(i as int),
            None => service_pos(services@.map_values(|s: ServiceState| s@), u@) is None,
        },
        r matches Some(i) ==> i < services@.len(),
{
    let ghost sv = services@.map_values(|s: ServiceState| s@);
    let mut i: usize = 0;
    while i < services.len()
        invariant
            i <= services@.len(),
            sv == services@.map_values(|s: ServiceState| s@),
            forall|k: int| 0 <= k < i ==> services@[k].uuid@ != u@,
            forall|a: int, b: int| 0 <= a < b < services@.len() ==> services@[a].uuid@ != services@[b].uuid@,
        decreases services@.len() - i,
    {
        if services[i].uuid.0 == u.0 {
            proof {
                assert(sv[i as int].uuid == u@);
                let c = choose|k: int| 0 <= k < sv.len() && sv[k].uuid == u@;
                assert(sv[c].uuid == u@);
                assert(c == i) by {
                    if c < i {
                        assert(services@[c].uuid@ != u@);
                    } else if c > i {
                        assert(services@[i as int].uuid@ != services@[c].uuid@);
                    }
                }
            }
            return Some(i);
        }
        i = i + 1;
    }
    proof {
        assert(!exists|k: int| 0 <= k < sv.len() && sv[k].uuid == u@) by {
            if exists|k: int| 0 <= k < sv.len() && sv[k].uuid == u@ {
                let k = choose|k: int| 0 <= k < sv.len() && sv[k].uuid == u@;
                assert(services@[k].uuid@ != u@);
            }
        }
    }
    None
}

fn find_characteristic(chars: &Vec<CharacteristicState>, u: Uuid) -> (r: Option<usize>)
    requires
        forall|i: int, j: int| 0 <= i < j < chars@.len() ==> chars@[i].uuid@ != chars@[j].uuid@,
    ensures
        match r {
            Some(i) => characteristic_pos(chars@.map_values(|c: CharacteristicState| c@), u@) == Some(i as int),
            None => characteristic_pos(chars@.map_values(|c: CharacteristicState| c@), u@) is None,
        },
        r matches Some(i) ==> i < chars@.len(),
{
    let ghost cv = chars@.map_values(|c: CharacteristicState| c@);
    let mut i: usize = 0;
    while i < chars.len()
        invariant
            i <= chars@.len(),
            cv == chars@.map_values(|c: CharacteristicState| c@),
            forall|k: int| 0 <= k < i ==> chars@[k].uuid@ != u@,
            forall|a: int, b: int| 0 <= a < b < chars@.len() ==> chars@[a].uuid@ != chars@[b].uuid@,
        decreases chars@.len() - i,
    {
        if chars[i].uuid.0 == u.0 {
            proof {
                assert(cv[i as int].uuid == u@);
                let c = choose|k: int| 0 <= k < cv.len() && cv[k].uuid == u@;
                assert(cv[c].uuid == u@);
                assert(c == i) by {
                    if c < i {
                        assert(chars@[c].uuid@ != u@);
                    } else if c > i {
                        assert(chars@[i as int].uuid@ != chars@[c].uuid@);
                    }
                }
            }
            return Some(i);
        }
        i = i + 1;
    }
    proof {
        assert(!exists|k: int| 0 <= k < cv.len() && cv[k].uuid == u@) by {
            if exists|k: int| 0 <= k < cv.len() && cv[k].uuid == u@ {
                let k = choose|k: int| 0 <= k < cv.len() && cv[k].uuid == u@;
                assert(chars@[k].uuid@ != u@);
            }
        }
    }
    None
}

fn find_descriptor(descs: &Vec<DescriptorState>, u: Uuid) -> (r: Option<usize>)
    requires
        forall|i: int, j: int| 0 <= i < j < descs@.len() ==> descs@[i].uuid@ != descs@[j].uuid@,
    ensures
        match r {
            Some(i) => descriptor_pos(descs@.map_values(|d: DescriptorState| d@), u@) == Some(i as int),
            None => descriptor_pos(descs@.map_values(|d: DescriptorState| d@), u@) is None,
        },
        r matches Some(i) ==> i < descs@.len(),
{
    let ghost dv = descs@.map_values(|d: DescriptorState| d@);
    let mut i: usize = 0;
    while i < descs.len()
        invariant
            i <= descs@.len(),
            dv == descs@.map_values(|d: DescriptorState| d@),
            forall|k: int| 0 <= k < i ==> descs@[k].uuid@ != u@,
            forall|a: int, b: int| 0 <= a < b < descs@.len() ==> descs@[a].uuid@ != descs@[b].uuid@,
        decreases descs@.len() - i,
    {
        if descs[i].uuid.0 == u.0 {
            proof {
                assert(dv[i as int].uuid == u@);
                let c = choose|k: int| 0 <= k < dv.len() && dv[k].uuid == u@;
                assert(dv[c].uuid == u@);
                assert(c == i) by {
                    if c < i {
                        assert(descs@[c].uuid@ != u@);
                    } else if c > i {
                        assert(descs@[i as int].uuid@ != descs@[c].uuid@);
                    }
                }
            }
            return Some(i);
        }
        i = i + 1;
    }
    proof {
        assert(!exists|k: int| 0 <= k < dv.len() && dv[k].uuid == u@) by {
            if exists|k: int| 0 <= k < dv.len() && dv[k].uuid == u@ {
                let k = choose|k: int| 0 <= k < dv.len() && dv[k].uuid == u@;
                assert(descs@[k].uuid@ != u@);
            }
        }
    }
    None
}

/// The reply to an operation on characteristic `cu` of service `su` when
/// one of them is not there.
pub open spec fn spec_char_missing(p: SpecPeripheral, su: u128, ticket: u64) -> SpecAction {
    spec_err(
        ticket,
        spec_missing(
            if service_pos(p.services, su) is None {
                "Service"@
            } else {
                "Characteristic"@
            },
        ),
    )
}

/// The action that answers `ticket` with `"<what> no longer available"`.
fn missing(ticket: u64, what: &str) -> (a: PeripheralAction)
    ensures
        a@ == spec_err(ticket, spec_missing(what@)),
{
    let mut msg = String::from_str(what);
    msg.append(" no longer available");
    PeripheralAction::Reply(ticket, CoreBluetoothReply::Failure(msg))
}

/// The request to CoreBluetooth for the first waiting notification request
/// of a characteristic, if any.
pub open spec fn spec_submit_head(su: u128, cu: u128, q: Seq<NotificationRequest>) -> Seq<SpecAction> {
    if q.len() == 0 {
        Seq::empty()
    } else {
        seq![SpecAction::SetNotifyValue { service: su, characteristic: cu, enabled: q[0].enabled }]
    }
}

/// What queueing a notification request does: see
/// [`PeripheralState::queue_notification_request`].
pub open spec fn spec_queue_notification(p: SpecPeripheral, su: u128, cu: u128, enabled: bool, ticket: u64) -> (
    SpecPeripheral,
    Seq<SpecAction>,
) {
    match char_location(p, su, cu) {
        None => (p, seq![spec_char_missing(p, su, ticket)]),
        Some((i, j)) => {
            let c = p.services[i].characteristics[j];
            let q = c.notifications.push(NotificationRequest { enabled, ticket });
            (
                with_characteristic(p, i, j, SpecCharacteristic { notifications: q, ..c }),
                if c.notifications.len() == 0 {
                    spec_submit_head(su, cu, q)
                } else {
                    Seq::empty()
                },
            )
        },
    }
}

/// The text of an optional error.
pub open spec fn opt_text(e: Option<String>) -> Option<Seq<char>> {
    match e {
        Some(s) => Some(s@),
        None => None,
    }
}

/// What a notification-state callback does: see
/// [`PeripheralState::on_notification_state_updated`].
pub open spec fn spec_notification_state_updated(p: SpecPeripheral, su: u128, cu: u128, error: Option<Seq<char>>) -> (
    SpecPeripheral,
    Seq<SpecAction>,
) {
    match char_location(p, su, cu) {
        None => (p, Seq::empty()),
        Some((i, j)) => {
            let c = p.services[i].characteristics[j];
            if c.notifications.len() == 0 {
                (p, Seq::empty())
            } else {
                let q = c.notifications.drop_first();
                (
                    with_characteristic(p, i, j, SpecCharacteristic { notifications: q, ..c }),
                    seq![
                        SpecAction::Reply(
                            c.notifications[0].ticket,
                            match error {
                                Some(e) => SpecReply::Failure(e),
                                None => SpecReply::Success,
                            },
                        ),
                    ] + spec_submit_head(su, cu, q),
                )
            }
        },
    }
}

impl PeripheralState {
    /// A peripheral of which nothing is known and for which nothing waits.
    pub fn new() -> (p: PeripheralState)
        ensures
            p@ == (SpecPeripheral {
                services: Seq::empty(),
                connected: None,
                disconnected: None,
                services_discovered: None,
                rssi_reads: Seq::empty(),
                pending_writes: Seq::empty(),
            }),
            peripheral_wf(p@),
    {
        let p = PeripheralState {
            services: Vec::new(),
            connected: None,
            disconnected: None,
            services_discovered: None,
            read_rssi_queue: VecDeque::new(),
            write_without_response_queue: VecDeque::new(),
        };
        assert(p@.services =~= Seq::<SpecService>::empty());
        assert(p@.pending_writes =~= Seq::<SpecPendingWrite>::empty());
        p
    }

    /// Queues a subscribe (`enabled`) or unsubscribe request of the
    /// characteristic. Requests of a characteristic are handled in queue
    /// order: only the first is handed to CoreBluetooth, so it is handed over
    /// exactly when the queue was empty. A missing service or characteristic
    /// answers the request with an error at once.
    pub fn queue_notification_request(
        &mut self,
        service_uuid: Uuid,
        characteristic_uuid: Uuid,
        enabled: bool,
        ticket: u64,
    ) -> (actions: Vec<PeripheralAction>)
        requires
            peripheral_wf(old(self)@),
        ensures
            peripheral_wf(final(self)@),
            (final(self)@, action_views(actions@)) == spec_queue_notification(
                old(self)@,
                service_uuid@,
                characteristic_uuid@,
                enabled,
                ticket,
            ),
    {
        let ghost old_view = self@;
        proof {
            lemma_wf_exec(self);
        }
        let mut actions: Vec<PeripheralAction> = Vec::new();
        let i = match find_service(&self.services, service_uuid) {
            Some(i) => i,
            None => {
                actions.push(missing(ticket, "Service"));
                assert(action_views(actions@) =~= seq![spec_char_missing(old_view, service_uuid@, ticket)]);
                return actions;
            },
        };
        proof {
            assert(old_view.services[i as int] == self.services@[i as int]@);
            assert(old_view.services[i as int].characteristics =~= self.services@[i as int].characteristics@.map_values(
                |c: CharacteristicState| c@,
            ));
        }
        let j = match find_characteristic(&self.services[i].characteristics, characteristic_uuid) {
            Some(j) => j,
            None => {
                actions.push(missing(ticket, "Characteristic"));
                assert(action_views(actions@) =~= seq![spec_char_missing(old_view, service_uuid@, ticket)]);
                return actions;
            },
        };
        let mut svc = self.services.remove(i);
        let mut ch = svc.characteristics.remove(j);
        let was_empty = ch.notification_requests.len() == 0;
        ch.notification_requests.push_back(NotificationRequest { enabled, ticket });
        if was_empty {
            actions.push(
                PeripheralAction::SetNotifyValue {
                    service: service_uuid,
                    characteristic: characteristic_uuid,
                    enabled,
                },
            );
        }
        svc.characteristics.insert(j, ch);
        self.services.insert(i, svc);
        proof {
            let c = old_view.services[i as int].characteristics[j as int];
            let q = c.notifications.push(NotificationRequest { enabled, ticket });
            assert(self@.services[i as int].characteristics =~= old_view.services[i as int].characteristics.update(
                j as int,
                SpecCharacteristic { notifications: q, ..c },
            ));
            let nc = SpecCharacteristic { notifications: q, ..c };
            assert(self@.services[i as int] == SpecService { characteristics: old_view.services[i as int].characteristics.update(j as int, nc), ..old_view.services[i as int] });
            assert forall|k: int| 0 <= k < self@.services.len() && k != i implies self@.services[k] == old_view.services[k] by {
                assert(self.services@[k] == old(self).services@[k]);
            }
            assert(self@.services =~= old_view.services.update(i as int, SpecService { characteristics: old_view.services[i as int].characteristics.update(j as int, nc), ..old_view.services[i as int] }));
            assert(self@ =~= with_characteristic(old_view, i as int, j as int, nc));
            assert(action_views(actions@) =~= if c.notifications.len() == 0 {
                spec_submit_head(service_uuid@, characteristic_uuid@, q)
            } else {
                Seq::empty()
            });
            lemma_with_characteristic_wf(old_view, i as int, j as int, SpecCharacteristic { notifications: q, ..c });
        }
        actions
    }

    /// A notification-state callback for the characteristic: answers its
    /// first waiting request (with the error, if the callback carries one),
    /// then hands the next one to CoreBluetooth. A callback for a
    /// characteristic that is not there, or that has no waiting request, is
    /// ignored: nothing names the request it would answer.
    pub fn on_notification_state_updated(
        &mut self,
        service_uuid: Uuid,
        characteristic_uuid: Uuid,
        error: Option<String>,
    ) -> (actions: Vec<PeripheralAction>)
        requires
            peripheral_wf(old(self)@),
        ensures
            peripheral_wf(final(self)@),
            (final(self)@, action_views(actions@)) == spec_notification_state_updated(
                old(self)@,
                service_uuid@,
                characteristic_uuid@,
                opt_text(error),
            ),
    {
        let ghost old_view = self@;
        proof {
            lemma_wf_exec(self);
        }
        let mut actions: Vec<PeripheralAction> = Vec::new();
        let i = match find_service(&self.services, service_uuid) {
            Some(i) => i,
            None => {
                return actions;
            },
        };
        proof {
            assert(old_view.services[i as int] == self.services@[i as int]@);
            assert(old_view.services[i as int].characteristics =~= self.services@[i as int].characteristics@.map_values(
                |c: CharacteristicState| c@,
            ));
        }
        let j = match find_characteristic(&self.services[i].characteristics, characteristic_uuid) {
            Some(j) => j,
            None => {
                return actions;
            },
        };
        if self.services[i].characteristics[j].notification_requests.len() == 0 {
            return actions;
        }
        let mut svc = self.services.remove(i);
        let mut ch = svc.characteristics.remove(j);
        let head = ch.notification_requests.pop_front();
        let request = match head {
            Some(r) => r,
            None => {
                proof {
                    assert(false);
                }
                NotificationRequest { enabled: false, ticket: 0 }
            },
        };
        let reply = match error {
            Some(e) => CoreBluetoothReply::Failure(e),
            None => CoreBluetoothReply::Success,
        };
        actions.push(PeripheralAction::Reply(request.ticket, reply));
        if ch.notification_requests.len() > 0 {
            let next = ch.notification_requests[0];
            actions.push(
                PeripheralAction::SetNotifyValue {
                    service: service_uuid,
                    characteristic: characteristic_uuid,
                    enabled: next.enabled,
                },
            );
        }
        svc.characteristics.insert(j, ch);
        self.services.insert(i, svc);
        proof {
            let c = old_view.services[i as int].characteristics[j as int];
            let q = c.notifications.drop_first();
            assert(self@.services[i as int].characteristics =~= old_view.services[i as int].characteristics.update(
                j as int,
                SpecCharacteristic { notifications: q, ..c },
            ));
            let nc = SpecCharacteristic { notifications: q, ..c };
            assert(self@.services[i as int] == SpecService { characteristics: old_view.services[i as int].characteristics.update(j as int, nc), ..old_view.services[i as int] });
            assert forall|k: int| 0 <= k < self@.services.len() && k != i implies self@.services[k] == old_view.services[k] by {
                assert(self.services@[k] == old(self).services@[k]);
            }
            assert(self@.services =~= old_view.services.update(i as int, SpecService { characteristics: old_view.services[i as int].characteristics.update(j as int, nc), ..old_view.services[i as int] }));
            assert(self@ =~= with_characteristic(old_view, i as int, j as int, nc));
            lemma_with_characteristic_wf(old_view, i as int, j as int, SpecCharacteristic { notifications: q, ..c });
        }
        actions
    }
}

/// The exec-level form of well-formedness: the UUIDs of the stored
/// attributes are distinct.
proof fn lemma_wf_exec(p: &PeripheralState)
    requires
        peripheral_wf(p@),
    ensures
        forall|i: int, j: int|
            0 <= i < j < p.services@.len() ==> p.services@[i].uuid@ != p.services@[j].uuid@,
        forall|k: int, i: int, j: int|
            #![trigger p.services@[k].characteristics@[i], p.services@[k].characteristics@[j]]
            0 <= k < p.services@.len() && 0 <= i < j < p.services@[k].characteristics@.len()
                ==> p.services@[k].characteristics@[i].uuid@ != p.services@[k].characteristics@[j].uuid@,
        forall|k: int, c: int, i: int, j: int|
            #![trigger p.services@[k].characteristics@[c].descriptors@[i], p.services@[k].characteristics@[c].descriptors@[j]]
            0 <= k < p.services@.len() && 0 <= c < p.services@[k].characteristics@.len() && 0 <= i < j
                < p.services@[k].characteristics@[c].descriptors@.len()
                ==> p.services@[k].characteristics@[c].descriptors@[i].uuid@
                != p.services@[k].characteristics@[c].descriptors@[j].uuid@,
{
    assert forall|i: int, j: int| 0 <= i < j < p.services@.len() implies p.services@[i].uuid@
        != p.services@[j].uuid@ by {
        assert(p@.services[i].uuid != p@.services[j].uuid);
    }
    assert forall|k: int, i: int, j: int|
        #![trigger p.services@[k].characteristics@[i], p.services@[k].characteristics@[j]]
        0 <= k < p.services@.len() && 0 <= i < j < p.services@[k].characteristics@.len() implies p.services@[k].characteristics@[i].uuid@
        != p.services@[k].characteristics@[j].uuid@ by {
        assert(characteristics_wf(p@.services[k].characteristics));
        assert(p@.services[k].characteristics[i].uuid != p@.services[k].characteristics[j].uuid);
    }
    assert forall|k: int, c: int, i: int, j: int|
        #![trigger p.services@[k].characteristics@[c].descriptors@[i], p.services@[k].characteristics@[c].descriptors@[j]]
        0 <= k < p.services@.len() && 0 <= c < p.services@[k].characteristics@.len() && 0 <= i < j
            < p.services@[k].characteristics@[c].descriptors@.len() implies p.services@[k].characteristics@[c].descriptors@[i].uuid@
        != p.services@[k].characteristics@[c].descriptors@[j].uuid@ by {
        assert(characteristics_wf(p@.services[k].characteristics));
        assert(descriptors_distinct(p@.services[k].characteristics[c].descriptors));
        assert(p@.services[k].characteristics[c].descriptors[i].uuid
            != p@.services[k].characteristics[c].descriptors[j].uuid);
    }
}

/// Replacing a characteristic by one with the same UUID and descriptor
/// UUIDs keeps a peripheral well formed.
proof fn lemma_with_characteristic_wf(p: SpecPeripheral, i: int, j: int, c: SpecCharacteristic)
    requires
        peripheral_wf(p),
        0 <= i < p.services.len(),
        0 <= j < p.services[i].characteristics.len(),
        c.uuid == p.services[i].characteristics[j].uuid,
        descriptors_distinct(c.descriptors),
    ensures
        peripheral_wf(with_characteristic(p, i, j, c)),
{
    let q = with_characteristic(p, i, j, c);
    assert(characteristics_wf(p.services[i].characteristics));
    assert forall|k: int| 0 <= k < q.services.len() implies characteristics_wf(
        #[trigger] q.services[k].characteristics,
    ) by {
        if k != i {
            assert(q.services[k] == p.services[k]);
        } else {
            let cs = q.services[k].characteristics;
            assert forall|a: int| 0 <= a < cs.len() implies descriptors_distinct(
                #[trigger] cs[a].descriptors,
            ) by {
                if a != j {
                    assert(cs[a] == p.services[i].characteristics[a]);
                }
            }
        }
    }
}

/// Error replies with this message to each ticket, in order.
pub open spec fn spec_errs(ts: Seq<u64>, msg: Seq<char>) -> Seq<SpecAction> {
    ts.map_values(|t: u64| spec_err(t, msg))
}

/// The tickets waiting on descriptors, descriptor by descriptor: reads,
/// then writes.
pub open spec fn descriptors_tickets(ds: Seq<SpecDescriptor>) -> Seq<u64>
    decreases ds.len(),
{
    if ds.len() == 0 {
        Seq::empty()
    } else {
        descriptors_tickets(ds.drop_last()) + ds.last().reads + ds.last().writes
    }
}

/// The tickets waiting on a characteristic: reads, writes, notification
/// requests (the one handed to CoreBluetooth first), then its descriptors'.
pub open spec fn characteristic_tickets(c: SpecCharacteristic) -> Seq<u64> {
    c.reads + c.writes + c.notifications.map_values(|r: NotificationRequest| r.ticket) + descriptors_tickets(
        c.descriptors,
    )
}

/// The tickets waiting on characteristics, characteristic by characteristic.
pub open spec fn characteristics_tickets(cs: Seq<SpecCharacteristic>) -> Seq<u64>
    decreases cs.len(),
{
    if cs.len() == 0 {
        Seq::empty()
    } else {
        characteristics_tickets(cs.drop_last()) + characteristic_tickets(cs.last())
    }
}

/// The tickets waiting on services' attributes, service by service.
pub open spec fn services_tickets(ss: Seq<SpecService>) -> Seq<u64>
    decreases ss.len(),
{
    if ss.len() == 0 {
        Seq::empty()
    } else {
        services_tickets(ss.drop_last()) + characteristics_tickets(ss.last().characteristics)
    }
}

/// The ticket in `o`, if any, as a sequence.
pub open spec fn opt_ticket(o: Option<u64>) -> Seq<u64> {
    match o {
        Some(t) => seq![t],
        None => Seq::empty(),
    }
}

/// Every ticket waiting on the peripheral: a disconnection, a connection,
/// service discovery, signal strength reads, writes waiting to be sent,
/// then those waiting on its attributes.
pub open spec fn pending_tickets(p: SpecPeripheral) -> Seq<u64> {
    opt_ticket(p.disconnected) + opt_ticket(p.connected) + opt_ticket(p.services_discovered) + p.rssi_reads
        + p.pending_writes.map_values(|w: SpecPendingWrite| w.ticket) + services_tickets(p.services)
}

/// A descriptor with nothing waiting on it.
pub open spec fn drained_descriptor(d: SpecDescriptor) -> SpecDescriptor {
    SpecDescriptor { reads: Seq::empty(), writes: Seq::empty(), ..d }
}

/// A characteristic with nothing waiting on it or its descriptors.
pub open spec fn drained_characteristic(c: SpecCharacteristic) -> SpecCharacteristic {
    SpecCharacteristic {
        descriptors: c.descriptors.map_values(|d: SpecDescriptor| drained_descriptor(d)),
        reads: Seq::empty(),
        writes: Seq::empty(),
        notifications: Seq::empty(),
        ..c
    }
}

/// A service with nothing waiting on its attributes.
pub open spec fn drained_service(s: SpecService) -> SpecService {
    SpecService { characteristics: s.characteristics.map_values(|c: SpecCharacteristic| drained_characteristic(c)), ..s }
}

/// The peripheral with its attributes as they are and nothing waiting.
pub open spec fn drained(p: SpecPeripheral) -> SpecPeripheral {
    SpecPeripheral {
        services: p.services.map_values(|s: SpecService| drained_service(s)),
        connected: None,
        disconnected: None,
        services_discovered: None,
        rssi_reads: Seq::empty(),
        pending_writes: Seq::empty(),
    }
}

/// Answers every ticket in the queue with the error, in queue order.
fn drain_queue(q: &mut VecDeque<u64>, msg: &String, actions: &mut Vec<PeripheralAction>)
    ensures
        final(q)@ == Seq::<u64>::empty(),
        action_views(final(actions)@) == action_views(old(actions)@) + spec_errs(old(q)@, msg@),
{
    let ghost start = action_views(actions@);
    let ghost orig = q@;
    let n0: usize = q.len();
    let mut k: usize = 0;
    while q.len() > 0
        invariant
            k <= orig.len(),
            orig.len() == n0,
            q@ == orig.subrange(k as int, orig.len() as int),
            action_views(actions@) == start + spec_errs(orig.take(k as int), msg@),
        decreases q@.len(),
    {
        let ghost qq = q@;
        let ghost prev = actions@;
        let t = q.pop_front().unwrap();
        let m = msg.clone();
        let a = PeripheralAction::Reply(t, CoreBluetoothReply::Failure(m));
        assert(a@ == spec_err(t, msg@));
        actions.push(a);
        proof {
            assert(action_views(actions@) =~= action_views(prev).push(spec_err(t, msg@)));
            assert(t == qq[0]);
            assert(qq[0] == orig[k as int]);
            assert(q@ =~= orig.subrange(k + 1, orig.len() as int));
            assert(orig.take(k + 1) =~= orig.take(k as int).push(t));
            assert(spec_errs(orig.take(k + 1), msg@) =~= spec_errs(orig.take(k as int), msg@).push(
                spec_err(t, msg@),
            ));
            assert(action_views(actions@) =~= start + spec_errs(orig.take(k + 1), msg@));
        }
        k = k + 1;
    }
    assert(orig.take(k as int) =~= orig);
    assert(q@ =~= Seq::<u64>::empty());
}

fn drain_notification_queue(q: &mut VecDeque<NotificationRequest>, msg: &String, actions: &mut Vec<PeripheralAction>)
    ensures
        final(q)@ == Seq::<NotificationRequest>::empty(),
        action_views(final(actions)@) == action_views(old(actions)@) + spec_errs(
            old(q)@.map_values(|r: NotificationRequest| r.ticket),
            msg@,
        ),
{
    let ghost start = action_views(actions@);
    let ghost orig = q@;
    let n0: usize = q.len();
    let mut k: usize = 0;
    while q.len() > 0
        invariant
            k <= orig.len(),
            orig.len() == n0,
            q@ == orig.subrange(k as int, orig.len() as int),
            action_views(actions@) == start + spec_errs(
                orig.take(k as int).map_values(|r: NotificationRequest| r.ticket),
                msg@,
            ),
        decreases q@.len(),
    {
        let ghost qq = q@;
        let ghost prev = actions@;
        let r = q.pop_front().unwrap();
        let m = msg.clone();
        let a = PeripheralAction::Reply(r.ticket, CoreBluetoothReply::Failure(m));
        assert(a@ == spec_err(r.ticket, msg@));
        actions.push(a);
        proof {
            assert(action_views(actions@) =~= action_views(prev).push(spec_err(r.ticket, msg@)));
            assert(r == qq[0]);
            assert(q@ =~= orig.subrange(k + 1, orig.len() as int));
            assert(r == orig[k as int]);
            assert(orig.take(k + 1).map_values(|r: NotificationRequest| r.ticket) =~= orig.take(
                k as int,
            ).map_values(|r: NotificationRequest| r.ticket).push(r.ticket));
            assert(action_views(actions@) =~= start + spec_errs(
                orig.take(k + 1).map_values(|r: NotificationRequest| r.ticket),
                msg@,
            ));
        }
        k = k + 1;
    }
    assert(orig.take(k as int) =~= orig);
    assert(q@ =~= Seq::<NotificationRequest>::empty());
}

impl DescriptorState {
    fn drain(&mut self, msg: &String, actions: &mut Vec<PeripheralAction>)
        ensures
            final(self)@ == drained_descriptor(old(self)@),
            action_views(final(actions)@) == action_views(old(actions)@) + spec_errs(
                old(self)@.reads + old(self)@.writes,
                msg@,
            ),
    {
        drain_queue(&mut self.read_queue, msg, actions);
        drain_queue(&mut self.write_queue, msg, actions);
        proof {
            assert(spec_errs(old(self)@.reads + old(self)@.writes, msg@) =~= spec_errs(old(self)@.reads, msg@)
                + spec_errs(old(self)@.writes, msg@));
        }
    }
}

impl CharacteristicState {
    fn drain(&mut self, msg: &String, actions: &mut Vec<PeripheralAction>)
        ensures
            final(self)@ == drained_characteristic(old(self)@),
            action_views(final(actions)@) == action_views(old(actions)@) + spec_errs(
                characteristic_tickets(old(self)@),
                msg@,
            ),
    {
        let ghost old_view = self@;
        let ghost start = action_views(actions@);
        drain_queue(&mut self.read_queue, msg, actions);
        drain_queue(&mut self.write_queue, msg, actions);
        drain_notification_queue(&mut self.notification_requests, msg, actions);
        let ghost mid = action_views(actions@);
        let mut descs: Vec<DescriptorState> = Vec::new();
        std::mem::swap(&mut descs, &mut self.descriptors);
        let ghost orig = descs@.map_values(|d: DescriptorState| d@);
        let n: usize = descs.len();
        let mut out: Vec<DescriptorState> = Vec::new();
        let mut k: usize = 0;
        while k < n
            invariant
                k <= n,
                n == orig.len(),
                descs@.len() == n - k,
                forall|a: int| 0 <= a < n - k ==> #[trigger] descs@[a]@ == orig[a + k],
                out@.len() == k,
                forall|a: int| 0 <= a < k ==> #[trigger] out@[a]@ == drained_descriptor(orig[a]),
                action_views(actions@) == mid + spec_errs(descriptors_tickets(orig.take(k as int)), msg@),
            decreases n - k,
        {
            let mut d = descs.remove(0);
            let ghost before = action_views(actions@);
            d.drain(msg, actions);
            out.push(d);
            proof {
                let t = orig.take(k + 1);
                assert(t.drop_last() =~= orig.take(k as int));
                assert(t.last() == orig[k as int]);
                assert(descriptors_tickets(t) == descriptors_tickets(orig.take(k as int)) + orig[k as int].reads
                    + orig[k as int].writes);
                assert(spec_errs(descriptors_tickets(t), msg@) =~= spec_errs(
                    descriptors_tickets(orig.take(k as int)),
                    msg@,
                ) + spec_errs(orig[k as int].reads + orig[k as int].writes, msg@));
                assert(action_views(actions@) =~= mid + spec_errs(descriptors_tickets(t), msg@));
            }
            k = k + 1;
        }
        self.descriptors = out;
        proof {
            assert(orig.take(n as int) =~= orig);
            assert(self@.descriptors =~= orig.map_values(|d: SpecDescriptor| drained_descriptor(d)));
            assert(orig == old_view.descriptors);
            assert(self@ =~= drained_characteristic(old_view));
            let c = old_view;
            assert(spec_errs(characteristic_tickets(c), msg@) =~= spec_errs(c.reads, msg@) + spec_errs(
                c.writes,
                msg@,
            ) + spec_errs(c.notifications.map_values(|r: NotificationRequest| r.ticket), msg@) + spec_errs(
                descriptors_tickets(c.descriptors),
                msg@,
            ));
        }
    }
}

impl ServiceState {
    fn drain(&mut self, msg: &String, actions: &mut Vec<PeripheralAction>)
        ensures
            final(self)@ == drained_service(old(self)@),
            action_views(final(actions)@) == action_views(old(actions)@) + spec_errs(
                characteristics_tickets(old(self)@.characteristics),
                msg@,
            ),
    {
        let ghost old_view = self@;
        let ghost start = action_views(actions@);
        let mut chars: Vec<CharacteristicState> = Vec::new();
        std::mem::swap(&mut chars, &mut self.characteristics);
        let ghost orig = chars@.map_values(|c: CharacteristicState| c@);
        let n: usize = chars.len();
        let mut out: Vec<CharacteristicState> = Vec::new();
        let mut k: usize = 0;
        while k < n
            invariant
                k <= n,
                n == orig.len(),
                chars@.len() == n - k,
                forall|a: int| 0 <= a < n - k ==> #[trigger] chars@[a]@ == orig[a + k],
                out@.len() == k,
                forall|a: int| 0 <= a < k ==> #[trigger] out@[a]@ == drained_characteristic(orig[a]),
                action_views(actions@) == start + spec_errs(characteristics_tickets(orig.take(k as int)), msg@),
            decreases n - k,
        {
            let mut c = chars.remove(0);
            c.drain(msg, actions);
            out.push(c);
            proof {
                let t = orig.take(k + 1);
                assert(t.drop_last() =~= orig.take(k as int));
                assert(t.last() == orig[k as int]);
                assert(spec_errs(characteristics_tickets(t), msg@) =~= spec_errs(
                    characteristics_tickets(orig.take(k as int)),
                    msg@,
                ) + spec_errs(characteristic_tickets(orig[k as int]), msg@));
                assert(action_views(actions@) =~= start + spec_errs(characteristics_tickets(t), msg@));
            }
            k = k + 1;
        }
        self.characteristics = out;
        proof {
            assert(orig.take(n as int) =~= orig);
            assert(self@.characteristics =~= orig.map_values(|c: SpecCharacteristic| drained_characteristic(c)));
            assert(self@ =~= drained_service(old_view));
        }
    }
}

impl PeripheralState {
    /// Answers every operation that waits on the peripheral with the error
    /// `message`, once each and in the order of [`pending_tickets`], and
    /// leaves nothing waiting. Nothing is handed to CoreBluetooth.
    pub fn drain_pending_operations(&mut self, message: &str) -> (actions: Vec<PeripheralAction>)
        ensures
            final(self)@ == drained(old(self)@),
            action_views(actions@) == spec_errs(pending_tickets(old(self)@), message@),
    {
        let ghost old_view = self@;
        let msg = String::from_str(message);
        let mut actions: Vec<PeripheralAction> = Vec::new();
        let mut firsts: VecDeque<u64> = VecDeque::new();
        if let Some(t) = self.disconnected.take() {
            firsts.push_back(t);
        }
        if let Some(t) = self.connected.take() {
            firsts.push_back(t);
        }
        if let Some(t) = self.services_discovered.take() {
            firsts.push_back(t);
        }
        proof {
            assert(firsts@ =~= opt_ticket(old_view.disconnected) + opt_ticket(old_view.connected) + opt_ticket(
                old_view.services_discovered,
            ));
        }
        drain_queue(&mut firsts, &msg, &mut actions);
        drain_queue(&mut self.read_rssi_queue, &msg, &mut actions);
        let ghost after_rssi = action_views(actions@);
        let ghost writes = old_view.pending_writes;
        let mut wq: VecDeque<PendingWrite> = VecDeque::new();
        std::mem::swap(&mut wq, &mut self.write_without_response_queue);
        let w0: usize = wq.len();
        let mut k: usize = 0;
        while wq.len() > 0
            invariant
                k <= writes.len(),
                writes.len() == w0,
                wq@.map_values(|w: PendingWrite| w@) == writes.subrange(
                    k as int,
                    writes.len() as int,
                ),
                action_views(actions@) == after_rssi + spec_errs(
                    writes.take(k as int).map_values(|w: SpecPendingWrite| w.ticket),
                    msg@,
                ),
            decreases wq@.len(),
        {
            let ghost q = wq@;
            let ghost prev = actions@;
            proof {
                assert(q.map_values(|w: PendingWrite| w@).len() == q.len());
                assert(writes.subrange(k as int, writes.len() as int).len() == writes.len() - k);
                assert(k < writes.len());
            }
            let w = wq.pop_front().unwrap();
            proof {
                assert(w == q[0]);
                let qm = q.map_values(|w: PendingWrite| w@);
                assert(qm == writes.subrange(k as int, writes.len() as int));
                assert(qm[0] == q[0]@);
                assert(qm[0] == writes[k as int]);
                assert(w@ == writes[k as int]);
                assert(wq@ =~= q.drop_first());
                assert(wq@.map_values(|w: PendingWrite| w@) =~= qm.drop_first());
                assert(qm.drop_first() =~= writes.subrange(k + 1, writes.len() as int));
                assert(wq@.map_values(|w: PendingWrite| w@)
                    =~= writes.subrange(k + 1, writes.len() as int));
            }
            let m = msg.clone();
            let a = PeripheralAction::Reply(w.ticket, CoreBluetoothReply::Failure(m));
            assert(a@ == spec_err(w.ticket, msg@));
            actions.push(a);
            proof {
                assert(action_views(actions@) =~= action_views(prev).push(spec_err(w.ticket, msg@)));
                assert(writes.take(k + 1) =~= writes.take(k as int).push(writes[k as int]));
                assert(writes.take(k + 1).map_values(|w: SpecPendingWrite| w.ticket) =~= writes.take(
                    k as int,
                ).map_values(|w: SpecPendingWrite| w.ticket).push(w.ticket));
                assert(action_views(actions@) =~= after_rssi + spec_errs(
                    writes.take(k + 1).map_values(|w: SpecPendingWrite| w.ticket),
                    msg@,
                ));
            }
            k = k + 1;
        }
        proof {
            assert(writes.take(k as int) =~= writes);
        }
        let ghost after_writes = action_views(actions@);
        let mut services: Vec<ServiceState> = Vec::new();
        std::mem::swap(&mut services, &mut self.services);
        let ghost orig = services@.map_values(|s: ServiceState| s@);
        let n: usize = services.len();
        let mut out: Vec<ServiceState> = Vec::new();
        let mut k: usize = 0;
        while k < n
            invariant
                k <= n,
                n == orig.len(),
                services@.len() == n - k,
                forall|a: int| 0 <= a < n - k ==> #[trigger] services@[a]@ == orig[a + k],
                out@.len() == k,
                forall|a: int| 0 <= a < k ==> #[trigger] out@[a]@ == drained_service(orig[a]),
                action_views(actions@) == after_writes + spec_errs(services_tickets(orig.take(k as int)), msg@),
            decreases n - k,
        {
            let mut svc = services.remove(0);
            svc.drain(&msg, &mut actions);
            out.push(svc);
            proof {
                let t = orig.take(k + 1);
                assert(t.drop_last() =~= orig.take(k as int));
                assert(t.last() == orig[k as int]);
                assert(spec_errs(services_tickets(t), msg@) =~= spec_errs(services_tickets(orig.take(k as int)), msg@)
                    + spec_errs(characteristics_tickets(orig[k as int].characteristics), msg@));
                assert(action_views(actions@) =~= after_writes + spec_errs(services_tickets(t), msg@));
            }
            k = k + 1;
        }
        self.services = out;
        proof {
            assert(orig.take(n as int) =~= orig);
            assert(self@.services =~= orig.map_values(|s: SpecService| drained_service(s)));
            assert(wq@.map_values(|w: PendingWrite| w@) =~= Seq::<SpecPendingWrite>::empty());
            assert(self@.pending_writes =~= Seq::<SpecPendingWrite>::empty());
            assert(self@.rssi_reads =~= Seq::<u64>::empty());
            assert(self@.connected is None);
            assert(self@.disconnected is None);
            assert(self@.services_discovered is None);
            assert(self@ =~= drained(old_view));
            let p = old_view;
            assert(spec_errs(pending_tickets(p), msg@) =~= spec_errs(
                opt_ticket(p.disconnected) + opt_ticket(p.connected) + opt_ticket(p.services_discovered),
                msg@,
            ) + spec_errs(p.rssi_reads, msg@) + spec_errs(
                p.pending_writes.map_values(|w: SpecPendingWrite| w.ticket),
                msg@,
            ) + spec_errs(services_tickets(p.services), msg@));
        }
        actions
    }

    /// The peripheral disconnected: every operation waiting on it is
    /// answered with `"Device disconnected"`.
    pub fn confirm_disconnect(&mut self) -> (actions: Vec<PeripheralAction>)
        ensures
            final(self)@ == drained(old(self)@),
            action_views(actions@) == spec_errs(pending_tickets(old(self)@), "Device disconnected"@),
    {
        self.drain_pending_operations("Device disconnected")
    }
}

/// `p` with the descriptor at `(i, j, k)` replaced by `d`.
pub open spec fn with_descriptor(p: SpecPeripheral, i: int, j: int, k: int, d: SpecDescriptor) -> SpecPeripheral {
    let c = p.services[i].characteristics[j];
    with_characteristic(p, i, j, SpecCharacteristic { descriptors: c.descriptors.update(k, d), ..c })
}

/// The position of descriptor `du` of characteristic `cu` of service `su`,
/// if all three exist.
pub open spec fn descriptor_location(p: SpecPeripheral, su: u128, cu: u128, du: u128) -> Option<(int, int, int)> {
    match char_location(p, su, cu) {
        None => None,
        Some((i, j)) => match descriptor_pos(p.services[i].characteristics[j].descriptors, du) {
            None => None,
            Some(k) => Some((i, j, k)),
        },
    }
}

/// The reply to an operation on descriptor `du` when it, its
/// characteristic or its service is not there.
pub open spec fn spec_descriptor_missing(p: SpecPeripheral, su: u128, cu: u128, ticket: u64) -> SpecAction {
    if char_location(p, su, cu) is None {
        spec_char_missing(p, su, ticket)
    } else {
        spec_err(ticket, spec_missing("Descriptor"@))
    }
}

proof fn lemma_with_characteristic_twice(p: SpecPeripheral, i: int, j: int, c1: SpecCharacteristic, c2: SpecCharacteristic)
    requires
        0 <= i < p.services.len(),
        0 <= j < p.services[i].characteristics.len(),
    ensures
        with_characteristic(with_characteristic(p, i, j, c1), i, j, c2) == with_characteristic(p, i, j, c2),
{
    let a = with_characteristic(with_characteristic(p, i, j, c1), i, j, c2);
    let b = with_characteristic(p, i, j, c2);
    assert(a.services[i].characteristics =~= b.services[i].characteristics);
    assert(a.services =~= b.services);
}

impl CharacteristicState {
    /// A characteristic with this UUID, no properties, no descriptors and
    /// nothing waiting.
    fn empty(uuid: Uuid) -> (c: CharacteristicState)
        ensures
            c@ == (SpecCharacteristic {
                uuid: uuid@,
                properties: 0,
                descriptors: Seq::empty(),
                discovered: false,
                reads: Seq::empty(),
                writes: Seq::empty(),
                notifications: Seq::empty(),
            }),
    {
        let c = CharacteristicState {
            uuid,
            properties: CharPropFlags::empty(),
            descriptors: Vec::new(),
            discovered: false,
            read_queue: VecDeque::new(),
            write_queue: VecDeque::new(),
            notification_requests: VecDeque::new(),
        };
        assert(c@.descriptors =~= Seq::<SpecDescriptor>::empty());
        c
    }
}

impl DescriptorState {
    /// A descriptor with this UUID and nothing waiting.
    fn empty(uuid: Uuid) -> (d: DescriptorState)
        ensures
            d@ == (SpecDescriptor { uuid: uuid@, reads: Seq::empty(), writes: Seq::empty() }),
    {
        DescriptorState { uuid, read_queue: VecDeque::new(), write_queue: VecDeque::new() }
    }
}

impl PeripheralState {
    /// Puts `c` in place of the characteristic at `(i, j)` and gives back
    /// the one that was there.
    fn swap_characteristic(&mut self, i: usize, j: usize, c: CharacteristicState) -> (prev: CharacteristicState)
        requires
            i < old(self)@.services.len(),
            j < old(self)@.services[i as int].characteristics.len(),
        ensures
            prev@ == old(self)@.services[i as int].characteristics[j as int],
            final(self)@ == with_characteristic(old(self)@, i as int, j as int, c@),
    {
        let ghost old_view = self@;
        let mut svc = self.services.remove(i);
        let prev = svc.characteristics.remove(j);
        svc.characteristics.insert(j, c);
        self.services.insert(i, svc);
        proof {
            assert(old_view.services[i as int] == old(self).services@[i as int]@);
            assert(self@.services[i as int].characteristics =~= old_view.services[i as int].characteristics.update(
                j as int,
                c@,
            ));
            assert forall|k: int| 0 <= k < self@.services.len() && k != i implies self@.services[k]
                == old_view.services[k] by {
                assert(self.services@[k] == old(self).services@[k]);
            }
            assert(self@.services =~= with_characteristic(old_view, i as int, j as int, c@).services);
        }
        prev
    }

    /// Takes the characteristic at `(i, j)` out, leaving an empty one with
    /// the same UUID in its place until it is put back.
    fn take_characteristic(&mut self, i: usize, j: usize) -> (c: CharacteristicState)
        requires
            i < old(self)@.services.len(),
            j < old(self)@.services[i as int].characteristics.len(),
        ensures
            c@ == old(self)@.services[i as int].characteristics[j as int],
            final(self)@.services.len() == old(self)@.services.len(),
            final(self)@.services[i as int].characteristics.len() == old(self)@.services[i as int].characteristics.len(),
            forall|c2: SpecCharacteristic|
                with_characteristic(final(self)@, i as int, j as int, c2) == with_characteristic(
                    old(self)@,
                    i as int,
                    j as int,
                    c2,
                ),
    {
        let ghost old_view = self@;
        let u = self.services[i].characteristics[j].uuid;
        let placeholder = CharacteristicState::empty(u);
        let ghost pv = placeholder@;
        let c = self.swap_characteristic(i, j, placeholder);
        proof {
            assert forall|c2: SpecCharacteristic|
                with_characteristic(self@, i as int, j as int, c2) == with_characteristic(
                    old_view,
                    i as int,
                    j as int,
                    c2,
                ) by {
                lemma_with_characteristic_twice(old_view, i as int, j as int, pv, c2);
            }
        }
        c
    }
}

/// The reply to an operation that waited on a characteristic or descriptor
/// callback that carries this error, if any.
pub open spec fn spec_done(error: Option<String>) -> SpecReply {
    match error {
        Some(e) => SpecReply::Failure(e@),
        None => SpecReply::Success,
    }
}

fn done_reply(error: Option<String>) -> (r: CoreBluetoothReply)
    ensures
        r@ == spec_done(error),
{
    match error {
        Some(e) => CoreBluetoothReply::Failure(e),
        None => CoreBluetoothReply::Success,
    }
}

impl PeripheralState {
    /// Where characteristic `cu` of service `su` is; when it is not there,
    /// whether the service is the one missing.
    fn locate(&self, su: Uuid, cu: Uuid) -> (r: Result<(usize, usize), bool>)
        requires
            peripheral_wf(self@),
        ensures
            match r {
                Ok((i, j)) => char_location(self@, su@, cu@) == Some((i as int, j as int)) && i < self@.services.len()
                    && j < self@.services[i as int].characteristics.len(),
                Err(service_missing) => char_location(self@, su@, cu@) is None && service_missing == (service_pos(
                    self@.services,
                    su@,
                ) is None),
            },
    {
        proof {
            lemma_wf_exec(self);
        }
        let i = match find_service(&self.services, su) {
            Some(i) => i,
            None => {
                return Err(true);
            },
        };
        proof {
            assert(self@.services[i as int].characteristics =~= self.services@[i as int].characteristics@.map_values(
                |c: CharacteristicState| c@,
            ));
        }
        match find_characteristic(&self.services[i].characteristics, cu) {
            Some(j) => Ok((i, j)),
            None => Err(false),
        }
    }

    /// Where descriptor `du` of characteristic `cu` of service `su` is.
    fn locate_descriptor(&self, su: Uuid, cu: Uuid, du: Uuid) -> (r: Option<(usize, usize, usize)>)
        requires
            peripheral_wf(self@),
        ensures
            match r {
                Some((i, j, k)) => descriptor_location(self@, su@, cu@, du@) == Some((i as int, j as int, k as int))
                    && i < self@.services.len() && j < self@.services[i as int].characteristics.len() && k
                    < self@.services[i as int].characteristics[j as int].descriptors.len(),
                None => descriptor_location(self@, su@, cu@, du@) is None,
            },
    {
        proof {
            lemma_wf_exec(self);
        }
        match self.locate(su, cu) {
            Err(_) => None,
            Ok((i, j)) => {
                proof {
                    assert(self@.services[i as int].characteristics[j as int].descriptors
                        =~= self.services@[i as int].characteristics@[j as int].descriptors@.map_values(
                        |d: DescriptorState| d@,
                    ));
                }
                match find_descriptor(&self.services[i].characteristics[j].descriptors, du) {
                    Some(k) => Some((i, j, k)),
                    None => None,
                }
            },
        }
    }

    /// Reads a characteristic's value: hands the read to CoreBluetooth and
    /// waits for its callback.
    pub fn read_value(&mut self, service_uuid: Uuid, characteristic_uuid: Uuid, ticket: u64) -> (actions: Vec<
        PeripheralAction,
    >)
        requires
            peripheral_wf(old(self)@),
        ensures
            peripheral_wf(final(self)@),
            match char_location(old(self)@, service_uuid@, characteristic_uuid@) {
                None => final(self)@ == old(self)@ && action_views(actions@) == seq![
                    spec_char_missing(old(self)@, service_uuid@, ticket),
                ],
                Some((i, j)) => {
                    let c = old(self)@.services[i].characteristics[j];
                    &&& final(self)@ == with_characteristic(
                        old(self)@,
                        i,
                        j,
                        SpecCharacteristic { reads: c.reads.push(ticket), ..c },
                    )
                    &&& action_views(actions@) == seq![
                        SpecAction::ReadValue { service: service_uuid@, characteristic: characteristic_uuid@ },
                    ]
                },
            },
    {
        let ghost old_view = self@;
        let mut actions: Vec<PeripheralAction> = Vec::new();
        match self.locate(service_uuid, characteristic_uuid) {
            Err(service_missing) => {
                let what = if service_missing {
                    "Service"
                } else {
                    "Characteristic"
                };
                actions.push(missing(ticket, what));
                assert(action_views(actions@) =~= seq![spec_char_missing(old_view, service_uuid@, ticket)]);
            },
            Ok((i, j)) => {
                actions.push(PeripheralAction::ReadValue { service: service_uuid, characteristic: characteristic_uuid });
                let mut c = self.take_characteristic(i, j);
                c.read_queue.push_back(ticket);
                let ghost cv = c@;
                let _ = self.swap_characteristic(i, j, c);
                proof {
                    assert(cv == SpecCharacteristic { reads: old_view.services[i as int].characteristics[j as int].reads.push(ticket), ..old_view.services[i as int].characteristics[j as int] });
                    assert(characteristics_wf(old_view.services[i as int].characteristics));
                    lemma_with_characteristic_wf(old_view, i as int, j as int, cv);
                    assert(action_views(actions@) =~= seq![
                        SpecAction::ReadValue { service: service_uuid@, characteristic: characteristic_uuid@ },
                    ]);
                }
            },
        }
        actions
    }

    /// Writes a characteristic's value. A write with response waits for its
    /// callback. A write without response is handed over and answered at
    /// once when the peripheral can take it (`can_send`), and otherwise
    /// waits in the peripheral's write queue.
    pub fn write_value(
        &mut self,
        service_uuid: Uuid,
        characteristic_uuid: Uuid,
        data: Vec<u8>,
        kind: WriteType,
        ticket: u64,
        can_send: bool,
    ) -> (actions: Vec<PeripheralAction>)
        requires
            peripheral_wf(old(self)@),
        ensures
            peripheral_wf(final(self)@),
            match char_location(old(self)@, service_uuid@, characteristic_uuid@) {
                None => final(self)@ == old(self)@ && action_views(actions@) == seq![
                    spec_char_missing(old(self)@, service_uuid@, ticket),
                ],
                Some((i, j)) => {
                    let c = old(self)@.services[i].characteristics[j];
                    match kind {
                        WriteType::WithResponse => {
                            &&& final(self)@ == with_characteristic(
                                old(self)@,
                                i,
                                j,
                                SpecCharacteristic { writes: c.writes.push(ticket), ..c },
                            )
                            &&& action_views(actions@) == seq![
                                SpecAction::WriteValue {
                                    service: service_uuid@,
                                    characteristic: characteristic_uuid@,
                                    data: data@,
                                    with_response: true,
                                },
                            ]
                        },
                        WriteType::WithoutResponse => if can_send {
                            &&& final(self)@ == old(self)@
                            &&& action_views(actions@) == seq![
                                SpecAction::WriteValue {
                                    service: service_uuid@,
                                    characteristic: characteristic_uuid@,
                                    data: data@,
                                    with_response: false,
                                },
                                SpecAction::Reply(ticket, SpecReply::Success),
                            ]
                        } else {
                            &&& final(self)@ == (SpecPeripheral {
                                pending_writes: old(self)@.pending_writes.push(
                                    SpecPendingWrite {
                                        service: service_uuid@,
                                        characteristic: characteristic_uuid@,
                                        data: data@,
                                        ticket,
                                    },
                                ),
                                ..old(self)@
                            })
                            &&& actions@.len() == 0
                        },
                    }
                },
            },
    {
        let ghost old_view = self@;
        let mut actions: Vec<PeripheralAction> = Vec::new();
        match self.locate(service_uuid, characteristic_uuid) {
            Err(service_missing) => {
                let what = if service_missing {
                    "Service"
                } else {
                    "Characteristic"
                };
                actions.push(missing(ticket, what));
                assert(action_views(actions@) =~= seq![spec_char_missing(old_view, service_uuid@, ticket)]);
            },
            Ok((i, j)) => {
                match kind {
                    WriteType::WithoutResponse => {
                        if can_send {
                            actions.push(
                                PeripheralAction::WriteValue {
                                    service: service_uuid,
                                    characteristic: characteristic_uuid,
                                    data,
                                    with_response: false,
                                },
                            );
                            actions.push(PeripheralAction::Reply(ticket, CoreBluetoothReply::Success));
                        } else {
                            let ghost qv = self.write_without_response_queue@;
                            let w = PendingWrite {
                                service_uuid,
                                characteristic_uuid,
                                data,
                                ticket,
                            };
                            self.write_without_response_queue.push_back(w);
                            proof {
                                assert(self@.pending_writes =~= old_view.pending_writes.push(w@));
                                assert(self@.services == old_view.services);
                            }
                        }
                    },
                    WriteType::WithResponse => {
                        actions.push(
                            PeripheralAction::WriteValue {
                                service: service_uuid,
                                characteristic: characteristic_uuid,
                                data,
                                with_response: true,
                            },
                        );
                        let mut c = self.take_characteristic(i, j);
                        c.write_queue.push_back(ticket);
                        let ghost cv = c@;
                        let _ = self.swap_characteristic(i, j, c);
                        proof {
                            assert(characteristics_wf(old_view.services[i as int].characteristics));
                            lemma_with_characteristic_wf(old_view, i as int, j as int, cv);
                        }
                    },
                }
            },
        }
        actions
    }

    /// A read callback of a characteristic, with the value or an error. The
    /// first waiting read is answered with either; a value with no read
    /// waiting is a notification for the peripheral's listeners. A callback
    /// for a characteristic that is not there is ignored.
    pub fn on_characteristic_read(
        &mut self,
        service_uuid: Uuid,
        characteristic_uuid: Uuid,
        data: Vec<u8>,
        error: Option<String>,
    ) -> (actions: Vec<PeripheralAction>)
        requires
            peripheral_wf(old(self)@),
        ensures
            peripheral_wf(final(self)@),
            match char_location(old(self)@, service_uuid@, characteristic_uuid@) {
                None => final(self)@ == old(self)@ && actions@.len() == 0,
                Some((i, j)) => {
                    let c = old(self)@.services[i].characteristics[j];
                    if c.reads.len() == 0 {
                        &&& final(self)@ == old(self)@
                        &&& action_views(actions@) == match error {
                            Some(_) => Seq::empty(),
                            None => seq![
                                SpecAction::Notification {
                                    characteristic: characteristic_uuid@,
                                    service: service_uuid@,
                                    data: data@,
                                },
                            ],
                        }
                    } else {
                        &&& final(self)@ == with_characteristic(
                            old(self)@,
                            i,
                            j,
                            SpecCharacteristic { reads: c.reads.drop_first(), ..c },
                        )
                        &&& action_views(actions@) == seq![
                            SpecAction::Reply(
                                c.reads[0],
                                match error {
                                    Some(e) => SpecReply::Failure(e@),
                                    None => SpecReply::ReadResult(data@),
                                },
                            ),
                        ]
                    }
                },
            },
    {
        let ghost old_view = self@;
        let mut actions: Vec<PeripheralAction> = Vec::new();
        if let Ok((i, j)) = self.locate(service_uuid, characteristic_uuid) {
            if self.services[i].characteristics[j].read_queue.len() == 0 {
                proof {
                    assert(self.services@[i as int].characteristics@[j as int].read_queue@ == old_view.services[i as int].characteristics[j as int].reads);
                }
                if error.is_none() {
                    actions.push(
                        PeripheralAction::Notification {
                            characteristic: characteristic_uuid,
                            service: service_uuid,
                            data,
                        },
                    );
                }
                proof {
                    assert(action_views(actions@) =~= match error {
                        Some(_) => Seq::empty(),
                        None => seq![
                            SpecAction::Notification {
                                characteristic: characteristic_uuid@,
                                service: service_uuid@,
                                data: data@,
                            },
                        ],
                    });
                }
            } else {
                proof {
                    assert(self.services@[i as int].characteristics@[j as int].read_queue@ == old_view.services[i as int].characteristics[j as int].reads);
                }
                let mut c = self.take_characteristic(i, j);
                let t = c.read_queue.pop_front().unwrap();
                let reply = match error {
                    Some(e) => CoreBluetoothReply::Failure(e),
                    None => CoreBluetoothReply::ReadResult(data),
                };
                actions.push(PeripheralAction::Reply(t, reply));
                let ghost cv = c@;
                let _ = self.swap_characteristic(i, j, c);
                proof {
                    assert(characteristics_wf(old_view.services[i as int].characteristics));
                    assert(cv.reads =~= old_view.services[i as int].characteristics[j as int].reads.drop_first());
                    lemma_with_characteristic_wf(old_view, i as int, j as int, cv);
                    assert(cv == SpecCharacteristic { reads: old_view.services[i as int].characteristics[j as int].reads.drop_first(), ..old_view.services[i as int].characteristics[j as int] });
                }
            }
        }
        actions
    }

    /// A write callback of a characteristic: the first waiting write is
    /// answered with success or the error. A callback for a characteristic
    /// that is not there, or with no write waiting, is ignored.
    pub fn on_characteristic_written(
        &mut self,
        service_uuid: Uuid,
        characteristic_uuid: Uuid,
        error: Option<String>,
    ) -> (actions: Vec<PeripheralAction>)
        requires
            peripheral_wf(old(self)@),
        ensures
            peripheral_wf(final(self)@),
            match char_location(old(self)@, service_uuid@, characteristic_uuid@) {
                None => final(self)@ == old(self)@ && actions@.len() == 0,
                Some((i, j)) => {
                    let c = old(self)@.services[i].characteristics[j];
                    if c.writes.len() == 0 {
                        final(self)@ == old(self)@ && actions@.len() == 0
                    } else {
                        &&& final(self)@ == with_characteristic(
                            old(self)@,
                            i,
                            j,
                            SpecCharacteristic { writes: c.writes.drop_first(), ..c },
                        )
                        &&& action_views(actions@) == seq![SpecAction::Reply(c.writes[0], spec_done(error))]
                    }
                },
            },
    {
        let ghost old_view = self@;
        let mut actions: Vec<PeripheralAction> = Vec::new();
        if let Ok((i, j)) = self.locate(service_uuid, characteristic_uuid) {
            proof {
                assert(self.services@[i as int].characteristics@[j as int].write_queue@ == old_view.services[i as int].characteristics[j as int].writes);
            }
            if self.services[i].characteristics[j].write_queue.len() > 0 {
                let mut c = self.take_characteristic(i, j);
                let t = c.write_queue.pop_front().unwrap();
                actions.push(PeripheralAction::Reply(t, done_reply(error)));
                let ghost cv = c@;
                let _ = self.swap_characteristic(i, j, c);
                proof {
                    assert(characteristics_wf(old_view.services[i as int].characteristics));
                    lemma_with_characteristic_wf(old_view, i as int, j as int, cv);
                    assert(cv == SpecCharacteristic { writes: old_view.services[i as int].characteristics[j as int].writes.drop_first(), ..old_view.services[i as int].characteristics[j as int] });
                    assert(action_views(actions@) =~= seq![SpecAction::Reply(old_view.services[i as int].characteristics[j as int].writes[0], spec_done(error))]);
                }
            }
        }
        actions
    }
}

/// Replacing a descriptor by one with the same UUID keeps a peripheral well
/// formed.
proof fn lemma_with_descriptor_wf(p: SpecPeripheral, i: int, j: int, k: int, d: SpecDescriptor)
    requires
        peripheral_wf(p),
        0 <= i < p.services.len(),
        0 <= j < p.services[i].characteristics.len(),
        0 <= k < p.services[i].characteristics[j].descriptors.len(),
        d.uuid == p.services[i].characteristics[j].descriptors[k].uuid,
    ensures
        peripheral_wf(with_descriptor(p, i, j, k, d)),
{
    let c = p.services[i].characteristics[j];
    assert(characteristics_wf(p.services[i].characteristics));
    assert(descriptors_distinct(c.descriptors));
    let nd = c.descriptors.update(k, d);
    assert forall|a: int, b: int| 0 <= a < b < nd.len() implies nd[a].uuid != nd[b].uuid by {
        assert(c.descriptors[a].uuid != c.descriptors[b].uuid);
    }
    lemma_with_characteristic_wf(p, i, j, SpecCharacteristic { descriptors: nd, ..c });
}

impl PeripheralState {
    /// Puts `d` in place of the descriptor at `(i, j, k)` and gives back the
    /// one that was there.
    fn swap_descriptor(&mut self, i: usize, j: usize, k: usize, d: DescriptorState) -> (prev: DescriptorState)
        requires
            i < old(self)@.services.len(),
            j < old(self)@.services[i as int].characteristics.len(),
            k < old(self)@.services[i as int].characteristics[j as int].descriptors.len(),
        ensures
            prev@ == old(self)@.services[i as int].characteristics[j as int].descriptors[k as int],
            final(self)@ == with_descriptor(old(self)@, i as int, j as int, k as int, d@),
    {
        let ghost old_view = self@;
        let mut c = self.take_characteristic(i, j);
        let ghost c0 = c@;
        let prev = c.descriptors.remove(k);
        c.descriptors.insert(k, d);
        proof {
            assert(c@.descriptors =~= c0.descriptors.update(k as int, d@));
            assert(prev@ == c0.descriptors[k as int]);
        }
        let _ = self.swap_characteristic(i, j, c);
        prev
    }

    /// Reads a descriptor's value: hands the read to CoreBluetooth and waits
    /// for its callback.
    pub fn read_descriptor_value(
        &mut self,
        service_uuid: Uuid,
        characteristic_uuid: Uuid,
        descriptor_uuid: Uuid,
        ticket: u64,
    ) -> (actions: Vec<PeripheralAction>)
        requires
            peripheral_wf(old(self)@),
        ensures
            peripheral_wf(final(self)@),
            match descriptor_location(old(self)@, service_uuid@, characteristic_uuid@, descriptor_uuid@) {
                None => final(self)@ == old(self)@ && action_views(actions@) == seq![
                    spec_descriptor_missing(old(self)@, service_uuid@, characteristic_uuid@, ticket),
                ],
                Some((i, j, k)) => {
                    let d = old(self)@.services[i].characteristics[j].descriptors[k];
                    &&& final(self)@ == with_descriptor(old(self)@, i, j, k, SpecDescriptor { reads: d.reads.push(ticket), ..d })
                    &&& action_views(actions@) == seq![
                        SpecAction::ReadDescriptor {
                            service: service_uuid@,
                            characteristic: characteristic_uuid@,
                            descriptor: descriptor_uuid@,
                        },
                    ]
                },
            },
    {
        let ghost old_view = self@;
        let mut actions: Vec<PeripheralAction> = Vec::new();
        match self.locate(service_uuid, characteristic_uuid) {
            Err(service_missing) => {
                let what = if service_missing {
                    "Service"
                } else {
                    "Characteristic"
                };
                actions.push(missing(ticket, what));
                assert(action_views(actions@) =~= seq![
                    spec_descriptor_missing(old_view, service_uuid@, characteristic_uuid@, ticket),
                ]);
                return actions;
            },
            Ok(_) => {},
        }
        match self.locate_descriptor(service_uuid, characteristic_uuid, descriptor_uuid) {
            None => {
                actions.push(missing(ticket, "Descriptor"));
                assert(action_views(actions@) =~= seq![
                    spec_descriptor_missing(old_view, service_uuid@, characteristic_uuid@, ticket),
                ]);
            },
            Some((i, j, k)) => {
                actions.push(
                    PeripheralAction::ReadDescriptor {
                        service: service_uuid,
                        characteristic: characteristic_uuid,
                        descriptor: descriptor_uuid,
                    },
                );
                let mut d = self.swap_descriptor(i, j, k, DescriptorState::empty(descriptor_uuid));
                let ghost mid = self@;
                d.read_queue.push_back(ticket);
                let ghost dv = d@;
                let _ = self.swap_descriptor(i, j, k, d);
                proof {
                    let c = old_view.services[i as int].characteristics[j as int];
                    assert(self@.services =~= with_descriptor(old_view, i as int, j as int, k as int, dv).services) by {
                        assert(with_descriptor(mid, i as int, j as int, k as int, dv).services[i as int].characteristics[j as int].descriptors
                            =~= c.descriptors.update(k as int, dv));
                        assert(with_descriptor(mid, i as int, j as int, k as int, dv).services[i as int].characteristics
                            =~= with_descriptor(old_view, i as int, j as int, k as int, dv).services[i as int].characteristics);
                    }
                    lemma_with_descriptor_wf(old_view, i as int, j as int, k as int, dv);
                    assert(action_views(actions@) =~= seq![
                        SpecAction::ReadDescriptor {
                            service: service_uuid@,
                            characteristic: characteristic_uuid@,
                            descriptor: descriptor_uuid@,
                        },
                    ]);
                }
            },
        }
        actions
    }
}

impl PeripheralState {
    /// Takes the descriptor at `(i, j, k)` out, leaving an empty one with the
    /// same UUID in its place until it is put back.
    fn take_descriptor(&mut self, i: usize, j: usize, k: usize) -> (d: DescriptorState)
        requires
            i < old(self)@.services.len(),
            j < old(self)@.services[i as int].characteristics.len(),
            k < old(self)@.services[i as int].characteristics[j as int].descriptors.len(),
        ensures
            d@ == old(self)@.services[i as int].characteristics[j as int].descriptors[k as int],
            final(self)@.services.len() == old(self)@.services.len(),
            final(self)@.services[i as int].characteristics.len() == old(self)@.services[i as int].characteristics.len(),
            final(self)@.services[i as int].characteristics[j as int].descriptors.len()
                == old(self)@.services[i as int].characteristics[j as int].descriptors.len(),
            forall|d2: SpecDescriptor|
                with_descriptor(final(self)@, i as int, j as int, k as int, d2) == with_descriptor(
                    old(self)@,
                    i as int,
                    j as int,
                    k as int,
                    d2,
                ),
    {
        let ghost old_view = self@;
        let u = self.services[i].characteristics[j].descriptors[k].uuid;
        let d = self.swap_descriptor(i, j, k, DescriptorState::empty(u));
        let ghost mid = self@;
        proof {
            assert forall|d2: SpecDescriptor|
                with_descriptor(mid, i as int, j as int, k as int, d2) == with_descriptor(
                    old_view,
                    i as int,
                    j as int,
                    k as int,
                    d2,
                ) by {
                let c = old_view.services[i as int].characteristics[j as int];
                let a = with_descriptor(mid, i as int, j as int, k as int, d2);
                let b = with_descriptor(old_view, i as int, j as int, k as int, d2);
                assert(a.services[i as int].characteristics[j as int].descriptors =~= c.descriptors.update(k as int, d2));
                assert(a.services[i as int].characteristics =~= b.services[i as int].characteristics);
                assert(a.services =~= b.services);
            }
        }
        d
    }

    /// Writes a descriptor's value: hands the write to CoreBluetooth and
    /// waits for its callback.
    pub fn write_descriptor_value(
        &mut self,
        service_uuid: Uuid,
        characteristic_uuid: Uuid,
        descriptor_uuid: Uuid,
        data: Vec<u8>,
        ticket: u64,
    ) -> (actions: Vec<PeripheralAction>)
        requires
            peripheral_wf(old(self)@),
        ensures
            peripheral_wf(final(self)@),
            match descriptor_location(old(self)@, service_uuid@, characteristic_uuid@, descriptor_uuid@) {
                None => final(self)@ == old(self)@ && action_views(actions@) == seq![
                    spec_descriptor_missing(old(self)@, service_uuid@, characteristic_uuid@, ticket),
                ],
                Some((i, j, k)) => {
                    let d = old(self)@.services[i].characteristics[j].descriptors[k];
                    &&& final(self)@ == with_descriptor(old(self)@, i, j, k, SpecDescriptor { writes: d.writes.push(ticket), ..d })
                    &&& action_views(actions@) == seq![
                        SpecAction::WriteDescriptor {
                            service: service_uuid@,
                            characteristic: characteristic_uuid@,
                            descriptor: descriptor_uuid@,
                            data: data@,
                        },
                    ]
                },
            },
    {
        let ghost old_view = self@;
        let mut actions: Vec<PeripheralAction> = Vec::new();
        match self.locate(service_uuid, characteristic_uuid) {
            Err(service_missing) => {
                let what = if service_missing {
                    "Service"
                } else {
                    "Characteristic"
                };
                actions.push(missing(ticket, what));
                assert(action_views(actions@) =~= seq![
                    spec_descriptor_missing(old_view, service_uuid@, characteristic_uuid@, ticket),
                ]);
                return actions;
            },
            Ok(_) => {},
        }
        match self.locate_descriptor(service_uuid, characteristic_uuid, descriptor_uuid) {
            None => {
                actions.push(missing(ticket, "Descriptor"));
                assert(action_views(actions@) =~= seq![
                    spec_descriptor_missing(old_view, service_uuid@, characteristic_uuid@, ticket),
                ]);
            },
            Some((i, j, k)) => {
                actions.push(
                    PeripheralAction::WriteDescriptor {
                        service: service_uuid,
                        characteristic: characteristic_uuid,
                        descriptor: descriptor_uuid,
                        data,
                    },
                );
                let mut d = self.take_descriptor(i, j, k);
                d.write_queue.push_back(ticket);
                let ghost dv = d@;
                let _ = self.swap_descriptor(i, j, k, d);
                proof {
                    lemma_with_descriptor_wf(old_view, i as int, j as int, k as int, dv);
                }
            },
        }
        actions
    }

    /// A read callback of a descriptor: the first waiting read is answered
    /// with the value or the error. A callback for a descriptor that is not
    /// there, or with no read waiting, is ignored.
    pub fn on_descriptor_read(
        &mut self,
        service_uuid: Uuid,
        characteristic_uuid: Uuid,
        descriptor_uuid: Uuid,
        data: Vec<u8>,
        error: Option<String>,
    ) -> (actions: Vec<PeripheralAction>)
        requires
            peripheral_wf(old(self)@),
        ensures
            peripheral_wf(final(self)@),
            match descriptor_location(old(self)@, service_uuid@, characteristic_uuid@, descriptor_uuid@) {
                None => final(self)@ == old(self)@ && actions@.len() == 0,
                Some((i, j, k)) => {
                    let d = old(self)@.services[i].characteristics[j].descriptors[k];
                    if d.reads.len() == 0 {
                        final(self)@ == old(self)@ && actions@.len() == 0
                    } else {
                        &&& final(self)@ == with_descriptor(old(self)@, i, j, k, SpecDescriptor { reads: d.reads.drop_first(), ..d })
                        &&& action_views(actions@) == seq![
                            SpecAction::Reply(
                                d.reads[0],
                                match error {
                                    Some(e) => SpecReply::Failure(e@),
                                    None => SpecReply::ReadResult(data@),
                                },
                            ),
                        ]
                    }
                },
            },
    {
        let ghost old_view = self@;
        let mut actions: Vec<PeripheralAction> = Vec::new();
        if let Some((i, j, k)) = self.locate_descriptor(service_uuid, characteristic_uuid, descriptor_uuid) {
            proof {
                assert(self.services@[i as int].characteristics@[j as int].descriptors@[k as int].read_queue@
                    == old_view.services[i as int].characteristics[j as int].descriptors[k as int].reads);
            }
            if self.services[i].characteristics[j].descriptors[k].read_queue.len() > 0 {
                let mut d = self.take_descriptor(i, j, k);
                let t = d.read_queue.pop_front().unwrap();
                let reply = match error {
                    Some(e) => CoreBluetoothReply::Failure(e),
                    None => CoreBluetoothReply::ReadResult(data),
                };
                actions.push(PeripheralAction::Reply(t, reply));
                let ghost dv = d@;
                let _ = self.swap_descriptor(i, j, k, d);
                proof {
                    lemma_with_descriptor_wf(old_view, i as int, j as int, k as int, dv);
                    let d0 = old_view.services[i as int].characteristics[j as int].descriptors[k as int];
                    assert(dv == SpecDescriptor { reads: d0.reads.drop_first(), ..d0 });
                }
            }
        }
        actions
    }

    /// A write callback of a descriptor: the first waiting write is answered
    /// with success or the error. A callback for a descriptor that is not
    /// there, or with no write waiting, is ignored.
    pub fn on_descriptor_written(
        &mut self,
        service_uuid: Uuid,
        characteristic_uuid: Uuid,
        descriptor_uuid: Uuid,
        error: Option<String>,
    ) -> (actions: Vec<PeripheralAction>)
        requires
            peripheral_wf(old(self)@),
        ensures
            peripheral_wf(final(self)@),
            match descriptor_location(old(self)@, service_uuid@, characteristic_uuid@, descriptor_uuid@) {
                None => final(self)@ == old(self)@ && actions@.len() == 0,
                Some((i, j, k)) => {
                    let d = old(self)@.services[i].characteristics[j].descriptors[k];
                    if d.writes.len() == 0 {
                        final(self)@ == old(self)@ && actions@.len() == 0
                    } else {
                        &&& final(self)@ == with_descriptor(old(self)@, i, j, k, SpecDescriptor { writes: d.writes.drop_first(), ..d })
                        &&& action_views(actions@) == seq![SpecAction::Reply(d.writes[0], spec_done(error))]
                    }
                },
            },
    {
        let ghost old_view = self@;
        let mut actions: Vec<PeripheralAction> = Vec::new();
        if let Some((i, j, k)) = self.locate_descriptor(service_uuid, characteristic_uuid, descriptor_uuid) {
            proof {
                assert(self.services@[i as int].characteristics@[j as int].descriptors@[k as int].write_queue@
                    == old_view.services[i as int].characteristics[j as int].descriptors[k as int].writes);
            }
            if self.services[i].characteristics[j].descriptors[k].write_queue.len() > 0 {
                let mut d = self.take_descriptor(i, j, k);
                let t = d.write_queue.pop_front().unwrap();
                actions.push(PeripheralAction::Reply(t, done_reply(error)));
                let ghost dv = d@;
                let _ = self.swap_descriptor(i, j, k, d);
                proof {
                    lemma_with_descriptor_wf(old_view, i as int, j as int, k as int, dv);
                    let d0 = old_view.services[i as int].characteristics[j as int].descriptors[k as int];
                    assert(dv == SpecDescriptor { writes: d0.writes.drop_first(), ..d0 });
                    assert(action_views(actions@) =~= seq![SpecAction::Reply(d0.writes[0], spec_done(error))]);
                }
            }
        }
        actions
    }

    /// Reads the signal strength: hands the read to CoreBluetooth and waits
    /// for its callback.
    pub fn read_rssi(&mut self, ticket: u64) -> (actions: Vec<PeripheralAction>)
        requires
            peripheral_wf(old(self)@),
        ensures
            peripheral_wf(final(self)@),
            final(self)@ == (SpecPeripheral { rssi_reads: old(self)@.rssi_reads.push(ticket), ..old(self)@ }),
            action_views(actions@) == seq![SpecAction::ReadRssi],
    {
        self.read_rssi_queue.push_back(ticket);
        let mut actions: Vec<PeripheralAction> = Vec::new();
        actions.push(PeripheralAction::ReadRssi);
        assert(action_views(actions@) =~= seq![SpecAction::ReadRssi]);
        actions
    }

    /// The signal strength callback: the first waiting read is answered with
    /// the value or the error, and the value goes to the peripheral's
    /// listeners in any case.
    pub fn on_read_rssi(&mut self, rssi: i16, error: Option<String>) -> (actions: Vec<PeripheralAction>)
        requires
            peripheral_wf(old(self)@),
        ensures
            peripheral_wf(final(self)@),
            old(self)@.rssi_reads.len() == 0 ==> final(self)@ == old(self)@ && action_views(actions@) == seq![
                SpecAction::RssiRead(rssi),
            ],
            old(self)@.rssi_reads.len() > 0 ==> final(self)@ == (SpecPeripheral {
                rssi_reads: old(self)@.rssi_reads.drop_first(),
                ..old(self)@
            }) && action_views(actions@) == seq![
                SpecAction::Reply(
                    old(self)@.rssi_reads[0],
                    match error {
                        Some(e) => SpecReply::Failure(e@),
                        None => SpecReply::ReadRssi(rssi),
                    },
                ),
                SpecAction::RssiRead(rssi),
            ],
    {
        let mut actions: Vec<PeripheralAction> = Vec::new();
        if let Some(t) = self.read_rssi_queue.pop_front() {
            let reply = match error {
                Some(e) => CoreBluetoothReply::Failure(e),
                None => CoreBluetoothReply::ReadRssi(rssi),
            };
            actions.push(PeripheralAction::Reply(t, reply));
        }
        actions.push(PeripheralAction::RssiRead(rssi));
        proof {
            if old(self)@.rssi_reads.len() > 0 {
                assert(self@ =~= SpecPeripheral { rssi_reads: old(self)@.rssi_reads.drop_first(), ..old(self)@ });
            }
        }
        assert(action_views(actions@) =~= if old(self)@.rssi_reads.len() == 0 {
            seq![SpecAction::RssiRead(rssi)]
        } else {
            seq![
                SpecAction::Reply(
                    old(self)@.rssi_reads[0],
                    match error {
                        Some(e) => SpecReply::Failure(e@),
                        None => SpecReply::ReadRssi(rssi),
                    },
                ),
                SpecAction::RssiRead(rssi),
            ]
        });
        actions
    }

    /// Connects the peripheral; the connection callback answers `ticket`.
    /// A connection still waiting is forgotten.
    pub fn connect(&mut self, ticket: u64) -> (actions: Vec<PeripheralAction>)
        requires
            peripheral_wf(old(self)@),
        ensures
            peripheral_wf(final(self)@),
            final(self)@ == (SpecPeripheral { connected: Some(ticket), ..old(self)@ }),
            action_views(actions@) == seq![SpecAction::Connect],
    {
        self.connected = Some(ticket);
        let mut actions: Vec<PeripheralAction> = Vec::new();
        actions.push(PeripheralAction::Connect);
        assert(action_views(actions@) =~= seq![SpecAction::Connect]);
        actions
    }

    /// Disconnects the peripheral; the disconnection answers `ticket`.
    pub fn disconnect(&mut self, ticket: u64) -> (actions: Vec<PeripheralAction>)
        requires
            peripheral_wf(old(self)@),
        ensures
            peripheral_wf(final(self)@),
            final(self)@ == (SpecPeripheral { disconnected: Some(ticket), ..old(self)@ }),
            action_views(actions@) == seq![SpecAction::CancelConnection],
    {
        self.disconnected = Some(ticket);
        let mut actions: Vec<PeripheralAction> = Vec::new();
        actions.push(PeripheralAction::CancelConnection);
        assert(action_views(actions@) =~= seq![SpecAction::CancelConnection]);
        actions
    }

    /// Discovers the peripheral's services; the end of discovery answers
    /// `ticket`.
    pub fn discover_services(&mut self, ticket: u64) -> (actions: Vec<PeripheralAction>)
        requires
            peripheral_wf(old(self)@),
        ensures
            peripheral_wf(final(self)@),
            final(self)@ == (SpecPeripheral { services_discovered: Some(ticket), ..old(self)@ }),
            action_views(actions@) == seq![SpecAction::DiscoverServices],
    {
        self.services_discovered = Some(ticket);
        let mut actions: Vec<PeripheralAction> = Vec::new();
        actions.push(PeripheralAction::DiscoverServices);
        assert(action_views(actions@) =~= seq![SpecAction::DiscoverServices]);
        actions
    }

    /// The connection callback: a waiting connection is answered; a second
    /// callback finds none and is ignored.
    pub fn on_peripheral_connect(&mut self) -> (actions: Vec<PeripheralAction>)
        requires
            peripheral_wf(old(self)@),
        ensures
            peripheral_wf(final(self)@),
            final(self)@ == (SpecPeripheral { connected: None, ..old(self)@ }),
            action_views(actions@) == match old(self)@.connected {
                Some(t) => seq![SpecAction::Reply(t, SpecReply::Connected)],
                None => Seq::empty(),
            },
    {
        let mut actions: Vec<PeripheralAction> = Vec::new();
        if let Some(t) = self.connected.take() {
            actions.push(PeripheralAction::Reply(t, CoreBluetoothReply::Connected));
        }
        assert(action_views(actions@) =~= match old(self)@.connected {
            Some(t) => seq![SpecAction::Reply(t, SpecReply::Connected)],
            None => Seq::empty(),
        });
        actions
    }

    /// The connection failure callback: a waiting connection is answered
    /// with the error's description, or `"Connection failed"` without one.
    pub fn on_peripheral_connection_failed(&mut self, error_description: Option<String>) -> (actions: Vec<
        PeripheralAction,
    >)
        requires
            peripheral_wf(old(self)@),
        ensures
            peripheral_wf(final(self)@),
            final(self)@ == (SpecPeripheral { connected: None, ..old(self)@ }),
            action_views(actions@) == match old(self)@.connected {
                Some(t) => seq![
                    SpecAction::Reply(
                        t,
                        SpecReply::Failure(
                            match error_description {
                                Some(e) => e@,
                                None => "Connection failed"@,
                            },
                        ),
                    ),
                ],
                None => Seq::empty(),
            },
    {
        let error = match error_description {
            Some(e) => e,
            None => String::from_str("Connection failed"),
        };
        let mut actions: Vec<PeripheralAction> = Vec::new();
        if let Some(t) = self.connected.take() {
            actions.push(PeripheralAction::Reply(t, CoreBluetoothReply::Failure(error)));
        }
        assert(action_views(actions@) =~= match old(self)@.connected {
            Some(t) => seq![
                SpecAction::Reply(
                    t,
                    SpecReply::Failure(
                        match error_description {
                            Some(e) => e@,
                            None => "Connection failed"@,
                        },
                    ),
                ),
            ],
            None => Seq::empty(),
        });
        actions
    }

    /// One step of sending the writes without response that wait: when the
    /// peripheral can take a write (`can_send`), the first waiting write is
    /// handed over and answered, or answered with an error when its
    /// characteristic is gone; the result says whether to take another
    /// step. When it cannot, the write keeps its place and sending stops.
    pub fn drain_write_step(&mut self, can_send: bool) -> (res: (Vec<PeripheralAction>, bool))
        requires
            peripheral_wf(old(self)@),
        ensures
            peripheral_wf(final(self)@),
            old(self)@.pending_writes.len() == 0 || !can_send ==> final(self)@ == old(self)@
                && res.0@.len() == 0 && !res.1,
            old(self)@.pending_writes.len() > 0 && can_send ==> {
                let w = old(self)@.pending_writes[0];
                &&& final(self)@ == (SpecPeripheral { pending_writes: old(self)@.pending_writes.drop_first(), ..old(self)@ })
                &&& res.1
                &&& action_views(res.0@) == match char_location(old(self)@, w.service, w.characteristic) {
                    Some(_) => seq![
                        SpecAction::WriteValue {
                            service: w.service,
                            characteristic: w.characteristic,
                            data: w.data,
                            with_response: false,
                        },
                        SpecAction::Reply(w.ticket, SpecReply::Success),
                    ],
                    None => seq![spec_char_missing(old(self)@, w.service, w.ticket)],
                }
            },
    {
        let ghost old_view = self@;
        let mut actions: Vec<PeripheralAction> = Vec::new();
        if self.write_without_response_queue.len() == 0 || !can_send {
            return (actions, false);
        }
        let ghost q = self.write_without_response_queue@;
        let w = self.write_without_response_queue.pop_front().unwrap();
        proof {
            assert(w == q[0]);
            assert(w@ == old_view.pending_writes[0]);
            assert(self.write_without_response_queue@ =~= q.drop_first());
            assert(self@.pending_writes =~= old_view.pending_writes.drop_first());
            assert(self@ =~= SpecPeripheral { pending_writes: old_view.pending_writes.drop_first(), ..old_view });
        }
        match self.locate(w.service_uuid, w.characteristic_uuid) {
            Ok(_) => {
                actions.push(
                    PeripheralAction::WriteValue {
                        service: w.service_uuid,
                        characteristic: w.characteristic_uuid,
                        data: w.data,
                        with_response: false,
                    },
                );
                actions.push(PeripheralAction::Reply(w.ticket, CoreBluetoothReply::Success));
            },
            Err(service_missing) => {
                let what = if service_missing {
                    "Service"
                } else {
                    "Characteristic"
                };
                actions.push(missing(w.ticket, what));
            },
        }
        proof {
            let wv = old_view.pending_writes[0];
            assert(action_views(actions@) =~= match char_location(old_view, wv.service, wv.characteristic) {
                Some(_) => seq![
                    SpecAction::WriteValue {
                        service: wv.service,
                        characteristic: wv.characteristic,
                        data: wv.data,
                        with_response: false,
                    },
                    SpecAction::Reply(wv.ticket, SpecReply::Success),
                ],
                None => seq![spec_char_missing(old_view, wv.service, wv.ticket)],
            });
        }
        (actions, true)
    }
}

/// `p` with the service at `i` replaced by `sv`.
pub open spec fn with_service(p: SpecPeripheral, i: int, sv: SpecService) -> SpecPeripheral {
    SpecPeripheral { services: p.services.update(i, sv), ..p }
}

/// Whether every service of the peripheral has been discovered.
pub open spec fn all_discovered(p: SpecPeripheral) -> bool {
    forall|i: int| 0 <= i < p.services.len() ==> #[trigger] p.services[i].discovered
}

/// Whether every characteristic of a service has been discovered.
pub open spec fn all_characteristics_discovered(cs: Seq<SpecCharacteristic>) -> bool {
    forall|i: int| 0 <= i < cs.len() ==> #[trigger] cs[i].discovered
}

/// A characteristic as reported at the end of discovery.
pub open spec fn spec_describe_characteristic(c: SpecCharacteristic) -> SpecDiscoveredCharacteristic {
    SpecDiscoveredCharacteristic {
        uuid: c.uuid,
        properties: c.properties,
        descriptors: c.descriptors.map_values(|d: SpecDescriptor| d.uuid),
    }
}

/// A service as reported at the end of discovery.
pub open spec fn spec_describe_service(sv: SpecService) -> SpecDiscoveredService {
    SpecDiscoveredService {
        uuid: sv.uuid,
        primary: sv.primary,
        characteristics: sv.characteristics.map_values(|c: SpecCharacteristic| spec_describe_characteristic(c)),
    }
}

/// The answer to service discovery: the services, characteristics and
/// descriptors found, with the ATT MTU inferred from CoreBluetooth's
/// maximum write length, or the error when that MTU does not fit.
pub open spec fn spec_discovery_reply(p: SpecPeripheral, max_write_len: usize) -> SpecReply {
    let described = p.services.map_values(|sv: SpecService| spec_describe_service(sv));
    if max_write_len == 0 {
        SpecReply::ServicesDiscovered(described, DEFAULT_MTU_SIZE)
    } else if max_write_len + 3 <= u16::MAX {
        SpecReply::ServicesDiscovered(described, (max_write_len + 3) as u16)
    } else {
        SpecReply::Failure(spec_mtu_error(max_write_len))
    }
}

/// What checking for the end of discovery does: once every service has
/// been discovered, the waiting discovery is answered.
pub open spec fn spec_check_discovered(p: SpecPeripheral, max_write_len: usize) -> (SpecPeripheral, Seq<SpecAction>) {
    if all_discovered(p) {
        (
            SpecPeripheral { services_discovered: None, ..p },
            seq![SpecAction::Reply(p.services_discovered.unwrap(), spec_discovery_reply(p, max_write_len))],
        )
    } else {
        (p, Seq::empty())
    }
}

/// A characteristic just found, with these CoreBluetooth property bits.
pub open spec fn spec_new_characteristic(u: u128, cb_properties: u64) -> SpecCharacteristic {
    SpecCharacteristic {
        uuid: u,
        properties: spec_from_core_bluetooth(cb_properties),
        descriptors: Seq::empty(),
        discovered: false,
        reads: Seq::empty(),
        writes: Seq::empty(),
        notifications: Seq::empty(),
    }
}

/// The characteristics of a service after characteristics were found: one
/// already known gets the new properties and keeps everything else; one
/// not known is added.
pub open spec fn spec_merge_characteristics(cs: Seq<SpecCharacteristic>, found: Seq<(u128, u64)>) -> Seq<SpecCharacteristic>
    decreases found.len(),
{
    if found.len() == 0 {
        cs
    } else {
        let prev = spec_merge_characteristics(cs, found.drop_last());
        let (u, props) = found.last();
        match characteristic_pos(prev, u) {
            Some(j) => prev.update(j, SpecCharacteristic { properties: spec_from_core_bluetooth(props), ..prev[j] }),
            None => prev.push(spec_new_characteristic(u, props)),
        }
    }
}

/// The descriptors of a characteristic after descriptors were found: one
/// not known is added, with nothing waiting on it.
pub open spec fn spec_merge_descriptors(ds: Seq<SpecDescriptor>, found: Seq<u128>) -> Seq<SpecDescriptor>
    decreases found.len(),
{
    if found.len() == 0 {
        ds
    } else {
        let prev = spec_merge_descriptors(ds, found.drop_last());
        match descriptor_pos(prev, found.last()) {
            Some(_) => prev,
            None => prev.push(SpecDescriptor { uuid: found.last(), reads: Seq::empty(), writes: Seq::empty() }),
        }
    }
}

/// The peripheral after characteristics `found` of service `i` were found,
/// before checking for the end of discovery: a service whose list is still
/// empty counts as discovered.
pub open spec fn spec_after_characteristics(p: SpecPeripheral, i: int, found: Seq<(u128, u64)>) -> SpecPeripheral {
    let merged = spec_merge_characteristics(p.services[i].characteristics, found);
    with_service(
        p,
        i,
        SpecService {
            characteristics: merged,
            discovered: if merged.len() == 0 {
                true
            } else {
                p.services[i].discovered
            },
            ..p.services[i]
        },
    )
}

/// The peripheral after descriptors `found` of characteristic `(i, j)` were
/// found, before checking for the end of discovery: the characteristic
/// counts as discovered, and so does its service once all its
/// characteristics do.
pub open spec fn spec_after_descriptors(p: SpecPeripheral, i: int, j: int, found: Seq<u128>) -> SpecPeripheral {
    let c = p.services[i].characteristics[j];
    let p1 = with_characteristic(
        p,
        i,
        j,
        SpecCharacteristic { descriptors: spec_merge_descriptors(c.descriptors, found), discovered: true, ..c },
    );
    if all_characteristics_discovered(p1.services[i].characteristics) {
        with_service(p1, i, SpecService { discovered: true, ..p1.services[i] })
    } else {
        p1
    }
}

/// The UUIDs of found characteristics, with their property bits.
pub open spec fn found_views(v: Seq<(Uuid, u64)>) -> Seq<(u128, u64)> {
    v.map_values(|e: (Uuid, u64)| (e.0@, e.1))
}

proof fn lemma_merge_characteristics_wf(cs: Seq<SpecCharacteristic>, found: Seq<(u128, u64)>)
    requires
        characteristics_wf(cs),
    ensures
        characteristics_wf(spec_merge_characteristics(cs, found)),
    decreases found.len(),
{
    if found.len() > 0 {
        lemma_merge_characteristics_wf(cs, found.drop_last());
        let prev = spec_merge_characteristics(cs, found.drop_last());
        let (u, props) = found.last();
        let next = spec_merge_characteristics(cs, found);
        match characteristic_pos(prev, u) {
            Some(j) => {
                assert forall|a: int| 0 <= a < next.len() implies descriptors_distinct(#[trigger] next[a].descriptors) by {
                    assert(descriptors_distinct(prev[a].descriptors));
                }
                assert forall|a: int, b: int| 0 <= a < b < next.len() implies next[a].uuid != next[b].uuid by {
                    assert(prev[a].uuid != prev[b].uuid);
                }
            },
            None => {
                assert forall|a: int| 0 <= a < next.len() implies descriptors_distinct(#[trigger] next[a].descriptors) by {
                    if a < prev.len() {
                        assert(descriptors_distinct(prev[a].descriptors));
                    }
                }
                assert forall|a: int, b: int| 0 <= a < b < next.len() implies next[a].uuid != next[b].uuid by {
                    if b < prev.len() {
                        assert(prev[a].uuid != prev[b].uuid);
                    } else {
                        assert(prev[a].uuid != u);
                    }
                }
            },
        }
    }
}

proof fn lemma_merge_descriptors_distinct(ds: Seq<SpecDescriptor>, found: Seq<u128>)
    requires
        descriptors_distinct(ds),
    ensures
        descriptors_distinct(spec_merge_descriptors(ds, found)),
    decreases found.len(),
{
    if found.len() > 0 {
        lemma_merge_descriptors_distinct(ds, found.drop_last());
        let prev = spec_merge_descriptors(ds, found.drop_last());
        let next = spec_merge_descriptors(ds, found);
        if descriptor_pos(prev, found.last()) is None {
            assert forall|a: int, b: int| 0 <= a < b < next.len() implies next[a].uuid != next[b].uuid by {
                if b < prev.len() {
                    assert(prev[a].uuid != prev[b].uuid);
                } else {
                    assert(prev[a].uuid != found.last());
                }
            }
        }
    }
}

impl PeripheralState {
    /// Puts `sv` in place of the service at `i` and gives back the one that
    /// was there.
    fn swap_service(&mut self, i: usize, sv: ServiceState) -> (prev: ServiceState)
        requires
            i < old(self)@.services.len(),
        ensures
            prev@ == old(self)@.services[i as int],
            final(self)@ == with_service(old(self)@, i as int, sv@),
    {
        let ghost old_view = self@;
        let prev = self.services.remove(i);
        self.services.insert(i, sv);
        proof {
            assert forall|k: int| 0 <= k < self@.services.len() && k != i implies self@.services[k]
                == old_view.services[k] by {
                assert(self.services@[k] == old(self).services@[k]);
            }
            assert(self@.services =~= old_view.services.update(i as int, sv@));
        }
        prev
    }

    /// The services found on the peripheral, by UUID and whether each is a
    /// primary service. They replace what was known, with none of their
    /// characteristics known yet.
    pub fn on_discovered_services(&mut self, services: Vec<(Uuid, bool)>)
        requires
            forall|a: int, b: int| 0 <= a < b < services@.len() ==> services@[a].0@ != services@[b].0@,
        ensures
            peripheral_wf(final(self)@),
            final(self)@ == (SpecPeripheral {
                services: services@.map_values(
                    |e: (Uuid, bool)|
                        SpecService { uuid: e.0@, primary: e.1, characteristics: Seq::empty(), discovered: false },
                ),
                ..old(self)@
            }),
    {
        let ghost expected = services@.map_values(
            |e: (Uuid, bool)| SpecService { uuid: e.0@, primary: e.1, characteristics: Seq::empty(), discovered: false },
        );
        let mut out: Vec<ServiceState> = Vec::new();
        let mut k: usize = 0;
        while k < services.len()
            invariant
                k <= services@.len(),
                out@.len() == k,
                forall|a: int| 0 <= a < k ==> #[trigger] out@[a]@ == expected[a],
                expected == services@.map_values(
                    |e: (Uuid, bool)|
                        SpecService { uuid: e.0@, primary: e.1, characteristics: Seq::empty(), discovered: false },
                ),
            decreases services@.len() - k,
        {
            let (u, primary) = services[k];
            let sv = ServiceState { uuid: u, primary, characteristics: Vec::new(), discovered: false };
            proof {
                assert(sv@.characteristics =~= Seq::<SpecCharacteristic>::empty());
            }
            out.push(sv);
            k = k + 1;
        }
        self.services = out;
        proof {
            assert(self@.services =~= expected);
            assert forall|i: int| 0 <= i < self@.services.len() implies characteristics_wf(
                #[trigger] self@.services[i].characteristics,
            ) by {
                assert(self@.services[i].characteristics =~= Seq::<SpecCharacteristic>::empty());
            }
        }
    }

    /// Checks for the end of discovery, given CoreBluetooth's maximum write
    /// length for the MTU.
    fn check_discovered(&mut self, max_write_len: usize) -> (actions: Vec<PeripheralAction>)
        requires
            peripheral_wf(old(self)@),
            all_discovered(old(self)@) ==> old(self)@.services_discovered is Some,
        ensures
            peripheral_wf(final(self)@),
            (final(self)@, action_views(actions@)) == spec_check_discovered(old(self)@, max_write_len),
    {
        let ghost old_view = self@;
        let mut actions: Vec<PeripheralAction> = Vec::new();
        let mut k: usize = 0;
        while k < self.services.len()
            invariant
                k <= self@.services.len(),
                self@ == old_view,
                actions@.len() == 0,
                peripheral_wf(old_view),
                forall|a: int| 0 <= a < k ==> #[trigger] self@.services[a].discovered,
            decreases self@.services.len() - k,
        {
            if !self.services[k].discovered {
                proof {
                    assert(!self@.services[k as int].discovered);
                    assert(!all_discovered(self@));
                    assert(action_views(actions@) =~= Seq::<SpecAction>::empty());
                }
                return actions;
            }
            k = k + 1;
        }
        let described = self.describe();
        let reply = match maximum_write_value_length_to_att_mtu(max_write_len) {
            Ok(mtu) => CoreBluetoothReply::ServicesDiscovered(described, mtu),
            Err(e) => CoreBluetoothReply::Failure(e),
        };
        let t = self.services_discovered.take().unwrap();
        actions.push(PeripheralAction::Reply(t, reply));
        proof {
            assert(action_views(actions@) =~= seq![
                SpecAction::Reply(old_view.services_discovered.unwrap(), spec_discovery_reply(old_view, max_write_len)),
            ]);
        }
        actions
    }

    /// The services as reported at the end of discovery.
    fn describe(&self) -> (d: Vec<DiscoveredService>)
        ensures
            d@.map_values(|x: DiscoveredService| x@) == self@.services.map_values(
                |sv: SpecService| spec_describe_service(sv),
            ),
    {
        let mut out: Vec<DiscoveredService> = Vec::new();
        let mut i: usize = 0;
        while i < self.services.len()
            invariant
                i <= self@.services.len(),
                out@.len() == i,
                forall|a: int| 0 <= a < i ==> #[trigger] out@[a]@ == spec_describe_service(self@.services[a]),
            decreases self@.services.len() - i,
        {
            let sv = &self.services[i];
            let mut chars: Vec<DiscoveredCharacteristic> = Vec::new();
            let mut j: usize = 0;
            while j < sv.characteristics.len()
                invariant
                    j <= sv@.characteristics.len(),
                    chars@.len() == j,
                    forall|a: int| 0 <= a < j ==> #[trigger] chars@[a]@ == spec_describe_characteristic(sv@.characteristics[a]),
                decreases sv@.characteristics.len() - j,
            {
                let c = &sv.characteristics[j];
                let mut descs: Vec<Uuid> = Vec::new();
                let mut k: usize = 0;
                while k < c.descriptors.len()
                    invariant
                        k <= c@.descriptors.len(),
                        descs@.len() == k,
                        forall|a: int| 0 <= a < k ==> #[trigger] descs@[a]@ == c@.descriptors[a].uuid,
                    decreases c@.descriptors.len() - k,
                {
                    descs.push(c.descriptors[k].uuid);
                    k = k + 1;
                }
                let dc = DiscoveredCharacteristic { uuid: c.uuid, properties: c.properties, descriptors: descs };
                proof {
                    assert(uuid_views(descs@) =~= c@.descriptors.map_values(|d: SpecDescriptor| d.uuid));
                }
                chars.push(dc);
                j = j + 1;
            }
            let ds = DiscoveredService { uuid: sv.uuid, primary: sv.primary, characteristics: chars };
            proof {
                assert(ds@.characteristics =~= sv@.characteristics.map_values(
                    |c: SpecCharacteristic| spec_describe_characteristic(c),
                ));
            }
            out.push(ds);
            i = i + 1;
        }
        proof {
            assert(out@.map_values(|x: DiscoveredService| x@) =~= self@.services.map_values(
                |sv: SpecService| spec_describe_service(sv),
            ));
        }
        out
    }
}

impl ServiceState {
    /// A service with this UUID, no characteristics, not discovered.
    fn empty(uuid: Uuid) -> (sv: ServiceState)
        ensures
            sv@ == (SpecService { uuid: uuid@, primary: false, characteristics: Seq::empty(), discovered: false }),
    {
        let sv = ServiceState { uuid, primary: false, characteristics: Vec::new(), discovered: false };
        assert(sv@.characteristics =~= Seq::<SpecCharacteristic>::empty());
        sv
    }

    /// Merges found characteristics into this service's list.
    fn merge_characteristics(&mut self, found: &Vec<(Uuid, u64)>)
        requires
            characteristics_wf(old(self)@.characteristics),
        ensures
            final(self)@ == (SpecService {
                characteristics: spec_merge_characteristics(old(self)@.characteristics, found_views(found@)),
                ..old(self)@
            }),
            characteristics_wf(final(self)@.characteristics),
    {
        let ghost orig = self@;
        let ghost fv = found_views(found@);
        let mut k: usize = 0;
        while k < found.len()
            invariant
                k <= found@.len(),
                fv == found_views(found@),
                self@ == (SpecService {
                    characteristics: spec_merge_characteristics(orig.characteristics, fv.take(k as int)),
                    ..orig
                }),
                characteristics_wf(orig.characteristics),
                characteristics_wf(self@.characteristics),
            decreases found@.len() - k,
        {
            let (u, props) = found[k];
            let ghost prev = self@.characteristics;
            proof {
                assert(fv.take(k + 1).drop_last() =~= fv.take(k as int));
                assert(fv.take(k + 1).last() == (u@, props));
                assert(self@.characteristics =~= self.characteristics@.map_values(|c: CharacteristicState| c@));
                assert forall|a: int, b: int| 0 <= a < b < self.characteristics@.len() implies self.characteristics@[a].uuid@
                    != self.characteristics@[b].uuid@ by {
                    assert(self@.characteristics[a].uuid != self@.characteristics[b].uuid);
                }
            }
            match find_characteristic(&self.characteristics, u) {
                Some(j) => {
                    let mut c = self.characteristics.remove(j);
                    c.properties = CharPropFlags::from_core_bluetooth(props);
                    self.characteristics.insert(j, c);
                    proof {
                        assert(self@.characteristics =~= prev.update(
                            j as int,
                            SpecCharacteristic { properties: spec_from_core_bluetooth(props), ..prev[j as int] },
                        ));
                    }
                },
                None => {
                    let mut c = CharacteristicState::empty(u);
                    c.properties = CharPropFlags::from_core_bluetooth(props);
                    self.characteristics.push(c);
                    proof {
                        assert(self@.characteristics =~= prev.push(spec_new_characteristic(u@, props)));
                    }
                },
            }
            proof {
                lemma_merge_characteristics_wf(orig.characteristics, fv.take(k + 1));
            }
            k = k + 1;
        }
        proof {
            assert(fv.take(k as int) =~= fv);
        }
    }
}

impl CharacteristicState {
    /// Merges found descriptors into this characteristic's list.
    fn merge_descriptors(&mut self, found: &Vec<Uuid>)
        requires
            descriptors_distinct(old(self)@.descriptors),
        ensures
            final(self)@ == (SpecCharacteristic {
                descriptors: spec_merge_descriptors(old(self)@.descriptors, uuid_views(found@)),
                ..old(self)@
            }),
            descriptors_distinct(final(self)@.descriptors),
    {
        let ghost orig = self@;
        let ghost fv = uuid_views(found@);
        let mut k: usize = 0;
        while k < found.len()
            invariant
                k <= found@.len(),
                fv == uuid_views(found@),
                self@ == (SpecCharacteristic {
                    descriptors: spec_merge_descriptors(orig.descriptors, fv.take(k as int)),
                    ..orig
                }),
                descriptors_distinct(orig.descriptors),
                descriptors_distinct(self@.descriptors),
            decreases found@.len() - k,
        {
            let u = found[k];
            let ghost prev = self@.descriptors;
            proof {
                assert(fv.take(k + 1).drop_last() =~= fv.take(k as int));
                assert(fv.take(k + 1).last() == u@);
                assert(self@.descriptors =~= self.descriptors@.map_values(|d: DescriptorState| d@));
                assert forall|a: int, b: int| 0 <= a < b < self.descriptors@.len() implies self.descriptors@[a].uuid@
                    != self.descriptors@[b].uuid@ by {
                    assert(self@.descriptors[a].uuid != self@.descriptors[b].uuid);
                }
            }
            match find_descriptor(&self.descriptors, u) {
                Some(_) => {},
                None => {
                    self.descriptors.push(DescriptorState::empty(u));
                    proof {
                        assert(self@.descriptors =~= prev.push(
                            SpecDescriptor { uuid: u@, reads: Seq::empty(), writes: Seq::empty() },
                        ));
                    }
                },
            }
            proof {
                lemma_merge_descriptors_distinct(orig.descriptors, fv.take(k + 1));
            }
            k = k + 1;
        }
        proof {
            assert(fv.take(k as int) =~= fv);
        }
    }
}

impl PeripheralState {
    /// The characteristics found on service `service_uuid`, each with its
    /// CoreBluetooth property bits. A characteristic already known keeps
    /// what waits on it and its descriptors and only takes the new
    /// properties; a new one is added. A service that still has no
    /// characteristic is discovered, which may end discovery (the maximum
    /// write length gives the MTU then). The service must be known.
    pub fn set_characteristics(
        &mut self,
        service_uuid: Uuid,
        characteristics: Vec<(Uuid, u64)>,
        max_write_len: usize,
    ) -> (actions: Vec<PeripheralAction>)
        requires
            peripheral_wf(old(self)@),
            service_pos(old(self)@.services, service_uuid@) is Some,
            ({
                let i = service_pos(old(self)@.services, service_uuid@).unwrap();
                let p1 = spec_after_characteristics(old(self)@, i, found_views(characteristics@));
                p1.services[i].characteristics.len() == 0 && all_discovered(p1) ==> old(
                    self,
                )@.services_discovered is Some
            }),
        ensures
            peripheral_wf(final(self)@),
            ({
                let i = service_pos(old(self)@.services, service_uuid@).unwrap();
                let p1 = spec_after_characteristics(old(self)@, i, found_views(characteristics@));
                (final(self)@, action_views(actions@)) == if p1.services[i].characteristics.len() == 0 {
                    spec_check_discovered(p1, max_write_len)
                } else {
                    (p1, Seq::<SpecAction>::empty())
                }
            }),
    {
        let ghost old_view = self@;
        proof {
            lemma_wf_exec(self);
        }
        let i = find_service(&self.services, service_uuid).unwrap();
        let mut sv = self.swap_service(i, ServiceState::empty(service_uuid));
        proof {
            assert(characteristics_wf(old_view.services[i as int].characteristics));
        }
        sv.merge_characteristics(&characteristics);
        let empty = sv.characteristics.len() == 0;
        if empty {
            sv.discovered = true;
        }
        let ghost svv = sv@;
        let _ = self.swap_service(i, sv);
        let ghost p1 = spec_after_characteristics(old_view, i as int, found_views(characteristics@));
        proof {
            assert(self@.services =~= p1.services);
            assert(self@ == p1);
            assert forall|k: int| 0 <= k < p1.services.len() implies characteristics_wf(
                #[trigger] p1.services[k].characteristics,
            ) by {
                if k != i {
                    assert(p1.services[k] == old_view.services[k]);
                }
            }
            assert forall|a: int, b: int| 0 <= a < b < p1.services.len() implies p1.services[a].uuid
                != p1.services[b].uuid by {
                assert(old_view.services[a].uuid != old_view.services[b].uuid);
            }
        }
        if empty {
            self.check_discovered(max_write_len)
        } else {
            let actions: Vec<PeripheralAction> = Vec::new();
            assert(action_views(actions@) =~= Seq::<SpecAction>::empty());
            actions
        }
    }

    /// The descriptors found on a characteristic (none when CoreBluetooth
    /// reported an error). A descriptor not known is added; the
    /// characteristic is discovered, its service too once all its
    /// characteristics are, which may end discovery. Gives `false`, and
    /// changes nothing, when the characteristic is not there.
    pub fn set_characteristic_descriptors(
        &mut self,
        service_uuid: Uuid,
        characteristic_uuid: Uuid,
        descriptors: Vec<Uuid>,
        max_write_len: usize,
    ) -> (res: (bool, Vec<PeripheralAction>))
        requires
            peripheral_wf(old(self)@),
            match char_location(old(self)@, service_uuid@, characteristic_uuid@) {
                Some((i, j)) => {
                    let p1 = spec_after_descriptors(old(self)@, i, j, uuid_views(descriptors@));
                    all_characteristics_discovered(p1.services[i].characteristics) && all_discovered(p1) ==> old(
                        self,
                    )@.services_discovered is Some
                },
                None => true,
            },
        ensures
            peripheral_wf(final(self)@),
            match char_location(old(self)@, service_uuid@, characteristic_uuid@) {
                None => !res.0 && final(self)@ == old(self)@ && res.1@.len() == 0,
                Some((i, j)) => {
                    let p1 = spec_after_descriptors(old(self)@, i, j, uuid_views(descriptors@));
                    &&& res.0
                    &&& (final(self)@, action_views(res.1@)) == if all_characteristics_discovered(
                        p1.services[i].characteristics,
                    ) {
                        spec_check_discovered(p1, max_write_len)
                    } else {
                        (p1, Seq::<SpecAction>::empty())
                    }
                },
            },
    {
        let ghost old_view = self@;
        let (i, j) = match self.locate(service_uuid, characteristic_uuid) {
            Ok(ij) => ij,
            Err(_) => {
                return (false, Vec::new());
            },
        };
        let mut c = self.take_characteristic(i, j);
        proof {
            assert(characteristics_wf(old_view.services[i as int].characteristics));
        }
        c.merge_descriptors(&descriptors);
        c.discovered = true;
        let ghost cv = c@;
        let _ = self.swap_characteristic(i, j, c);
        let ghost p1a = self@;
        proof {
            lemma_with_characteristic_wf(old_view, i as int, j as int, cv);
        }
        let mut all: bool = true;
        let mut k: usize = 0;
        while k < self.services[i].characteristics.len()
            invariant
                i < self@.services.len(),
                self@ == p1a,
                k <= self@.services[i as int].characteristics.len(),
                all == (forall|a: int| 0 <= a < k ==> #[trigger] self@.services[i as int].characteristics[a].discovered),
            decreases self@.services[i as int].characteristics.len() - k,
        {
            proof {
                assert(self.services@[i as int].characteristics@[k as int].discovered
                    == self@.services[i as int].characteristics[k as int].discovered);
            }
            if !self.services[i].characteristics[k].discovered {
                all = false;
            }
            k = k + 1;
        }
        proof {
            assert(all == all_characteristics_discovered(p1a.services[i as int].characteristics));
        }
        if all {
            let mut sv = self.swap_service(i, ServiceState::empty(service_uuid));
            sv.discovered = true;
            let ghost svv = sv@;
            let _ = self.swap_service(i, sv);
            proof {
                assert(self@.services =~= with_service(p1a, i as int, svv).services);
                assert forall|k2: int| 0 <= k2 < self@.services.len() implies characteristics_wf(
                    #[trigger] self@.services[k2].characteristics,
                ) by {
                    assert(characteristics_wf(p1a.services[k2].characteristics));
                }
                assert forall|a: int, b: int| 0 <= a < b < self@.services.len() implies self@.services[a].uuid
                    != self@.services[b].uuid by {
                    assert(p1a.services[a].uuid != p1a.services[b].uuid);
                }
            }
            let actions = self.check_discovered(max_write_len);
            (true, actions)
        } else {
            let actions: Vec<PeripheralAction> = Vec::new();
            assert(action_views(actions@) =~= Seq::<SpecAction>::empty());
            (true, actions)
        }
    }

    /// The descriptors found on a characteristic, as reported by
    /// CoreBluetooth. When the characteristic is not there, the waiting
    /// discovery is answered with an error naming the service and the
    /// characteristic.
    pub fn on_discovered_characteristic_descriptors(
        &mut self,
        service_uuid: Uuid,
        characteristic_uuid: Uuid,
        descriptors: Vec<Uuid>,
        max_write_len: usize,
    ) -> (actions: Vec<PeripheralAction>)
        requires
            peripheral_wf(old(self)@),
            match char_location(old(self)@, service_uuid@, characteristic_uuid@) {
                Some((i, j)) => {
                    let p1 = spec_after_descriptors(old(self)@, i, j, uuid_views(descriptors@));
                    all_characteristics_discovered(p1.services[i].characteristics) && all_discovered(p1) ==> old(
                        self,
                    )@.services_discovered is Some
                },
                None => true,
            },
        ensures
            peripheral_wf(final(self)@),
            match char_location(old(self)@, service_uuid@, characteristic_uuid@) {
                None => final(self)@ == (SpecPeripheral { services_discovered: None, ..old(self)@ })
                    && action_views(actions@) == match old(self)@.services_discovered {
                    Some(t) => seq![
                        spec_err(
                            t,
                            "Unknown descriptor relationship for service "@ + spec_hyphenated(service_uuid@)
                                + ", characteristic "@ + spec_hyphenated(characteristic_uuid@),
                        ),
                    ],
                    None => Seq::empty(),
                },
                Some((i, j)) => {
                    let p1 = spec_after_descriptors(old(self)@, i, j, uuid_views(descriptors@));
                    (final(self)@, action_views(actions@)) == if all_characteristics_discovered(
                        p1.services[i].characteristics,
                    ) {
                        spec_check_discovered(p1, max_write_len)
                    } else {
                        (p1, Seq::<SpecAction>::empty())
                    }
                },
            },
    {
        let (found, mut actions) = self.set_characteristic_descriptors(
            service_uuid,
            characteristic_uuid,
            descriptors,
            max_write_len,
        );
        if !found {
            if let Some(t) = self.services_discovered.take() {
                let mut msg = String::from_str("Unknown descriptor relationship for service ");
                msg.append(service_uuid.to_string().as_str());
                msg.append(", characteristic ");
                msg.append(characteristic_uuid.to_string().as_str());
                actions.push(PeripheralAction::Reply(t, CoreBluetoothReply::Failure(msg)));
            }
            proof {
                assert(action_views(actions@) =~= match old(self)@.services_discovered {
                    Some(t) => seq![
                        spec_err(
                            t,
                            "Unknown descriptor relationship for service "@ + spec_hyphenated(service_uuid@)
                                + ", characteristic "@ + spec_hyphenated(characteristic_uuid@),
                        ),
                    ],
                    None => Seq::empty(),
                });
            }
        }
        actions
    }
}

proof fn lemma_service_pos_unique(s: Seq<SpecService>, u: u128, i: int)
    requires
        forall|a: int, b: int| 0 <= a < b < s.len() ==> s[a].uuid != s[b].uuid,
        0 <= i < s.len(),
        s[i].uuid == u,
    ensures
        service_pos(s, u) == Some(i),
{
    let c = choose|k: int| 0 <= k < s.len() && s[k].uuid == u;
    assert(s[c].uuid == u);
    if c < i {
        assert(s[c].uuid != s[i].uuid);
    } else if c > i {
        assert(s[i].uuid != s[c].uuid);
    }
}

proof fn lemma_characteristic_pos_unique(cs: Seq<SpecCharacteristic>, u: u128, j: int)
    requires
        forall|a: int, b: int| 0 <= a < b < cs.len() ==> cs[a].uuid != cs[b].uuid,
        0 <= j < cs.len(),
        cs[j].uuid == u,
    ensures
        characteristic_pos(cs, u) == Some(j),
{
    let c = choose|k: int| 0 <= k < cs.len() && cs[k].uuid == u;
    assert(cs[c].uuid == u);
    if c < j {
        assert(cs[c].uuid != cs[j].uuid);
    } else if c > j {
        assert(cs[j].uuid != cs[c].uuid);
    }
}

/// Where a characteristic is does not change when one characteristic is
/// replaced by one with the same UUID; neither does any other
/// characteristic.
proof fn lemma_locations_kept(p: SpecPeripheral, i: int, j: int, c: SpecCharacteristic, su: u128, cu: u128)
    requires
        peripheral_wf(p),
        0 <= i < p.services.len(),
        0 <= j < p.services[i].characteristics.len(),
        c.uuid == p.services[i].characteristics[j].uuid,
    ensures
        char_location(with_characteristic(p, i, j, c), su, cu) == char_location(p, su, cu),
{
    let q = with_characteristic(p, i, j, c);
    match service_pos(p.services, su) {
        Some(k) => {
            assert(p.services[k].uuid == su);
            lemma_service_pos_unique(q.services, su, k);
            assert(characteristics_wf(p.services[k].characteristics));
            match characteristic_pos(p.services[k].characteristics, cu) {
                Some(l) => {
                    assert(p.services[k].characteristics[l].uuid == cu);
                    assert(q.services[k].characteristics[l].uuid == cu);
                    lemma_characteristic_pos_unique(q.services[k].characteristics, cu, l);
                },
                None => {
                    if exists|l: int| 0 <= l < q.services[k].characteristics.len() && q.services[k].characteristics[l].uuid == cu {
                        let l = choose|l: int| 0 <= l < q.services[k].characteristics.len() && q.services[k].characteristics[l].uuid == cu;
                        assert(p.services[k].characteristics[l].uuid == cu);
                    }
                },
            }
        },
        None => {
            if exists|k: int| 0 <= k < q.services.len() && q.services[k].uuid == su {
                let k = choose|k: int| 0 <= k < q.services.len() && q.services[k].uuid == su;
                assert(p.services[k].uuid == su);
            }
        },
    }
}

/// Notification requests of distinct characteristics are independent:
/// queueing a request on one characteristic, or delivering its
/// notification-state callback, leaves every other characteristic as it
/// was, where it was.
pub proof fn law_notification_queues_are_independent(
    p: SpecPeripheral,
    su: u128,
    cu: u128,
    other_su: u128,
    other_cu: u128,
    enabled: bool,
    ticket: u64,
    error: Option<Seq<char>>,
)
    requires
        peripheral_wf(p),
        (su, cu) != (other_su, other_cu),
    ensures
        ({
            let (q, _) = spec_queue_notification(p, su, cu, enabled, ticket);
            &&& char_location(q, other_su, other_cu) == char_location(p, other_su, other_cu)
            &&& char_location(p, other_su, other_cu) matches Some((k, l)) ==> q.services[k].characteristics[l]
                == p.services[k].characteristics[l]
        }),
        ({
            let (q, _) = spec_notification_state_updated(p, su, cu, error);
            &&& char_location(q, other_su, other_cu) == char_location(p, other_su, other_cu)
            &&& char_location(p, other_su, other_cu) matches Some((k, l)) ==> q.services[k].characteristics[l]
                == p.services[k].characteristics[l]
        }),
{
    if let Some((i, j)) = char_location(p, su, cu) {
        let c = p.services[i].characteristics[j];
        let c1 = SpecCharacteristic { notifications: c.notifications.push(NotificationRequest { enabled, ticket }), ..c };
        let c2 = SpecCharacteristic { notifications: c.notifications.drop_first(), ..c };
        lemma_locations_kept(p, i, j, c1, other_su, other_cu);
        lemma_locations_kept(p, i, j, c2, other_su, other_cu);
        if let Some((k, l)) = char_location(p, other_su, other_cu) {
            assert(p.services[i].uuid == su && p.services[i].characteristics[j].uuid == cu);
            assert(p.services[k].uuid == other_su && p.services[k].characteristics[l].uuid == other_cu);
            assert((k, l) != (i, j));
        }
    }
}

/// Queueing each of `reqs` in turn on characteristic `(su, cu)`.
pub open spec fn spec_queue_all(p: SpecPeripheral, su: u128, cu: u128, reqs: Seq<NotificationRequest>) -> (
    SpecPeripheral,
    Seq<SpecAction>,
)
    decreases reqs.len(),
{
    if reqs.len() == 0 {
        (p, Seq::empty())
    } else {
        let (p1, a1) = spec_queue_all(p, su, cu, reqs.drop_last());
        let (p2, a2) = spec_queue_notification(p1, su, cu, reqs.last().enabled, reqs.last().ticket);
        (p2, a1 + a2)
    }
}

/// Delivering `n` successful notification-state callbacks for
/// characteristic `(su, cu)`.
pub open spec fn spec_callbacks(p: SpecPeripheral, su: u128, cu: u128, n: nat) -> (SpecPeripheral, Seq<SpecAction>)
    decreases n,
{
    if n == 0 {
        (p, Seq::empty())
    } else {
        let (p1, a1) = spec_callbacks(p, su, cu, (n - 1) as nat);
        let (p2, a2) = spec_notification_state_updated(p1, su, cu, None);
        (p2, a1 + a2)
    }
}

/// What the `k`-th successful callback does to requests `reqs` queued in
/// order: it answers `reqs[k]` and hands over `reqs[k + 1]`, if any.
pub open spec fn spec_callback_actions(su: u128, cu: u128, reqs: Seq<NotificationRequest>, n: nat) -> Seq<SpecAction>
    decreases n,
{
    if n == 0 {
        Seq::empty()
    } else {
        let k = n - 1;
        spec_callback_actions(su, cu, reqs, (n - 1) as nat) + seq![SpecAction::Reply(reqs[k].ticket, SpecReply::Success)]
            + spec_submit_head(su, cu, reqs.subrange(k + 1, reqs.len() as int))
    }
}

proof fn lemma_queue_all(p: SpecPeripheral, su: u128, cu: u128, reqs: Seq<NotificationRequest>, i: int, j: int)
    requires
        peripheral_wf(p),
        char_location(p, su, cu) == Some((i, j)),
        p.services[i].characteristics[j].notifications.len() == 0,
    ensures
        ({
            let c = p.services[i].characteristics[j];
            let (q, a) = spec_queue_all(p, su, cu, reqs);
            &&& q == with_characteristic(p, i, j, SpecCharacteristic { notifications: reqs, ..c })
            &&& a == spec_submit_head(su, cu, reqs)
            &&& peripheral_wf(q)
            &&& char_location(q, su, cu) == Some((i, j))
        }),
    decreases reqs.len(),
{
    let c = p.services[i].characteristics[j];
    if reqs.len() == 0 {
        assert(c.notifications =~= reqs);
        assert(SpecCharacteristic { notifications: reqs, ..c } == c);
        assert(with_characteristic(p, i, j, SpecCharacteristic { notifications: reqs, ..c }).services[i].characteristics
            =~= p.services[i].characteristics);
        assert(with_characteristic(p, i, j, SpecCharacteristic { notifications: reqs, ..c }).services =~= p.services);
    } else {
        lemma_queue_all(p, su, cu, reqs.drop_last(), i, j);
        let p1 = with_characteristic(p, i, j, SpecCharacteristic { notifications: reqs.drop_last(), ..c });
        let c1 = p1.services[i].characteristics[j];
        assert(c1.notifications.push(NotificationRequest { enabled: reqs.last().enabled, ticket: reqs.last().ticket })
            =~= reqs);
        lemma_with_characteristic_twice(p, i, j, SpecCharacteristic { notifications: reqs.drop_last(), ..c }, SpecCharacteristic { notifications: reqs, ..c });
        assert(SpecCharacteristic { notifications: reqs, ..c1 } == SpecCharacteristic { notifications: reqs, ..c });
        lemma_with_characteristic_wf(p, i, j, SpecCharacteristic { notifications: reqs, ..c });
        lemma_locations_kept(p, i, j, SpecCharacteristic { notifications: reqs, ..c }, su, cu);
        if reqs.len() == 1 {
            assert(reqs.drop_last().len() == 0);
            assert(spec_submit_head(su, cu, reqs.drop_last()) =~= Seq::<SpecAction>::empty());
            assert(spec_submit_head(su, cu, reqs.drop_last()) + spec_submit_head(su, cu, reqs) =~= spec_submit_head(su, cu, reqs));
        } else {
            assert(reqs.drop_last()[0] == reqs[0]);
            assert(spec_submit_head(su, cu, reqs.drop_last()) + Seq::<SpecAction>::empty() =~= spec_submit_head(su, cu, reqs));
        }
    }
}

proof fn lemma_callbacks(p: SpecPeripheral, su: u128, cu: u128, reqs: Seq<NotificationRequest>, n: nat, i: int, j: int)
    requires
        peripheral_wf(p),
        char_location(p, su, cu) == Some((i, j)),
        n <= reqs.len(),
        p.services[i].characteristics[j].notifications == reqs,
    ensures
        ({
            let c = p.services[i].characteristics[j];
            let (q, a) = spec_callbacks(p, su, cu, n);
            &&& q == with_characteristic(
                p,
                i,
                j,
                SpecCharacteristic { notifications: reqs.subrange(n as int, reqs.len() as int), ..c },
            )
            &&& a == spec_callback_actions(su, cu, reqs, n)
            &&& peripheral_wf(q)
            &&& char_location(q, su, cu) == Some((i, j))
        }),
    decreases n,
{
    let c = p.services[i].characteristics[j];
    if n == 0 {
        assert(reqs.subrange(0, reqs.len() as int) =~= reqs);
        assert(with_characteristic(p, i, j, SpecCharacteristic { notifications: reqs, ..c }).services[i].characteristics
            =~= p.services[i].characteristics);
        assert(with_characteristic(p, i, j, SpecCharacteristic { notifications: reqs, ..c }).services =~= p.services);
    } else {
        lemma_callbacks(p, su, cu, reqs, (n - 1) as nat, i, j);
        let rest = reqs.subrange(n - 1, reqs.len() as int);
        let p1 = with_characteristic(p, i, j, SpecCharacteristic { notifications: rest, ..c });
        let c1 = p1.services[i].characteristics[j];
        assert(c1.notifications == rest);
        assert(rest.drop_first() =~= reqs.subrange(n as int, reqs.len() as int));
        lemma_with_characteristic_twice(p, i, j, SpecCharacteristic { notifications: rest, ..c }, SpecCharacteristic { notifications: rest.drop_first(), ..c });
        assert(SpecCharacteristic { notifications: rest.drop_first(), ..c1 } == SpecCharacteristic { notifications: rest.drop_first(), ..c });
        lemma_with_characteristic_wf(p, i, j, SpecCharacteristic { notifications: rest.drop_first(), ..c });
        lemma_locations_kept(p, i, j, SpecCharacteristic { notifications: rest.drop_first(), ..c }, su, cu);
        assert(rest[0] == reqs[n - 1]);
    }
}

/// Notification requests of a characteristic are handled one at a time, in
/// the order they were queued: queueing requests on a characteristic with
/// none waiting hands only the first to CoreBluetooth; then each callback
/// answers the request at the head and hands over the next one. Once every
/// request has been answered, the peripheral is as it was before.
pub proof fn law_notification_requests_are_serialized(
    p: SpecPeripheral,
    su: u128,
    cu: u128,
    reqs: Seq<NotificationRequest>,
)
    requires
        peripheral_wf(p),
        char_location(p, su, cu) matches Some((i, j)) && p.services[i].characteristics[j].notifications.len() == 0,
    ensures
        ({
            let (q, a) = spec_queue_all(p, su, cu, reqs);
            let (r, b) = spec_callbacks(q, su, cu, reqs.len());
            &&& a == spec_submit_head(su, cu, reqs)
            &&& b == spec_callback_actions(su, cu, reqs, reqs.len())
            &&& r == p
        }),
{
    let (i, j) = char_location(p, su, cu).unwrap();
    lemma_queue_all(p, su, cu, reqs, i, j);
    let c = p.services[i].characteristics[j];
    let q = with_characteristic(p, i, j, SpecCharacteristic { notifications: reqs, ..c });
    lemma_callbacks(q, su, cu, reqs, reqs.len(), i, j);
    let cq = q.services[i].characteristics[j];
    assert(reqs.subrange(reqs.len() as int, reqs.len() as int) =~= c.notifications);
    lemma_with_characteristic_twice(p, i, j, SpecCharacteristic { notifications: reqs, ..c }, SpecCharacteristic { notifications: c.notifications, ..c });
    assert(SpecCharacteristic { notifications: c.notifications, ..cq } == c);
    assert(with_characteristic(p, i, j, c).services[i].characteristics =~= p.services[i].characteristics);
    assert(with_characteristic(p, i, j, c).services =~= p.services);
}

/// A callback for a characteristic with no request waiting is ignored, and
/// after a disconnection nothing is waiting: a late callback changes
/// nothing and hands nothing over.
pub proof fn law_callback_after_drain_is_ignored(p: SpecPeripheral, su: u128, cu: u128, error: Option<Seq<char>>)
    ensures
        spec_notification_state_updated(drained(p), su, cu, error) == (drained(p), Seq::<SpecAction>::empty()),
{
    let d = drained(p);
    if let Some((i, j)) = char_location(d, su, cu) {
        assert(d.services[i] == drained_service(p.services[i]));
        assert(d.services[i].characteristics[j] == drained_characteristic(p.services[i].characteristics[j]));
    }
}

/// Draining answers every waiting operation: nothing is left waiting, and
/// draining again answers nothing.
pub proof fn law_drain_leaves_nothing_waiting(p: SpecPeripheral, message: Seq<char>)
    ensures
        pending_tickets(drained(p)) == Seq::<u64>::empty(),
        drained(drained(p)) == drained(p),
{
    let d = drained(p);
    assert forall|k: int| 0 <= k < d.services.len() implies characteristics_tickets(
        #[trigger] d.services[k].characteristics,
    ) == Seq::<u64>::empty() by {
        lemma_drained_characteristics_tickets(p.services[k].characteristics);
    }
    lemma_services_tickets_empty(d.services);
    assert(pending_tickets(d) =~= Seq::<u64>::empty());
    assert forall|k: int| 0 <= k < d.services.len() implies drained_service(d.services[k]) == d.services[k] by {
        let sv = p.services[k];
        let cs = d.services[k].characteristics;
        assert forall|l: int| 0 <= l < cs.len() implies drained_characteristic(cs[l]) == cs[l] by {
            let c = sv.characteristics[l];
            assert(cs[l].descriptors.map_values(|x: SpecDescriptor| drained_descriptor(x)) =~= cs[l].descriptors);
        }
        assert(cs.map_values(|c: SpecCharacteristic| drained_characteristic(c)) =~= cs);
    }
    assert(drained(d).services =~= d.services);
}

proof fn lemma_descriptors_tickets_empty(ds: Seq<SpecDescriptor>)
    requires
        forall|k: int| 0 <= k < ds.len() ==> #[trigger] ds[k].reads.len() == 0 && ds[k].writes.len() == 0,
    ensures
        descriptors_tickets(ds) == Seq::<u64>::empty(),
    decreases ds.len(),
{
    if ds.len() > 0 {
        lemma_descriptors_tickets_empty(ds.drop_last());
        assert(ds.last().reads.len() == 0 && ds.last().writes.len() == 0);
        assert(descriptors_tickets(ds) =~= Seq::<u64>::empty());
    }
}

proof fn lemma_drained_characteristics_tickets(cs: Seq<SpecCharacteristic>)
    ensures
        characteristics_tickets(cs.map_values(|c: SpecCharacteristic| drained_characteristic(c))) == Seq::<u64>::empty(),
    decreases cs.len(),
{
    let m = cs.map_values(|c: SpecCharacteristic| drained_characteristic(c));
    if cs.len() > 0 {
        lemma_drained_characteristics_tickets(cs.drop_last());
        assert(m.drop_last() =~= cs.drop_last().map_values(|c: SpecCharacteristic| drained_characteristic(c)));
        let last = m.last();
        assert(last == drained_characteristic(cs.last()));
        lemma_descriptors_tickets_empty(last.descriptors);
        assert(characteristic_tickets(last) =~= Seq::<u64>::empty());
        assert(characteristics_tickets(m) =~= Seq::<u64>::empty());
    }
}

proof fn lemma_services_tickets_empty(ss: Seq<SpecService>)
    requires
        forall|k: int| 0 <= k < ss.len() ==> characteristics_tickets(#[trigger] ss[k].characteristics) == Seq::<u64>::empty(),
    ensures
        services_tickets(ss) == Seq::<u64>::empty(),
    decreases ss.len(),
{
    if ss.len() > 0 {
        lemma_services_tickets_empty(ss.drop_last());
        assert(characteristics_tickets(ss.last().characteristics) == Seq::<u64>::empty());
        assert(services_tickets(ss) =~= Seq::<u64>::empty());
    }
}

/// The answer to an operation on a peripheral that is not known (any more):
/// `"Peripheral no longer available"`.
pub fn peripheral_missing(ticket: u64) -> (a: PeripheralAction)
    ensures
        a@ == spec_err(ticket, spec_missing("Peripheral"@)),
{
    missing(ticket, "Peripheral")
}

/// The answer to a disconnection of a peripheral that is not known: it is
/// not connected, so the disconnection succeeds.
pub fn disconnect_missing(ticket: u64) -> (a: PeripheralAction)
    ensures
        a@ == SpecAction::Reply(ticket, SpecReply::Success),
{
    PeripheralAction::Reply(ticket, CoreBluetoothReply::Success)
}

/// The answer to whether a peripheral is connected: its state as
/// CoreBluetooth reports it, or disconnected when the peripheral is not
/// known (any more).
pub fn is_connected_reply(ticket: u64, state: Option<CBPeripheralState>) -> (a: PeripheralAction)
    ensures
        a@ == SpecAction::Reply(
            ticket,
            SpecReply::State(
                match state {
                    Some(st) => st,
                    None => CBPeripheralState::Disonnected,
                },
            ),
        ),
{
    let st = match state {
        Some(st) => st,
        None => CBPeripheralState::Disonnected,
    };
    PeripheralAction::Reply(ticket, CoreBluetoothReply::State(st))
}

impl PeripheralState {
    /// The peripheral's services changed and must be discovered again: what
    /// was known of them is forgotten.
    pub fn clear_services(&mut self)
        ensures
            final(self)@ == (SpecPeripheral { services: Seq::empty(), ..old(self)@ }),
            peripheral_wf(final(self)@),
    {
        self.services = Vec::new();
        assert(self@.services =~= Seq::<SpecService>::empty());
    }
}

} // verus!
