//! The bookkeeping of the CoreBluetooth adapter: which peripherals it holds
//! handles for and which it has registered with its listeners, and what it
//! does for each event of the CoreBluetooth thread.
//!
//! The adapter's event loop hands each event to [`AdapterRegistry::on_event`]
//! and performs the actions it returns, in order.

use vstd::prelude::*;
use std::collections::HashSet;
use vstd::string::StringExecFns;
use crate::api::{CentralEvent, Error, PeripheralId, PeripheralProperties, RetrievePeripheralsOptions, ValueNotification};
use crate::bleuuid::Uuid;
use crate::corebluetooth::{CBManagerState, copy_name, get_central_state, name_view, spec_central_state};

verus! {

broadcast use vstd::std_specs::hash::group_hash_axioms;

/// A peripheral that a retrieval found.
#[derive(Debug, Clone, PartialEq)]
pub struct RetrievedPeripheral {
    pub uuid: Uuid,
    pub local_name: Option<String>,
    pub advertisement_name: Option<String>,
    /// Whether the peripheral is new to the CoreBluetooth thread, so that the
    /// channel of its events comes along.
    pub has_event_receiver: bool,
}

/// What the CoreBluetooth thread tells the adapter.
#[derive(Debug, Clone, PartialEq)]
pub enum CoreBluetoothEvent {
    DidUpdateState { state: CBManagerState },
    DeviceDiscovered { uuid: Uuid, local_name: Option<String>, advertisement_name: Option<String> },
    RetrievedPeripherals { peripherals: Vec<RetrievedPeripheral> },
    DeviceUpdated { uuid: Uuid, local_name: Option<String>, advertisement_name: Option<String> },
    DeviceDisconnected { uuid: Uuid },
    PeripheralsCleared,
}

/// What the adapter does for an event.
#[derive(Debug, Clone, PartialEq)]
pub enum AdapterAction {
    /// Create the peripheral of the UUID, with the channel of its events, and
    /// keep it as the UUID's handle.
    CreatePeripheral { uuid: Uuid, local_name: Option<String>, advertisement_name: Option<String> },
    /// Give the UUID's handle these names.
    RenameHandle { uuid: Uuid, local_name: Option<String>, advertisement_name: Option<String> },
    /// Give the registered peripheral of the UUID these names.
    RenameRegistered { uuid: Uuid, local_name: Option<String>, advertisement_name: Option<String> },
    /// Register the UUID's handle with the adapter's listeners.
    RegisterHandle { uuid: Uuid },
    /// Drop the UUID's handle.
    DropHandle { uuid: Uuid },
    /// Forget every handle and every registered peripheral.
    ClearAll,
    /// Tell the listeners.
    Emit(CentralEvent),
    /// Answer the retrieval with the handles of these UUIDs, in this order.
    ReplyPeripherals(Vec<Uuid>),
    /// Answer the request to clear the peripherals.
    ReplyOk,
}

/// A retrieved peripheral, as plain values.
pub struct SpecRetrieved {
    pub uuid: Uuid,
    pub local_name: Option<Seq<char>>,
    pub advertisement_name: Option<Seq<char>>,
    pub has_event_receiver: bool,
}

/// An event of the CoreBluetooth thread, as plain values.
pub enum SpecEvent {
    DidUpdateState { state: CBManagerState },
    DeviceDiscovered { uuid: Uuid, local_name: Option<Seq<char>>, advertisement_name: Option<Seq<char>> },
    RetrievedPeripherals { peripherals: Seq<SpecRetrieved> },
    DeviceUpdated { uuid: Uuid, local_name: Option<Seq<char>>, advertisement_name: Option<Seq<char>> },
    DeviceDisconnected { uuid: Uuid },
    PeripheralsCleared,
}

/// An action of the adapter, as plain values.
pub enum SpecAction {
    CreatePeripheral { uuid: Uuid, local_name: Option<Seq<char>>, advertisement_name: Option<Seq<char>> },
    RenameHandle { uuid: Uuid, local_name: Option<Seq<char>>, advertisement_name: Option<Seq<char>> },
    RenameRegistered { uuid: Uuid, local_name: Option<Seq<char>>, advertisement_name: Option<Seq<char>> },
    RegisterHandle { uuid: Uuid },
    DropHandle { uuid: Uuid },
    ClearAll,
    Emit(CentralEvent),
    ReplyPeripherals(Seq<Uuid>),
    ReplyOk,
}

impl View for RetrievedPeripheral {
    type V = SpecRetrieved;

    open spec fn view(&self) -> SpecRetrieved {
        SpecRetrieved {
            uuid: self.uuid,
            local_name: name_view(self.local_name),
            advertisement_name: name_view(self.advertisement_name),
            has_event_receiver: self.has_event_receiver,
        }
    }
}

/// The plain values of retrieved peripherals.
pub open spec fn retrieved_views(rs: Seq<RetrievedPeripheral>) -> Seq<SpecRetrieved> {
    rs.map_values(|r: RetrievedPeripheral| r@)
}

impl View for CoreBluetoothEvent {
    type V = SpecEvent;

    open spec fn view(&self) -> SpecEvent {
        match self {
            CoreBluetoothEvent::DidUpdateState { state } => SpecEvent::DidUpdateState { state: *state },
            CoreBluetoothEvent::DeviceDiscovered { uuid, local_name, advertisement_name } =>
                SpecEvent::DeviceDiscovered {
                uuid: *uuid,
                local_name: name_view(*local_name),
                advertisement_name: name_view(*advertisement_name),
            },
            CoreBluetoothEvent::RetrievedPeripherals { peripherals } => SpecEvent::RetrievedPeripherals {
                peripherals: retrieved_views(peripherals@),
            },
            CoreBluetoothEvent::DeviceUpdated { uuid, local_name, advertisement_name } =>
                SpecEvent::DeviceUpdated {
                uuid: *uuid,
                local_name: name_view(*local_name),
                advertisement_name: name_view(*advertisement_name),
            },
            CoreBluetoothEvent::DeviceDisconnected { uuid } => SpecEvent::DeviceDisconnected { uuid: *uuid },
            CoreBluetoothEvent::PeripheralsCleared => SpecEvent::PeripheralsCleared,
        }
    }
}

impl View for AdapterAction {
    type V = SpecAction;

    open spec fn view(&self) -> SpecAction {
        match self {
            AdapterAction::CreatePeripheral { uuid, local_name, advertisement_name } =>
                SpecAction::CreatePeripheral {
                uuid: *uuid,
                local_name: name_view(*local_name),
                advertisement_name: name_view(*advertisement_name),
            },
            AdapterAction::RenameHandle { uuid, local_name, advertisement_name } => SpecAction::RenameHandle {
                uuid: *uuid,
                local_name: name_view(*local_name),
                advertisement_name: name_view(*advertisement_name),
            },
            AdapterAction::RenameRegistered { uuid, local_name, advertisement_name } =>
                SpecAction::RenameRegistered {
                uuid: *uuid,
                local_name: name_view(*local_name),
                advertisement_name: name_view(*advertisement_name),
            },
            AdapterAction::RegisterHandle { uuid } => SpecAction::RegisterHandle { uuid: *uuid },
            AdapterAction::DropHandle { uuid } => SpecAction::DropHandle { uuid: *uuid },
            AdapterAction::ClearAll => SpecAction::ClearAll,
            AdapterAction::Emit(e) => SpecAction::Emit(*e),
            AdapterAction::ReplyPeripherals(v) => SpecAction::ReplyPeripherals(v@),
            AdapterAction::ReplyOk => SpecAction::ReplyOk,
        }
    }
}

/// The plain values of a list of actions.
pub open spec fn action_views(v: Seq<AdapterAction>) -> Seq<SpecAction> {
    v.map_values(|a: AdapterAction| a@)
}

/// The adapter's bookkeeping, as plain values: the UUIDs (by value) that it
/// holds handles for, and those registered with its listeners.
pub struct SpecRegistry {
    pub handles: Set<u128>,
    pub registered: Set<u128>,
}

/// The handles and registered peripherals of the CoreBluetooth adapter, by
/// UUID.
pub struct AdapterRegistry {
    handles: HashSet<u128>,
    registered: HashSet<u128>,
}

impl View for AdapterRegistry {
    type V = SpecRegistry;

    closed spec fn view(&self) -> SpecRegistry {
        SpecRegistry { handles: self.handles@, registered: self.registered@ }
    }
}

/// Registering a handle that is not registered yet announces it.
pub open spec fn spec_register(s: SpecRegistry, uuid: Uuid) -> (SpecRegistry, Seq<SpecAction>) {
    if s.registered.contains(uuid.0) {
        (s, Seq::empty())
    } else {
        (
            SpecRegistry { registered: s.registered.insert(uuid.0), ..s },
            seq![
                SpecAction::RegisterHandle { uuid },
                SpecAction::Emit(CentralEvent::DeviceDiscovered(PeripheralId(uuid))),
            ],
        )
    }
}

/// One retrieved peripheral: a known handle is renamed, a new one is created
/// from its channel, and one that is neither is left out. What is kept is
/// registered, and announced, if it is not yet, and answered with.
pub open spec fn spec_retrieve_one(s: SpecRegistry, r: SpecRetrieved) -> (SpecRegistry, Seq<SpecAction>, Seq<Uuid>) {
    let u = r.uuid;
    if s.handles.contains(u.0) {
        let (s1, a1) = spec_register(s, u);
        (
            s1,
            seq![
                SpecAction::RenameHandle {
                    uuid: u,
                    local_name: r.local_name,
                    advertisement_name: r.advertisement_name,
                },
            ] + a1,
            seq![u],
        )
    } else if r.has_event_receiver {
        let (s1, a1) = spec_register(SpecRegistry { handles: s.handles.insert(u.0), ..s }, u);
        (
            s1,
            seq![
                SpecAction::CreatePeripheral {
                    uuid: u,
                    local_name: r.local_name,
                    advertisement_name: r.advertisement_name,
                },
            ] + a1,
            seq![u],
        )
    } else {
        (s, Seq::empty(), Seq::empty())
    }
}

/// The retrieved peripherals, one after the other: the state after them,
/// the actions for them, and the UUIDs to answer with.
pub open spec fn spec_retrieve(s: SpecRegistry, rs: Seq<SpecRetrieved>) -> (SpecRegistry, Seq<SpecAction>, Seq<Uuid>)
    decreases rs.len(),
{
    if rs.len() == 0 {
        (s, Seq::empty(), Seq::empty())
    } else {
        let (s1, a1, u1) = spec_retrieve(s, rs.drop_last());
        let (s2, a2, u2) = spec_retrieve_one(s1, rs.last());
        (s2, a1 + a2, u1 + u2)
    }
}

/// The state after an event, and the actions for it.
pub open spec fn spec_on_event(s: SpecRegistry, e: SpecEvent) -> (SpecRegistry, Seq<SpecAction>) {
    match e {
        SpecEvent::DidUpdateState { state } => (
            s,
            seq![SpecAction::Emit(CentralEvent::StateUpdate(spec_central_state(state)))],
        ),
        SpecEvent::DeviceDiscovered { uuid, local_name, advertisement_name } => {
            if s.registered.contains(uuid.0) {
                (s, Seq::empty())
            } else {
                (
                    SpecRegistry {
                        handles: s.handles.insert(uuid.0),
                        registered: s.registered.insert(uuid.0),
                    },
                    seq![
                        SpecAction::CreatePeripheral { uuid, local_name, advertisement_name },
                        SpecAction::RegisterHandle { uuid },
                        SpecAction::Emit(CentralEvent::DeviceDiscovered(PeripheralId(uuid))),
                    ],
                )
            }
        },
        SpecEvent::RetrievedPeripherals { peripherals } => {
            let (s1, a1, u1) = spec_retrieve(s, peripherals);
            (s1, a1.push(SpecAction::ReplyPeripherals(u1)))
        },
        SpecEvent::DeviceUpdated { uuid, local_name, advertisement_name } => {
            if s.registered.contains(uuid.0) {
                (
                    s,
                    seq![
                        SpecAction::RenameRegistered { uuid, local_name, advertisement_name },
                        SpecAction::Emit(CentralEvent::DeviceUpdated(PeripheralId(uuid))),
                    ],
                )
            } else {
                (s, Seq::empty())
            }
        },
        SpecEvent::DeviceDisconnected { uuid } => (
            SpecRegistry { handles: s.handles.remove(uuid.0), registered: s.registered.remove(uuid.0) },
            seq![
                SpecAction::DropHandle { uuid },
                SpecAction::Emit(CentralEvent::DeviceDisconnected(PeripheralId(uuid))),
            ],
        ),
        SpecEvent::PeripheralsCleared => (
            SpecRegistry { handles: Set::empty(), registered: Set::empty() },
            seq![SpecAction::ClearAll, SpecAction::ReplyOk],
        ),
    }
}

impl AdapterRegistry {
    /// An adapter without handles or registered peripherals.
    pub fn new() -> (r: AdapterRegistry)
        ensures
            r@.handles == Set::<u128>::empty(),
            r@.registered == Set::<u128>::empty(),
    {
        AdapterRegistry { handles: HashSet::new(), registered: HashSet::new() }
    }

    /// Whether the adapter holds a handle for the UUID.
    pub fn has_handle(&self, uuid: Uuid) -> (r: bool)
        ensures
            r == self@.handles.contains(uuid.0),
    {
        self.handles.contains(&uuid.0)
    }

    /// Whether the UUID is registered with the adapter's listeners.
    pub fn is_registered(&self, uuid: Uuid) -> (r: bool)
        ensures
            r == self@.registered.contains(uuid.0),
    {
        self.registered.contains(&uuid.0)
    }

    fn register(&mut self, uuid: Uuid, actions: &mut Vec<AdapterAction>)
        ensures
            final(self)@ == spec_register(old(self)@, uuid).0,
            action_views(final(actions)@) == action_views(old(actions)@) + spec_register(old(self)@, uuid).1,
    {
        if !self.registered.contains(&uuid.0) {
            self.registered.insert(uuid.0);
            let ghost a0 = actions@;
            actions.push(AdapterAction::RegisterHandle { uuid });
            actions.push(AdapterAction::Emit(CentralEvent::DeviceDiscovered(PeripheralId(uuid))));
            assert(action_views(actions@) =~= action_views(a0) + spec_register(old(self)@, uuid).1);
        } else {
            assert(action_views(actions@) =~= action_views(old(actions)@) + spec_register(old(self)@, uuid).1);
        }
    }

    fn retrieve_one(&mut self, r: &RetrievedPeripheral, actions: &mut Vec<AdapterAction>, reply: &mut Vec<Uuid>)
        ensures
            ({
                let (s1, a1, u1) = spec_retrieve_one(old(self)@, r@);
                &&& final(self)@ == s1
                &&& action_views(final(actions)@) == action_views(old(actions)@) + a1
                &&& final(reply)@ == old(reply)@ + u1
            }),
    {
        let ghost a0 = actions@;
        let ghost s0 = self@;
        let u = r.uuid;
        if self.handles.contains(&u.0) {
            actions.push(
                AdapterAction::RenameHandle {
                    uuid: u,
                    local_name: copy_name(&r.local_name),
                    advertisement_name: copy_name(&r.advertisement_name),
                },
            );
            let ghost a1 = actions@;
            assert(action_views(a1) =~= action_views(a0) + seq![
                SpecAction::RenameHandle {
                    uuid: u,
                    local_name: r@.local_name,
                    advertisement_name: r@.advertisement_name,
                },
            ]);
            self.register(u, actions);
            reply.push(u);
            assert(action_views(actions@) =~= action_views(a0) + spec_retrieve_one(s0, r@).1);
            assert(reply@ =~= old(reply)@ + spec_retrieve_one(s0, r@).2);
        } else if r.has_event_receiver {
            actions.push(
                AdapterAction::CreatePeripheral {
                    uuid: u,
                    local_name: copy_name(&r.local_name),
                    advertisement_name: copy_name(&r.advertisement_name),
                },
            );
            let ghost a1 = actions@;
            assert(action_views(a1) =~= action_views(a0) + seq![
                SpecAction::CreatePeripheral {
                    uuid: u,
                    local_name: r@.local_name,
                    advertisement_name: r@.advertisement_name,
                },
            ]);
            self.handles.insert(u.0);
            self.register(u, actions);
            reply.push(u);
            assert(action_views(actions@) =~= action_views(a0) + spec_retrieve_one(s0, r@).1);
            assert(reply@ =~= old(reply)@ + spec_retrieve_one(s0, r@).2);
        } else {
            assert(action_views(actions@) =~= action_views(a0) + spec_retrieve_one(s0, r@).1);
            assert(reply@ =~= old(reply)@ + spec_retrieve_one(s0, r@).2);
        }
    }

    /// Updates the bookkeeping for an event of the CoreBluetooth thread and
    /// returns what the adapter does for it, in order.
    pub fn on_event(&mut self, event: CoreBluetoothEvent) -> (actions: Vec<AdapterAction>)
        ensures
            final(self)@ == spec_on_event(old(self)@, event@).0,
            action_views(actions@) == spec_on_event(old(self)@, event@).1,
    {
        let ghost s0 = self@;
        let ghost e = event@;
        let mut actions: Vec<AdapterAction> = Vec::new();
        match event {
            CoreBluetoothEvent::DidUpdateState { state } => {
                actions.push(AdapterAction::Emit(CentralEvent::StateUpdate(get_central_state(state))));
                assert(action_views(actions@) =~= spec_on_event(s0, e).1);
            },
            CoreBluetoothEvent::DeviceDiscovered { uuid, local_name, advertisement_name } => {
                if !self.registered.contains(&uuid.0) {
                    actions.push(AdapterAction::CreatePeripheral { uuid, local_name, advertisement_name });
                    self.handles.insert(uuid.0);
                    self.registered.insert(uuid.0);
                    actions.push(AdapterAction::RegisterHandle { uuid });
                    actions.push(AdapterAction::Emit(CentralEvent::DeviceDiscovered(PeripheralId(uuid))));
                }
                assert(action_views(actions@) =~= spec_on_event(s0, e).1);
            },
            CoreBluetoothEvent::RetrievedPeripherals { peripherals } => {
                let mut reply: Vec<Uuid> = Vec::new();
                let n = peripherals.len();
                let ghost rs = retrieved_views(peripherals@);
                let mut i: usize = 0;
                while i < n
                    invariant
                        n == peripherals@.len(),
                        rs == retrieved_views(peripherals@),
                        0 <= i <= n,
                        ({
                            let (s1, a1, u1) = spec_retrieve(s0, rs.take(i as int));
                            &&& self@ == s1
                            &&& action_views(actions@) == a1
                            &&& reply@ == u1
                        }),
                    decreases n - i,
                {
                    assert(rs.take(i as int + 1).drop_last() =~= rs.take(i as int));
                    assert(rs.take(i as int + 1).last() == peripherals@[i as int]@);
                    self.retrieve_one(&peripherals[i], &mut actions, &mut reply);
                    proof {
                        let (s1, a1, u1) = spec_retrieve(s0, rs.take(i as int));
                        let (s2, a2, u2) = spec_retrieve_one(s1, rs[i as int]);
                        assert(action_views(actions@) =~= a1 + a2);
                    }
                    i = i + 1;
                }
                assert(rs.take(n as int) =~= rs);
                let ghost a_before = actions@;
                actions.push(AdapterAction::ReplyPeripherals(reply));
                assert(action_views(actions@) =~= action_views(a_before).push(
                    SpecAction::ReplyPeripherals(spec_retrieve(s0, rs).2),
                ));
            },
            CoreBluetoothEvent::DeviceUpdated { uuid, local_name, advertisement_name } => {
                if self.registered.contains(&uuid.0) {
                    actions.push(AdapterAction::RenameRegistered { uuid, local_name, advertisement_name });
                    actions.push(AdapterAction::Emit(CentralEvent::DeviceUpdated(PeripheralId(uuid))));
                }
                assert(action_views(actions@) =~= spec_on_event(s0, e).1);
            },
            CoreBluetoothEvent::DeviceDisconnected { uuid } => {
                self.handles.remove(&uuid.0);
                self.registered.remove(&uuid.0);
                actions.push(AdapterAction::DropHandle { uuid });
                actions.push(AdapterAction::Emit(CentralEvent::DeviceDisconnected(PeripheralId(uuid))));
                assert(action_views(actions@) =~= spec_on_event(s0, e).1);
            },
            CoreBluetoothEvent::PeripheralsCleared => {
                self.handles.clear();
                self.registered.clear();
                actions.push(AdapterAction::ClearAll);
                actions.push(AdapterAction::ReplyOk);
                assert(action_views(actions@) =~= spec_on_event(s0, e).1);
            },
        }
        actions
    }
}

/// Whether the actions announce the UUID's peripheral as discovered.
pub open spec fn announces(a: Seq<SpecAction>, u: u128) -> bool {
    a.contains(SpecAction::Emit(CentralEvent::DeviceDiscovered(PeripheralId(Uuid(u)))))
}

/// A peripheral reported as discovered again is announced once: the first
/// report announces it exactly when it was not registered, and the second
/// does nothing.
pub proof fn law_discovery_is_announced_once(
    s: SpecRegistry,
    uuid: Uuid,
    first_names: (Option<Seq<char>>, Option<Seq<char>>),
    second_names: (Option<Seq<char>>, Option<Seq<char>>),
)
    ensures
        ({
            let (s1, a1) = spec_on_event(
                s,
                SpecEvent::DeviceDiscovered {
                    uuid,
                    local_name: first_names.0,
                    advertisement_name: first_names.1,
                },
            );
            let (s2, a2) = spec_on_event(
                s1,
                SpecEvent::DeviceDiscovered {
                    uuid,
                    local_name: second_names.0,
                    advertisement_name: second_names.1,
                },
            );
            &&& s1.registered.contains(uuid.0)
            &&& announces(a1, uuid.0) <==> !s.registered.contains(uuid.0)
            &&& s2 == s1
            &&& a2.len() == 0
        }),
{
    let (s1, a1) = spec_on_event(
        s,
        SpecEvent::DeviceDiscovered { uuid, local_name: first_names.0, advertisement_name: first_names.1 },
    );
    let ev = SpecAction::Emit(CentralEvent::DeviceDiscovered(PeripheralId(Uuid(uuid.0))));
    if !s.registered.contains(uuid.0) {
        assert(a1[2] == ev);
    } else {
        assert(a1.len() == 0);
    }
}

/// Registering keeps what was there and adds the UUID, announcing it when
/// it was new.
proof fn lemma_register(s: SpecRegistry, u: Uuid)
    ensures
        ({
            let (s1, a1) = spec_register(s, u);
            &&& s1.handles == s.handles
            &&& s1.registered == s.registered.insert(u.0)
            &&& !s.registered.contains(u.0) ==> announces(a1, u.0)
        }),
{
    let (s1, a1) = spec_register(s, u);
    if !s.registered.contains(u.0) {
        assert(a1[1] == SpecAction::Emit(CentralEvent::DeviceDiscovered(PeripheralId(Uuid(u.0)))));
    } else {
        assert(s.registered.insert(u.0) =~= s.registered);
    }
}

/// One retrieved peripheral only adds a handle and a registration; the UUID
/// it answers with has a handle and is registered afterwards, and what it
/// registers is announced.
proof fn lemma_retrieve_one(s: SpecRegistry, r: SpecRetrieved)
    ensures
        ({
            let (s1, a1, us) = spec_retrieve_one(s, r);
            &&& s.handles.subset_of(s1.handles)
            &&& s.registered.subset_of(s1.registered)
            &&& forall|i: int| 0 <= i < us.len() ==> s1.handles.contains(#[trigger] us[i].0)
                && s1.registered.contains(us[i].0)
            &&& forall|u: u128| s1.registered.contains(u) && !s.registered.contains(u) ==> announces(a1, u)
        }),
{
    let (s1, a1, us) = spec_retrieve_one(s, r);
    let ev = SpecAction::Emit(CentralEvent::DeviceDiscovered(PeripheralId(Uuid(r.uuid.0))));
    if s.handles.contains(r.uuid.0) {
        lemma_register(s, r.uuid);
        if !s.registered.contains(r.uuid.0) {
            assert(a1[2] == ev);
        }
    } else if r.has_event_receiver {
        let sh = SpecRegistry { handles: s.handles.insert(r.uuid.0), ..s };
        lemma_register(sh, r.uuid);
        if !s.registered.contains(r.uuid.0) {
            assert(a1[2] == ev);
        }
    }
}

/// A retrieval only adds handles and registrations; every UUID it answers
/// with has a handle and is registered afterwards, and every UUID it
/// registers is announced.
proof fn lemma_retrieve(s: SpecRegistry, rs: Seq<SpecRetrieved>)
    ensures
        ({
            let (s1, a1, us) = spec_retrieve(s, rs);
            &&& s.handles.subset_of(s1.handles)
            &&& s.registered.subset_of(s1.registered)
            &&& forall|i: int| 0 <= i < us.len() ==> s1.handles.contains(#[trigger] us[i].0)
                && s1.registered.contains(us[i].0)
            &&& forall|u: u128| s1.registered.contains(u) && !s.registered.contains(u) ==> announces(a1, u)
        }),
    decreases rs.len(),
{
    if rs.len() > 0 {
        lemma_retrieve(s, rs.drop_last());
        let (s1, a1, u1) = spec_retrieve(s, rs.drop_last());
        let r = rs.last();
        lemma_retrieve_one(s1, r);
        let (s2, a2, u2) = spec_retrieve_one(s1, r);
        let (s3, a3, u3) = spec_retrieve(s, rs);
        assert(s3 == s2 && a3 == a1 + a2 && u3 == u1 + u2);
        assert forall|u: u128| s3.registered.contains(u) && !s.registered.contains(u) implies announces(a3, u) by {
            if s1.registered.contains(u) {
                assert(announces(a1, u));
                let j = choose|j: int| 0 <= j < a1.len() && a1[j] == SpecAction::Emit(
                    CentralEvent::DeviceDiscovered(PeripheralId(Uuid(u))),
                );
                assert(a3[j] == a1[j]);
            } else {
                assert(announces(a2, u));
                let j = choose|j: int| 0 <= j < a2.len() && a2[j] == SpecAction::Emit(
                    CentralEvent::DeviceDiscovered(PeripheralId(Uuid(u))),
                );
                assert(a3[a1.len() + j] == a2[j]);
            }
        }
        assert forall|i: int| 0 <= i < u3.len() implies s3.handles.contains(#[trigger] u3[i].0)
            && s3.registered.contains(u3[i].0) by {
            if i < u1.len() {
                assert(u3[i] == u1[i]);
            } else {
                assert(u3[i] == u2[i - u1.len()]);
            }
        }
    }
}

/// The retrieval answers, last of all, with UUIDs that all have a handle
/// and are registered afterwards; every peripheral it registers is
/// announced, and it forgets nothing.
pub proof fn law_retrieved_peripherals_are_registered(s: SpecRegistry, rs: Seq<SpecRetrieved>)
    ensures
        ({
            let (s1, a1) = spec_on_event(s, SpecEvent::RetrievedPeripherals { peripherals: rs });
            &&& a1.len() > 0
            &&& a1.last() matches SpecAction::ReplyPeripherals(us) && forall|i: int|
                0 <= i < us.len() ==> s1.handles.contains(#[trigger] us[i].0) && s1.registered.contains(us[i].0)
            &&& s.handles.subset_of(s1.handles)
            &&& s.registered.subset_of(s1.registered)
            &&& forall|u: u128| s1.registered.contains(u) && !s.registered.contains(u) ==> announces(a1, u)
        }),
{
    lemma_retrieve(s, rs);
    let (s1, a0, us) = spec_retrieve(s, rs);
    let a1 = a0.push(SpecAction::ReplyPeripherals(us));
    assert forall|u: u128| s1.registered.contains(u) && !s.registered.contains(u) implies announces(a1, u) by {
        assert(announces(a0, u));
        let j = choose|j: int| 0 <= j < a0.len() && a0[j] == SpecAction::Emit(
            CentralEvent::DeviceDiscovered(PeripheralId(Uuid(u))),
        );
        assert(a1[j] == a0[j]);
    }
}

/// Whatever the event, a peripheral becomes registered only with an
/// announcement that it was discovered.
pub proof fn law_registration_is_announced(s: SpecRegistry, e: SpecEvent, u: u128)
    requires
        spec_on_event(s, e).0.registered.contains(u),
        !s.registered.contains(u),
    ensures
        announces(spec_on_event(s, e).1, u),
{
    match e {
        SpecEvent::DeviceDiscovered { uuid, local_name, advertisement_name } => {
            assert(spec_on_event(s, e).1[2] == SpecAction::Emit(
                CentralEvent::DeviceDiscovered(PeripheralId(Uuid(u))),
            ));
        },
        SpecEvent::RetrievedPeripherals { peripherals } => {
            law_retrieved_peripherals_are_registered(s, peripherals);
        },
        _ => {},
    }
}

/// After a disconnection the adapter neither holds a handle for the
/// peripheral nor keeps it registered, and announces the disconnection.
pub proof fn law_disconnect_forgets_the_peripheral(s: SpecRegistry, uuid: Uuid)
    ensures
        ({
            let (s1, a1) = spec_on_event(s, SpecEvent::DeviceDisconnected { uuid });
            &&& !s1.handles.contains(uuid.0)
            &&& !s1.registered.contains(uuid.0)
            &&& a1.contains(SpecAction::Emit(CentralEvent::DeviceDisconnected(PeripheralId(uuid))))
        }),
{
    let (s1, a1) = spec_on_event(s, SpecEvent::DeviceDisconnected { uuid });
    assert(a1[1] == SpecAction::Emit(CentralEvent::DeviceDisconnected(PeripheralId(uuid))));
}

/// Clearing forgets every peripheral, so that the next report of any of
/// them announces it again.
pub proof fn law_cleared_peripherals_are_announced_again(
    s: SpecRegistry,
    uuid: Uuid,
    names: (Option<Seq<char>>, Option<Seq<char>>),
)
    ensures
        ({
            let (s1, a1) = spec_on_event(s, SpecEvent::PeripheralsCleared);
            let (s2, a2) = spec_on_event(
                s1,
                SpecEvent::DeviceDiscovered { uuid, local_name: names.0, advertisement_name: names.1 },
            );
            &&& s1.handles.is_empty() && s1.registered.is_empty()
            &&& announces(a2, uuid.0)
        }),
{
    let (s1, a1) = spec_on_event(s, SpecEvent::PeripheralsCleared);
    let (s2, a2) = spec_on_event(
        s1,
        SpecEvent::DeviceDiscovered { uuid, local_name: names.0, advertisement_name: names.1 },
    );
    assert(a2[2] == SpecAction::Emit(CentralEvent::DeviceDiscovered(PeripheralId(Uuid(uuid.0)))));
}

/// The service data of a list of entries: each entry, in order, sets the
/// data of its service UUID.
pub open spec fn service_data_view(s: Seq<(Uuid, Vec<u8>)>) -> Map<Uuid, Seq<u8>>
    decreases s.len(),
{
    if s.len() == 0 {
        Map::empty()
    } else {
        service_data_view(s.drop_last()).insert(s.last().0, s.last().1@)
    }
}

/// Sets the data of one service in a list of service data entries.
fn set_service_data(entries: &mut Vec<(Uuid, Vec<u8>)>, uuid: Uuid, data: Vec<u8>)
    ensures
        service_data_view(final(entries)@) == service_data_view(old(entries)@).insert(uuid, data@),
{
    let mut kept: Vec<(Uuid, Vec<u8>)> = Vec::new();
    let n = entries.len();
    let mut i: usize = 0;
    while i < n
        invariant
            n == entries@.len(),
            0 <= i <= n,
            service_data_view(kept@) == service_data_view(entries@.take(i as int)).remove(uuid),
        decreases n - i,
    {
        let ghost before = kept@;
        assert(entries@.take(i as int + 1).drop_last() =~= entries@.take(i as int));
        let k = entries[i].0;
        if k != uuid {
            let v = entries[i].1.clone();
            kept.push((k, v));
            assert(kept@.drop_last() =~= before);
            assert(service_data_view(kept@) =~= service_data_view(entries@.take(i as int + 1)).remove(uuid));
        } else {
            assert(service_data_view(kept@) =~= service_data_view(entries@.take(i as int + 1)).remove(uuid));
        }
        i = i + 1;
    }
    assert(entries@.take(n as int) =~= entries@);
    let ghost before = kept@;
    kept.push((uuid, data));
    assert(kept@.drop_last() =~= before);
    assert(service_data_view(kept@) =~= service_data_view(old(entries)@).insert(uuid, kept@.last().1@));
    *entries = kept;
}

/// Adds service data entries, one after the other, to a list of entries.
fn extend_service_data(entries: &mut Vec<(Uuid, Vec<u8>)>, added: &Vec<(Uuid, Vec<u8>)>)
    ensures
        service_data_view(final(entries)@) == service_data_view(old(entries)@ + added@),
{
    let n = added.len();
    let mut i: usize = 0;
    while i < n
        invariant
            n == added@.len(),
            0 <= i <= n,
            service_data_view(entries@) == service_data_view(old(entries)@ + added@.take(i as int)),
        decreases n - i,
    {
        let k = added[i].0;
        let v = added[i].1.clone();
        set_service_data(entries, k, v);
        let ghost all = old(entries)@ + added@.take(i as int + 1);
        assert(all.drop_last() =~= old(entries)@ + added@.take(i as int));
        i = i + 1;
    }
    assert(added@.take(n as int) =~= added@);
}

/// What the CoreBluetooth thread tells a peripheral.
#[derive(Debug, Clone, PartialEq)]
pub enum CBPeripheralEvent {
    /// A notified value of a characteristic (its UUID, then its service's).
    Notification(Uuid, Uuid, Vec<u8>),
    /// Manufacturer data advertised (the manufacturer ID, the data, the RSSI).
    ManufacturerData(u16, Vec<u8>, i16),
    /// Service data advertised, one entry per service UUID, and the RSSI.
    ServiceData(Vec<(Uuid, Vec<u8>)>, i16),
    /// Services advertised, and the RSSI.
    Services(Vec<Uuid>, i16),
    Disconnected,
}

/// What a peripheral does for an event.
#[derive(Debug, Clone, PartialEq)]
pub enum PeripheralReaction {
    /// Hand the notification to the peripheral's subscribers.
    Notify(ValueNotification),
    /// Tell the adapter's listeners.
    Emit(CentralEvent),
    Nothing,
}

/// Updates a peripheral's properties for an event of the CoreBluetooth
/// thread and returns what the peripheral does for it: an advertisement
/// records its RSSI and its data (manufacturer data by ID, service data by
/// service UUID, the advertised services as they are) and is told to the
/// adapter's listeners; a notification goes to the subscribers.
pub fn on_peripheral_event(
    properties: &mut PeripheralProperties,
    uuid: Uuid,
    event: CBPeripheralEvent,
) -> (reaction: PeripheralReaction)
    ensures
        match event {
            CBPeripheralEvent::Notification(c, sv, value) => {
                &&& *final(properties) == *old(properties)
                &&& reaction matches PeripheralReaction::Notify(n) && n.uuid == c && n.service_uuid == sv
                    && n.value@ == value@
            },
            CBPeripheralEvent::ManufacturerData(id, data, rssi) => {
                &&& *final(properties) == PeripheralProperties {
                    rssi: Some(rssi),
                    manufacturer_data: final(properties).manufacturer_data,
                    ..*old(properties)
                }
                &&& final(properties).manufacturer_data@ == old(properties).manufacturer_data@.insert(id, data)
                &&& reaction matches PeripheralReaction::Emit(
                    CentralEvent::ManufacturerDataAdvertisement { id: p, manufacturer_data: m },
                ) && p == PeripheralId(uuid) && m@ == final(properties).manufacturer_data@
            },
            CBPeripheralEvent::ServiceData(sd, rssi) => {
                &&& *final(properties) == PeripheralProperties {
                    rssi: Some(rssi),
                    service_data: final(properties).service_data,
                    ..*old(properties)
                }
                &&& service_data_view(final(properties).service_data@) == service_data_view(
                    old(properties).service_data@ + sd@,
                )
                &&& reaction == PeripheralReaction::Emit(
                    CentralEvent::ServiceDataAdvertisement { id: PeripheralId(uuid), service_data: sd },
                )
            },
            CBPeripheralEvent::Services(services, rssi) => {
                &&& *final(properties) == PeripheralProperties {
                    rssi: Some(rssi),
                    services: final(properties).services,
                    ..*old(properties)
                }
                &&& final(properties).services@ == services@
                &&& reaction matches PeripheralReaction::Emit(
                    CentralEvent::ServicesAdvertisement { id: p, services: v },
                ) && p == PeripheralId(uuid) && v@ == services@
            },
            CBPeripheralEvent::Disconnected => {
                &&& *final(properties) == *old(properties)
                &&& reaction == PeripheralReaction::Nothing
            },
        },
{
    match event {
        CBPeripheralEvent::Notification(c, sv, value) => {
            PeripheralReaction::Notify(ValueNotification { uuid: c, service_uuid: sv, value })
        },
        CBPeripheralEvent::ManufacturerData(id, data, rssi) => {
            properties.rssi = Some(rssi);
            properties.manufacturer_data.insert(id, data);
            let m = properties.manufacturer_data.clone();
            PeripheralReaction::Emit(
                CentralEvent::ManufacturerDataAdvertisement { id: PeripheralId(uuid), manufacturer_data: m },
            )
        },
        CBPeripheralEvent::ServiceData(sd, rssi) => {
            properties.rssi = Some(rssi);
            extend_service_data(&mut properties.service_data, &sd);
            PeripheralReaction::Emit(
                CentralEvent::ServiceDataAdvertisement { id: PeripheralId(uuid), service_data: sd },
            )
        },
        CBPeripheralEvent::Services(services, rssi) => {
            properties.rssi = Some(rssi);
            let copy = services.clone();
            properties.services = services;
            PeripheralReaction::Emit(CentralEvent::ServicesAdvertisement { id: PeripheralId(uuid), services: copy })
        },
        CBPeripheralEvent::Disconnected => PeripheralReaction::Nothing,
    }
}

/// A found peripheral (its UUID and the name CoreBluetooth has for it), as
/// plain values.
pub open spec fn found_view(f: (Uuid, Option<String>)) -> (Uuid, Option<Seq<char>>) {
    (f.0, name_view(f.1))
}

/// Whether some retrieved peripheral has the UUID.
pub open spec fn has_uuid(rs: Seq<SpecRetrieved>, u: Uuid) -> bool {
    exists|j: int| 0 <= j < rs.len() && (#[trigger] rs[j]).uuid == u
}

/// The peripherals a retrieval reports, from those CoreBluetooth found in
/// order: each UUID once, at its first place, with the name CoreBluetooth
/// has for it, and with a new event channel when the back end did not know
/// the peripheral yet.
pub open spec fn spec_collect_retrieved(found: Seq<(Uuid, Option<Seq<char>>)>, known: Seq<Uuid>) -> Seq<
    SpecRetrieved,
>
    decreases found.len(),
{
    if found.len() == 0 {
        Seq::empty()
    } else {
        let prev = spec_collect_retrieved(found.drop_last(), known);
        let (u, name) = found.last();
        if has_uuid(prev, u) {
            prev
        } else {
            prev.push(
                SpecRetrieved {
                    uuid: u,
                    local_name: name,
                    advertisement_name: None,
                    has_event_receiver: !known.contains(u),
                },
            )
        }
    }
}

fn retrieved_has_uuid(rs: &Vec<RetrievedPeripheral>, u: Uuid) -> (r: bool)
    ensures
        r == has_uuid(retrieved_views(rs@), u),
{
    let mut j: usize = 0;
    while j < rs.len()
        invariant
            0 <= j <= rs@.len(),
            forall|k: int| 0 <= k < j ==> rs@[k].uuid != u,
        decreases rs@.len() - j,
    {
        if rs[j].uuid == u {
            assert(retrieved_views(rs@)[j as int].uuid == u);
            return true;
        }
        j = j + 1;
    }
    assert forall|k: int| 0 <= k < retrieved_views(rs@).len() implies (#[trigger] retrieved_views(rs@)[k]).uuid
        != u by {
        assert(retrieved_views(rs@)[k] == rs@[k]@);
    }
    false
}

fn uuid_known(known: &[Uuid], u: Uuid) -> (r: bool)
    ensures
        r == known@.contains(u),
{
    let mut j: usize = 0;
    while j < known.len()
        invariant
            0 <= j <= known@.len(),
            forall|k: int| 0 <= k < j ==> known@[k] != u,
        decreases known@.len() - j,
    {
        if known[j] == u {
            return true;
        }
        j = j + 1;
    }
    false
}

/// The peripherals a retrieval reports, from those CoreBluetooth found (in
/// the order of its queries) and the UUIDs of the peripherals the back end
/// already knows.
pub fn collect_retrieved(found: Vec<(Uuid, Option<String>)>, known: &[Uuid]) -> (rs: Vec<RetrievedPeripheral>)
    ensures
        retrieved_views(rs@) == spec_collect_retrieved(found@.map_values(|f: (Uuid, Option<String>)| found_view(f)), known@),
{
    let ghost fs = found@.map_values(|f: (Uuid, Option<String>)| found_view(f));
    let mut rs: Vec<RetrievedPeripheral> = Vec::new();
    let n = found.len();
    let mut i: usize = 0;
    while i < n
        invariant
            n == found@.len(),
            fs == found@.map_values(|f: (Uuid, Option<String>)| found_view(f)),
            0 <= i <= n,
            retrieved_views(rs@) == spec_collect_retrieved(fs.take(i as int), known@),
        decreases n - i,
    {
        assert(fs.take(i as int + 1).drop_last() =~= fs.take(i as int));
        assert(fs.take(i as int + 1).last() == found_view(found@[i as int]));
        let u = found[i].0;
        if !retrieved_has_uuid(&rs, u) {
            let is_new = !uuid_known(known, u);
            let ghost before = rs@;
            rs.push(
                RetrievedPeripheral {
                    uuid: u,
                    local_name: copy_name(&found[i].1),
                    advertisement_name: None,
                    has_event_receiver: is_new,
                },
            );
            assert(retrieved_views(rs@) =~= retrieved_views(before).push(rs@.last()@));
        }
        i = i + 1;
    }
    assert(fs.take(n as int) =~= fs);
    rs
}

/// How the adapter answers a retrieval without asking the CoreBluetooth
/// thread: it is not supported without any selector, and an empty
/// identifier selector with no services (or none given) finds nothing.
/// `None` where the thread has to be asked.
pub fn retrieve_without_thread<P>(options: &RetrievePeripheralsOptions) -> (r: Option<Result<Vec<P>, Error>>)
    ensures
        options.identifiers is None && options.services is None ==> (r matches Some(
            Err(Error::NotSupported(m)),
        ) && m@ == "retrieve_peripherals"@),
        !(options.identifiers is None && options.services is None) && (options.identifiers matches Some(ids)
            && ids@.len() == 0) && (options.services matches Some(sv) ==> sv@.len() == 0) ==> (r matches Some(
            Ok(v),
        ) && v@.len() == 0),
        !(options.identifiers is None && options.services is None) && !((options.identifiers matches Some(ids)
            && ids@.len() == 0) && (options.services matches Some(sv) ==> sv@.len() == 0)) ==> r is None,
{
    if options.identifiers.is_none() && options.services.is_none() {
        return Some(Err(Error::NotSupported(String::from_str("retrieve_peripherals"))));
    }
    let no_identifiers = match &options.identifiers {
        Some(ids) => ids.len() == 0,
        None => false,
    };
    let no_services = match &options.services {
        Some(sv) => sv.len() == 0,
        None => true,
    };
    if no_identifiers && no_services {
        Some(Ok(Vec::new()))
    } else {
        None
    }
}

} // verus!
