//! The peripherals known to the CoreBluetooth thread, by UUID, and what the
//! thread does when peripherals are discovered, retrieved, disconnected or
//! cleared, and when the central's state changes.

use vstd::prelude::*;
use crate::bleuuid::Uuid;
use crate::cb_adapter::{
    collect_retrieved, found_view, retrieved_views, spec_collect_retrieved, CoreBluetoothEvent, SpecEvent,
    SpecRetrieved,
};
use crate::cb_peripheral;
use crate::cb_peripheral::{
    peripheral_wf, pending_tickets, spec_errs, PeripheralAction, PeripheralState, SpecPeripheral,
};
use crate::corebluetooth::{name_view, on_discovered_peripheral, spec_local_name, CBManagerState, DiscoveryNotice};

verus! {

/// What the thread does besides keeping its peripherals.
#[derive(Debug, Clone, PartialEq)]
pub enum ThreadAction {
    /// Tell the peripheral, on its own event channel, that it disconnected.
    NotifyDisconnected(Uuid),
    /// Perform an action of the peripheral's state machine.
    Peripheral(Uuid, PeripheralAction),
    /// Tell the adapter.
    Dispatch(CoreBluetoothEvent),
}

/// A thread action, as plain values.
pub enum SpecThreadAction {
    NotifyDisconnected(Uuid),
    Peripheral(Uuid, cb_peripheral::SpecAction),
    Dispatch(SpecEvent),
}

impl View for ThreadAction {
    type V = SpecThreadAction;

    open spec fn view(&self) -> SpecThreadAction {
        match self {
            ThreadAction::NotifyDisconnected(u) => SpecThreadAction::NotifyDisconnected(*u),
            ThreadAction::Peripheral(u, a) => SpecThreadAction::Peripheral(*u, a@),
            ThreadAction::Dispatch(e) => SpecThreadAction::Dispatch(e@),
        }
    }
}

/// The plain values of a list of thread actions.
pub open spec fn thread_views(v: Seq<ThreadAction>) -> Seq<SpecThreadAction> {
    v.map_values(|a: ThreadAction| a@)
}

/// A peripheral's actions, as actions of the thread.
pub open spec fn for_peripheral(u: Uuid, acts: Seq<cb_peripheral::SpecAction>) -> Seq<SpecThreadAction> {
    acts.map_values(|a: cb_peripheral::SpecAction| SpecThreadAction::Peripheral(u, a))
}

/// A peripheral of which nothing is known and for which nothing waits.
pub open spec fn spec_fresh() -> SpecPeripheral {
    SpecPeripheral {
        services: Seq::empty(),
        connected: None,
        disconnected: None,
        services_discovered: None,
        rssi_reads: Seq::empty(),
        pending_writes: Seq::empty(),
    }
}

/// Whether the table knows the UUID.
pub open spec fn knows(t: Seq<(Uuid, SpecPeripheral)>, u: Uuid) -> bool {
    exists|i: int| 0 <= i < t.len() && (#[trigger] t[i]).0 == u
}

/// The UUIDs of the table, in order.
pub open spec fn table_ids(t: Seq<(Uuid, SpecPeripheral)>) -> Seq<Uuid> {
    t.map_values(|e: (Uuid, SpecPeripheral)| e.0)
}

/// The entries a retrieval adds: a fresh peripheral for each retrieved one
/// that comes with a new event channel, in order.
pub open spec fn spec_added(rs: Seq<SpecRetrieved>) -> Seq<(Uuid, SpecPeripheral)>
    decreases rs.len(),
{
    if rs.len() == 0 {
        Seq::empty()
    } else if rs.last().has_event_receiver {
        spec_added(rs.drop_last()).push((rs.last().uuid, spec_fresh()))
    } else {
        spec_added(rs.drop_last())
    }
}

/// What a disconnection does for one peripheral: the peripheral hears of
/// it, every operation waiting on it is answered with "Device disconnected",
/// and the adapter hears of it.
pub open spec fn spec_teardown_one(u: Uuid, p: SpecPeripheral) -> Seq<SpecThreadAction> {
    seq![SpecThreadAction::NotifyDisconnected(u)] + for_peripheral(
        u,
        spec_errs(pending_tickets(p), "Device disconnected"@),
    ) + seq![SpecThreadAction::Dispatch(SpecEvent::DeviceDisconnected { uuid: u })]
}

/// The disconnection of every peripheral of the table, in order.
pub open spec fn spec_teardown(t: Seq<(Uuid, SpecPeripheral)>) -> Seq<SpecThreadAction>
    decreases t.len(),
{
    if t.len() == 0 {
        Seq::empty()
    } else {
        spec_teardown(t.drop_last()) + spec_teardown_one(t.last().0, t.last().1)
    }
}

/// The peripherals known to the CoreBluetooth thread, by UUID, each with its
/// state machine.
pub struct PeripheralTable {
    ids: Vec<Uuid>,
    states: Vec<PeripheralState>,
}

impl View for PeripheralTable {
    type V = Seq<(Uuid, SpecPeripheral)>;

    closed spec fn view(&self) -> Seq<(Uuid, SpecPeripheral)> {
        Seq::new(self.ids@.len(), |i: int| (self.ids@[i], self.states@[i]@))
    }
}

impl PeripheralTable {
    /// The table's invariant: one well-formed state per UUID, no UUID twice.
    pub closed spec fn wf(&self) -> bool {
        &&& self.ids@.len() == self.states@.len()
        &&& forall|i: int| 0 <= i < self.states@.len() ==> peripheral_wf(#[trigger] self.states@[i]@)
        &&& forall|i: int, j: int|
            0 <= i < j < self.ids@.len() ==> (#[trigger] self.ids@[i]) != (#[trigger] self.ids@[j])
    }

    proof fn lemma_view(&self)
        requires
            self.wf(),
        ensures
            self@.len() == self.ids@.len(),
            forall|i: int| 0 <= i < self@.len() ==> (#[trigger] self@[i]).0 == self.ids@[i] && self@[i].1
                == self.states@[i]@,
            forall|i: int, j: int| 0 <= i < j < self@.len() ==> (#[trigger] self@[i]).0 != (#[trigger] self@[j]).0,
    {
    }

    /// A table without peripherals.
    pub fn new() -> (t: PeripheralTable)
        ensures
            t.wf(),
            t@ == Seq::<(Uuid, SpecPeripheral)>::empty(),
    {
        let t = PeripheralTable { ids: Vec::new(), states: Vec::new() };
        assert(t@ =~= Seq::<(Uuid, SpecPeripheral)>::empty());
        t
    }

    /// Where the table holds the peripheral, if it knows it.
    pub fn find(&self, u: Uuid) -> (r: Option<usize>)
        requires
            self.wf(),
        ensures
            match r {
                Some(i) => i < self@.len() && self@[i as int].0 == u,
                None => !knows(self@, u),
            },
    {
        proof {
            self.lemma_view();
        }
        let mut i: usize = 0;
        while i < self.ids.len()
            invariant
                self.wf(),
                0 <= i <= self.ids@.len(),
                self@.len() == self.ids@.len(),
                forall|k: int| 0 <= k < self@.len() ==> (#[trigger] self@[k]).0 == self.ids@[k],
                forall|k: int| 0 <= k < i ==> self.ids@[k] != u,
            decreases self.ids@.len() - i,
        {
            if self.ids[i] == u {
                return Some(i);
            }
            i = i + 1;
        }
        proof {
            if knows(self@, u) {
                let k = choose|k: int| 0 <= k < self@.len() && (#[trigger] self@[k]).0 == u;
                assert(self.ids@[k] == u);
            }
        }
        None
    }

    /// Takes the state machine of the peripheral at `i` out of the table,
    /// leaving a fresh one in its place.
    pub fn take_state(&mut self, i: usize) -> (p: PeripheralState)
        requires
            old(self).wf(),
            i < old(self)@.len(),
        ensures
            final(self).wf(),
            final(self)@ == old(self)@.update(i as int, (old(self)@[i as int].0, spec_fresh())),
            p@ == old(self)@[i as int].1,
            peripheral_wf(p@),
    {
        proof {
            self.lemma_view();
        }
        let ghost t0 = self@;
        let p = self.states.remove(i);
        self.states.insert(i, PeripheralState::new());
        assert(self@ =~= t0.update(i as int, (t0[i as int].0, spec_fresh())));
        p
    }

    /// Puts a state machine back for the peripheral at `i`.
    pub fn put_state(&mut self, i: usize, p: PeripheralState)
        requires
            old(self).wf(),
            i < old(self)@.len(),
            peripheral_wf(p@),
        ensures
            final(self).wf(),
            final(self)@ == old(self)@.update(i as int, (old(self)@[i as int].0, p@)),
    {
        proof {
            self.lemma_view();
        }
        let ghost t0 = self@;
        let ghost pv = p@;
        let _ = self.states.remove(i);
        self.states.insert(i, p);
        assert(self@ =~= t0.update(i as int, (t0[i as int].0, pv)));
    }

    /// The thread forgets the peripheral, as when its event receiver is
    /// gone; whether it knew it.
    pub fn forget(&mut self, uuid: Uuid) -> (known: bool)
        requires
            old(self).wf(),
        ensures
            final(self).wf(),
            known == knows(old(self)@, uuid),
            !known ==> final(self)@ == old(self)@,
            known ==> exists|i: int|
                0 <= i < old(self)@.len() && (#[trigger] old(self)@[i]).0 == uuid && final(self)@ == old(
                    self,
                )@.remove(i),
    {
        proof {
            self.lemma_view();
        }
        match self.find(uuid) {
            None => false,
            Some(i) => {
                let ghost t0 = self@;
                self.ids.remove(i);
                let _ = self.states.remove(i);
                proof {
                    assert(self@ =~= t0.remove(i as int));
                    assert forall|a: int, b: int| 0 <= a < b < self.ids@.len() implies (#[trigger] self.ids@[a])
                        != (#[trigger] self.ids@[b]) by {
                        assert(self.ids@[a] == t0[if a < i { a } else { a + 1 }].0);
                        assert(self.ids@[b] == t0[if b < i { b } else { b + 1 }].0);
                    }
                }
                true
            },
        }
    }

    /// Whether the thread knows the peripheral.
    pub fn contains(&self, u: Uuid) -> (r: bool)
        requires
            self.wf(),
        ensures
            r == knows(self@, u),
    {
        self.find(u).is_some()
    }

    /// The UUIDs of the known peripherals, in order.
    pub fn known_ids(&self) -> (v: Vec<Uuid>)
        requires
            self.wf(),
        ensures
            v@ == table_ids(self@),
    {
        proof {
            self.lemma_view();
        }
        let v = self.ids.clone();
        assert(v@ =~= table_ids(self@));
        v
    }

    fn push_fresh(&mut self, u: Uuid)
        requires
            old(self).wf(),
            !knows(old(self)@, u),
        ensures
            final(self).wf(),
            final(self)@ == old(self)@.push((u, spec_fresh())),
    {
        proof {
            self.lemma_view();
        }
        let p = PeripheralState::new();
        self.ids.push(u);
        self.states.push(p);
        proof {
            assert forall|i: int, j: int| 0 <= i < j < self.ids@.len() implies (#[trigger] self.ids@[i]) != (
            #[trigger] self.ids@[j]) by {
                if j == self.ids@.len() - 1 {
                    assert(old(self)@[i].0 == self.ids@[i]);
                }
            }
            assert(self@ =~= old(self)@.push((u, spec_fresh())));
        }
    }

    /// A peripheral seen while scanning: an unknown one becomes known with a
    /// fresh state machine and is announced as discovered; a known one is
    /// announced as updated when some name is known, and nothing is told
    /// otherwise. The local name is the advertised name before the name
    /// CoreBluetooth has cached.
    pub fn on_discovered_peripheral(
        &mut self,
        uuid: Uuid,
        advertisement_name: Option<String>,
        peripheral_name: Option<String>,
    ) -> (event: Option<CoreBluetoothEvent>)
        requires
            old(self).wf(),
        ensures
            final(self).wf(),
            final(self)@ == (if knows(old(self)@, uuid) {
                old(self)@
            } else {
                old(self)@.push((uuid, spec_fresh()))
            }),
            ({
                let adv = name_view(advertisement_name);
                let local = spec_local_name(adv, name_view(peripheral_name));
                match event {
                    Some(e) => e@ == (if knows(old(self)@, uuid) {
                        SpecEvent::DeviceUpdated { uuid, local_name: local, advertisement_name: adv }
                    } else {
                        SpecEvent::DeviceDiscovered { uuid, local_name: local, advertisement_name: adv }
                    }) && (knows(old(self)@, uuid) ==> local is Some || adv is Some),
                    None => knows(old(self)@, uuid) && local is None && adv is None,
                }
            }),
    {
        let is_new = !self.contains(uuid);
        if is_new {
            self.push_fresh(uuid);
        }
        match on_discovered_peripheral(is_new, advertisement_name, peripheral_name) {
            Some(DiscoveryNotice::DeviceDiscovered { local_name, advertisement_name }) => Some(
                CoreBluetoothEvent::DeviceDiscovered { uuid, local_name, advertisement_name },
            ),
            Some(DiscoveryNotice::DeviceUpdated { local_name, advertisement_name }) => Some(
                CoreBluetoothEvent::DeviceUpdated { uuid, local_name, advertisement_name },
            ),
            None => None,
        }
    }

    /// The peripherals CoreBluetooth found for a retrieval (in the order of
    /// its queries, with the name it has for each): each is reported once,
    /// at its first place; those the thread did not know come with a new
    /// event channel and become known with a fresh state machine, and the
    /// known ones keep their state.
    pub fn retrieve(&mut self, found: Vec<(Uuid, Option<String>)>) -> (event: CoreBluetoothEvent)
        requires
            old(self).wf(),
        ensures
            final(self).wf(),
            ({
                let rs = spec_collect_retrieved(
                    found@.map_values(|f: (Uuid, Option<String>)| found_view(f)),
                    table_ids(old(self)@),
                );
                &&& event@ == SpecEvent::RetrievedPeripherals { peripherals: rs }
                &&& final(self)@ == old(self)@ + spec_added(rs)
                &&& forall|i: int| 0 <= i < rs.len() ==> knows(final(self)@, #[trigger] rs[i].uuid)
            }),
    {
        let ghost fv = found@.map_values(|f: (Uuid, Option<String>)| found_view(f));
        let known = self.known_ids();
        let rs = collect_retrieved(found, known.as_slice());
        let ghost rv = retrieved_views(rs@);
        let ghost t0 = self@;
        proof {
            lemma_collect_distinct(fv, known@);
            lemma_collect_receivers(fv, known@);
        }
        let n = rs.len();
        proof {
            assert forall|a: int| 0 <= a < n implies (knows(self@, #[trigger] rv[a].uuid) <==> table_ids(
                t0,
            ).contains(rv[a].uuid)) by {
                lemma_knows_ids(t0, rv[a].uuid);
            }
        }
        let mut i: usize = 0;
        while i < n
            invariant
                n == rs@.len(),
                rv == retrieved_views(rs@),
                rv == spec_collect_retrieved(fv, table_ids(t0)),
                known@ == table_ids(t0),
                forall|a: int, b: int| 0 <= a < b < rv.len() ==> (#[trigger] rv[a]).uuid != (#[trigger] rv[b]).uuid,
                forall|a: int| 0 <= a < rv.len() ==> ((#[trigger] rv[a]).has_event_receiver <==> !table_ids(
                    t0,
                ).contains(rv[a].uuid)),
                0 <= i <= n,
                self.wf(),
                self@ == t0 + spec_added(rv.take(i as int)),
                forall|a: int| 0 <= a < i ==> knows(self@, #[trigger] rv[a].uuid),
                forall|a: int| i <= a < n ==> (knows(self@, #[trigger] rv[a].uuid) <==> table_ids(t0).contains(
                    rv[a].uuid,
                )),
            decreases n - i,
        {
            assert(rv.take(i as int + 1).drop_last() =~= rv.take(i as int));
            assert(rv[i as int] == rs@[i as int]@);
            let ghost before = self@;
            if rs[i].has_event_receiver {
                proof {
                    if knows(self@, rv[i as int].uuid) {
                        assert(table_ids(t0).contains(rv[i as int].uuid));
                    }
                }
                self.push_fresh(rs[i].uuid);
                proof {
                    assert(self@ =~= t0 + spec_added(rv.take(i as int + 1)));
                    assert(self@[self@.len() - 1].0 == rv[i as int].uuid);
                    assert forall|a: int| 0 <= a < i + 1 implies knows(self@, #[trigger] rv[a].uuid) by {
                        if a < i {
                            let k = choose|k: int| 0 <= k < before.len() && (#[trigger] before[k]).0 == rv[a].uuid;
                            assert(self@[k] == before[k]);
                        }
                    }
                    assert forall|a: int| i + 1 <= a < n implies (knows(self@, #[trigger] rv[a].uuid)
                        <==> table_ids(t0).contains(rv[a].uuid)) by {
                        if knows(self@, rv[a].uuid) && !knows(before, rv[a].uuid) {
                            let k = choose|k: int| 0 <= k < self@.len() && (#[trigger] self@[k]).0 == rv[a].uuid;
                            if k < before.len() {
                                assert(before[k] == self@[k]);
                            }
                        }
                        if knows(before, rv[a].uuid) {
                            let k = choose|k: int| 0 <= k < before.len() && (#[trigger] before[k]).0 == rv[a].uuid;
                            assert(self@[k] == before[k]);
                        }
                    }
                }
            } else {
                proof {
                    assert(table_ids(t0).contains(rv[i as int].uuid));
                    assert(self@ =~= t0 + spec_added(rv.take(i as int + 1)));
                }
            }
            i = i + 1;
        }
        proof {
            assert(rv.take(n as int) =~= rv);
        }
        CoreBluetoothEvent::RetrievedPeripherals { peripherals: rs }
    }

    /// The peripherals are cleared: the thread forgets every one of them,
    /// and the adapter hears of it.
    pub fn clear(&mut self) -> (event: CoreBluetoothEvent)
        requires
            old(self).wf(),
        ensures
            final(self).wf(),
            final(self)@ == Seq::<(Uuid, SpecPeripheral)>::empty(),
            event@ == SpecEvent::PeripheralsCleared,
    {
        self.ids.clear();
        self.states.clear();
        assert(self@ =~= Seq::<(Uuid, SpecPeripheral)>::empty());
        CoreBluetoothEvent::PeripheralsCleared
    }

    /// A peripheral disconnected: when the thread knows it, the peripheral
    /// hears of it, every operation waiting on it is answered with "Device
    /// disconnected", the thread forgets it, and the adapter hears of it.
    pub fn on_peripheral_disconnect(&mut self, uuid: Uuid) -> (actions: Vec<ThreadAction>)
        requires
            old(self).wf(),
        ensures
            final(self).wf(),
            !knows(old(self)@, uuid) ==> final(self)@ == old(self)@ && actions@.len() == 0,
            knows(old(self)@, uuid) ==> exists|i: int|
                0 <= i < old(self)@.len() && (#[trigger] old(self)@[i]).0 == uuid && final(self)@ == old(
                    self,
                )@.remove(i) && thread_views(actions@) == spec_teardown_one(uuid, old(self)@[i].1),
    {
        proof {
            self.lemma_view();
        }
        match self.find(uuid) {
            None => Vec::new(),
            Some(i) => {
                let ghost t0 = self@;
                self.ids.remove(i);
                let mut p = self.states.remove(i);
                proof {
                    assert(self@ =~= t0.remove(i as int));
                    assert forall|a: int, b: int| 0 <= a < b < self.ids@.len() implies (#[trigger] self.ids@[a])
                        != (#[trigger] self.ids@[b]) by {
                        assert(self.ids@[a] == t0[if a < i { a } else { a + 1 }].0);
                        assert(self.ids@[b] == t0[if b < i { b } else { b + 1 }].0);
                    }
                }
                let mut actions: Vec<ThreadAction> = Vec::new();
                teardown_one(&mut actions, uuid, &mut p);
                assert(thread_views(actions@) =~= Seq::<SpecThreadAction>::empty() + spec_teardown_one(
                    uuid,
                    t0[i as int].1,
                ));
                actions
            },
        }
    }

    /// The central's state changed. When it is powered off, every known
    /// peripheral is disconnected in turn (as by `on_peripheral_disconnect`)
    /// and the thread forgets them all; only then does the adapter hear of
    /// the new state.
    pub fn on_state_update(&mut self, state: CBManagerState) -> (actions: Vec<ThreadAction>)
        requires
            old(self).wf(),
        ensures
            final(self).wf(),
            state == CBManagerState::PoweredOff ==> final(self)@ == Seq::<(Uuid, SpecPeripheral)>::empty()
                && thread_views(actions@) == spec_teardown(old(self)@).push(
                SpecThreadAction::Dispatch(SpecEvent::DidUpdateState { state }),
            ),
            state != CBManagerState::PoweredOff ==> final(self)@ == old(self)@ && thread_views(actions@) == seq![
                SpecThreadAction::Dispatch(SpecEvent::DidUpdateState { state }),
            ],
    {
        let mut actions: Vec<ThreadAction> = Vec::new();
        if state == CBManagerState::PoweredOff {
            self.on_adapter_powered_off(&mut actions);
        }
        let ghost before = actions@;
        actions.push(ThreadAction::Dispatch(CoreBluetoothEvent::DidUpdateState { state }));
        assert(thread_views(actions@) =~= thread_views(before).push(
            SpecThreadAction::Dispatch(SpecEvent::DidUpdateState { state }),
        ));
        proof {
            if state != CBManagerState::PoweredOff {
                assert(thread_views(before) =~= Seq::<SpecThreadAction>::empty());
            }
        }
        actions
    }

    fn on_adapter_powered_off(&mut self, actions: &mut Vec<ThreadAction>)
        requires
            old(self).wf(),
            old(actions)@.len() == 0,
        ensures
            final(self).wf(),
            final(self)@ == Seq::<(Uuid, SpecPeripheral)>::empty(),
            thread_views(final(actions)@) == spec_teardown(old(self)@),
    {
        let ghost t0 = self@;
        proof {
            self.lemma_view();
            assert(thread_views(actions@) =~= spec_teardown(t0.take(0)));
        }
        let ghost mut k: int = 0;
        while self.ids.len() > 0
            invariant
                self.wf(),
                0 <= k <= t0.len(),
                self@ == t0.subrange(k, t0.len() as int),
                thread_views(actions@) == spec_teardown(t0.take(k)),
            decreases self.ids@.len(),
        {
            proof {
                self.lemma_view();
            }
            let ghost ids0 = self.ids@;
            let ghost sts0 = self.states@;
            let ghost s0 = self@;
            assert(s0[0] == t0[k]);
            let u = self.ids.remove(0);
            let mut p = self.states.remove(0);
            proof {
                assert(u == ids0[0]);
                assert(p == sts0[0]);
                assert(u == t0[k].0);
                assert(p@ == t0[k].1);
                assert forall|a: int, b: int| 0 <= a < b < self.ids@.len() implies (#[trigger] self.ids@[a])
                    != (#[trigger] self.ids@[b]) by {
                    assert(self.ids@[a] == ids0[a + 1]);
                    assert(self.ids@[b] == ids0[b + 1]);
                }
                assert forall|a: int| 0 <= a < self@.len() implies #[trigger] self@[a] == t0.subrange(
                    k + 1,
                    t0.len() as int,
                )[a] by {
                    assert(self@[a] == s0[a + 1]);
                }
                assert(self@ =~= t0.subrange(k + 1, t0.len() as int));
            }
            teardown_one(actions, u, &mut p);
            proof {
                assert(t0.take(k + 1).drop_last() =~= t0.take(k));
                assert(t0.take(k + 1).last() == t0[k]);
                k = k + 1;
            }
        }
        proof {
            assert(t0.take(k) =~= t0);
        }
    }
}

/// Appends what disconnecting one peripheral does.
fn teardown_one(actions: &mut Vec<ThreadAction>, u: Uuid, p: &mut PeripheralState)
    ensures
        thread_views(final(actions)@) == thread_views(old(actions)@) + spec_teardown_one(u, old(p)@),
{
    let ghost a0 = thread_views(actions@);
    actions.push(ThreadAction::NotifyDisconnected(u));
    let mut acts = p.confirm_disconnect();
    let ghost av = cb_peripheral::action_views(acts@);
    let ghost mut k: int = 0;
    assert(thread_views(actions@) =~= a0 + seq![SpecThreadAction::NotifyDisconnected(u)] + for_peripheral(
        u,
        av.take(0),
    ));
    while acts.len() > 0
        invariant
            0 <= k <= av.len(),
            cb_peripheral::action_views(acts@) == av.subrange(k, av.len() as int),
            thread_views(actions@) == a0 + seq![SpecThreadAction::NotifyDisconnected(u)] + for_peripheral(
                u,
                av.take(k),
            ),
        decreases acts@.len(),
    {
        let ghost before = actions@;
        let ghost accs = acts@;
        assert(cb_peripheral::action_views(accs).len() == accs.len());
        assert(cb_peripheral::action_views(accs)[0] == av[k]);
        let a = acts.remove(0);
        proof {
            assert(a@ == cb_peripheral::action_views(accs)[0]);
            assert(a@ == av[k]);
            assert forall|j: int| 0 <= j < acts@.len() implies #[trigger] cb_peripheral::action_views(acts@)[j]
                == av.subrange(k + 1, av.len() as int)[j] by {
                assert(acts@[j] == accs[j + 1]);
                assert(cb_peripheral::action_views(accs)[j + 1] == av[k + 1 + j]);
            }
            assert(cb_peripheral::action_views(acts@) =~= av.subrange(k + 1, av.len() as int));
        }
        actions.push(ThreadAction::Peripheral(u, a));
        proof {
            assert(av.take(k + 1) =~= av.take(k).push(av[k]));
            assert(for_peripheral(u, av.take(k + 1)) =~= for_peripheral(u, av.take(k)).push(
                SpecThreadAction::Peripheral(u, av[k]),
            ));
            assert(thread_views(actions@) =~= thread_views(before).push(SpecThreadAction::Peripheral(u, av[k])));
            k = k + 1;
        }
    }
    proof {
        assert(av.take(k) =~= av);
    }
    let ghost before = actions@;
    actions.push(ThreadAction::Dispatch(CoreBluetoothEvent::DeviceDisconnected { uuid: u }));
    assert(thread_views(actions@) =~= thread_views(before).push(
        SpecThreadAction::Dispatch(SpecEvent::DeviceDisconnected { uuid: u }),
    ));
    assert(av == spec_errs(pending_tickets(old(p)@), "Device disconnected"@));
    assert(thread_views(actions@) =~= thread_views(old(actions)@) + spec_teardown_one(u, old(p)@));
}

/// A table knows exactly the UUIDs among its ids.
proof fn lemma_knows_ids(t: Seq<(Uuid, SpecPeripheral)>, u: Uuid)
    ensures
        knows(t, u) <==> table_ids(t).contains(u),
{
    if knows(t, u) {
        let i = choose|i: int| 0 <= i < t.len() && (#[trigger] t[i]).0 == u;
        assert(table_ids(t)[i] == u);
    }
    if table_ids(t).contains(u) {
        let i = choose|i: int| 0 <= i < table_ids(t).len() && table_ids(t)[i] == u;
        assert(t[i].0 == u);
    }
}

/// The retrieved peripherals have distinct UUIDs.
proof fn lemma_collect_distinct(found: Seq<(Uuid, Option<Seq<char>>)>, known: Seq<Uuid>)
    ensures
        ({
            let rs = spec_collect_retrieved(found, known);
            forall|a: int, b: int| 0 <= a < b < rs.len() ==> (#[trigger] rs[a]).uuid != (#[trigger] rs[b]).uuid
        }),
    decreases found.len(),
{
    if found.len() > 0 {
        lemma_collect_distinct(found.drop_last(), known);
    }
}

/// A retrieved peripheral comes with a new event channel exactly when its
/// UUID is not among the known ones.
proof fn lemma_collect_receivers(found: Seq<(Uuid, Option<Seq<char>>)>, known: Seq<Uuid>)
    ensures
        ({
            let rs = spec_collect_retrieved(found, known);
            forall|a: int| 0 <= a < rs.len() ==> ((#[trigger] rs[a]).has_event_receiver <==> !known.contains(
                rs[a].uuid,
            ))
        }),
    decreases found.len(),
{
    if found.len() > 0 {
        lemma_collect_receivers(found.drop_last(), known);
    }
}

} // verus!
