//! The peripherals an adapter has told its listeners of, by identifier: a
//! peripheral is added once and kept as it was first added, and it is
//! forgotten when the listeners are told that it disconnected.

use vstd::prelude::*;
use crate::api::{CentralEvent, PeripheralId};

verus! {

/// Whether the list holds an entry for the identifier.
pub open spec fn holds<P>(s: Seq<(u128, P)>, k: u128) -> bool {
    exists|i: int| 0 <= i < s.len() && (#[trigger] s[i]).0 == k
}

/// The identifier of a peripheral, as an integer.
pub open spec fn id_key(id: PeripheralId) -> u128 {
    id.0.0
}

/// The peripherals an adapter holds, each under its identifier, in the
/// order they were added.
pub struct AdapterManager<P> {
    entries: Vec<(u128, P)>,
}

impl<P> View for AdapterManager<P> {
    type V = Seq<(u128, P)>;

    closed spec fn view(&self) -> Seq<(u128, P)> {
        self.entries@
    }
}

impl<P: Clone> AdapterManager<P> {
    /// No identifier is held twice.
    pub closed spec fn wf(&self) -> bool {
        forall|i: int, j: int|
            0 <= i < j < self.entries@.len() ==> (#[trigger] self.entries@[i]).0 != (#[trigger] self.entries@[j]).0
    }

    /// No peripheral yet.
    pub fn new() -> (m: AdapterManager<P>)
        ensures
            m.wf(),
            m@ == Seq::<(u128, P)>::empty(),
    {
        AdapterManager { entries: Vec::new() }
    }

    fn find(&self, k: u128) -> (r: Option<usize>)
        requires
            self.wf(),
        ensures
            match r {
                Some(i) => i < self@.len() && self@[i as int].0 == k,
                None => !holds(self@, k),
            },
    {
        let mut i: usize = 0;
        while i < self.entries.len()
            invariant
                0 <= i <= self.entries@.len(),
                forall|j: int| 0 <= j < i ==> self.entries@[j].0 != k,
            decreases self.entries@.len() - i,
        {
            if self.entries[i].0 == k {
                return Some(i);
            }
            i = i + 1;
        }
        None
    }

    /// Takes note of an event told to the listeners: a disconnected
    /// peripheral is forgotten; other events change nothing.
    pub fn emit(&mut self, event: &CentralEvent)
        requires
            old(self).wf(),
        ensures
            final(self).wf(),
            match event {
                CentralEvent::DeviceDisconnected(id) => {
                    &&& !holds(final(self)@, id_key(*id))
                    &&& !holds(old(self)@, id_key(*id)) ==> final(self)@ == old(self)@
                    &&& holds(old(self)@, id_key(*id)) ==> exists|i: int|
                        0 <= i < old(self)@.len() && (#[trigger] old(self)@[i]).0 == id_key(*id) && final(self)@
                            == old(self)@.remove(i)
                },
                _ => final(self)@ == old(self)@,
            },
    {
        if let CentralEvent::DeviceDisconnected(id) = event {
            if let Some(i) = self.find(id.0.0) {
                let ghost s0 = self.entries@;
                let _ = self.entries.remove(i);
                proof {
                    assert forall|a: int, b: int| 0 <= a < b < self.entries@.len() implies (
                    #[trigger] self.entries@[a]).0 != (#[trigger] self.entries@[b]).0 by {
                        assert(self.entries@[a] == s0[if a < i { a } else { a + 1 }]);
                        assert(self.entries@[b] == s0[if b < i { b } else { b + 1 }]);
                    }
                    if holds(self.entries@, id.0.0) {
                        let a = choose|a: int| 0 <= a < self.entries@.len() && (#[trigger] self.entries@[a]).0 == id.0.0;
                        assert(self.entries@[a] == s0[if a < i { a } else { a + 1 }]);
                    }
                }
            }
        }
    }

    /// Adds a peripheral unless one with its identifier is held, and gives
    /// back (a clone of) the one held afterwards: the one already there,
    /// with whatever state it has, or the new one.
    pub fn add_peripheral(&mut self, id: PeripheralId, peripheral: P) -> (kept: P)
        requires
            old(self).wf(),
        ensures
            final(self).wf(),
            holds(old(self)@, id_key(id)) ==> final(self)@ == old(self)@ && exists|i: int|
                0 <= i < old(self)@.len() && (#[trigger] old(self)@[i]).0 == id_key(id) && cloned(
                    old(self)@[i].1,
                    kept,
                ),
            !holds(old(self)@, id_key(id)) ==> final(self)@ == old(self)@.push((id_key(id), peripheral)) && cloned(
                peripheral,
                kept,
            ),
    {
        match self.find(id.0.0) {
            Some(i) => self.entries[i].1.clone(),
            None => {
                let kept = peripheral.clone();
                self.entries.push((id.0.0, peripheral));
                kept
            },
        }
    }

    /// Forgets every peripheral.
    pub fn clear_peripherals(&mut self)
        ensures
            final(self).wf(),
            final(self)@ == Seq::<(u128, P)>::empty(),
    {
        self.entries.clear();
    }

    /// Whether a peripheral with the identifier is held.
    pub fn has_peripheral(&self, id: &PeripheralId) -> (r: bool)
        requires
            self.wf(),
        ensures
            r == holds(self@, id_key(*id)),
    {
        self.find(id.0.0).is_some()
    }

    /// (A clone of) the peripheral held under the identifier, if any.
    pub fn peripheral(&self, id: &PeripheralId) -> (r: Option<P>)
        requires
            self.wf(),
        ensures
            match r {
                Some(p) => exists|i: int|
                    0 <= i < self@.len() && (#[trigger] self@[i]).0 == id_key(*id) && cloned(self@[i].1, p),
                None => !holds(self@, id_key(*id)),
            },
    {
        match self.find(id.0.0) {
            Some(i) => Some(self.entries[i].1.clone()),
            None => None,
        }
    }

    /// (Clones of) the peripherals held, in the order they were added.
    pub fn peripherals(&self) -> (v: Vec<P>)
        ensures
            v@.len() == self@.len(),
            forall|i: int| 0 <= i < v@.len() ==> cloned(self@[i].1, #[trigger] v@[i]),
    {
        let mut v: Vec<P> = Vec::new();
        let mut i: usize = 0;
        while i < self.entries.len()
            invariant
                0 <= i <= self.entries@.len(),
                v@.len() == i,
                forall|j: int| 0 <= j < i ==> cloned(self.entries@[j].1, #[trigger] v@[j]),
            decreases self.entries@.len() - i,
        {
            v.push(self.entries[i].1.clone());
            i = i + 1;
        }
        v
    }
}

} // verus!
