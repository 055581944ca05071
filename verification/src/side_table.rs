//! A sparse table of per-entry facts, keyed by the same stable keys as the
//! collection that owns the entries. A fact written under a key stays until
//! the key's entry is removed; a stale key reads as "not found".

use vstd::prelude::*;

use crate::collection::StableKey;

verus! {

/// A mapping from stable keys to lazily discovered facts.
pub struct SideTable<V> {
    entries: Vec<Option<V>>,
}

impl<V> SideTable<V> {
    /// The fact stored under `k`, if any.
    pub closed spec fn spec_get(self, k: StableKey) -> Option<V> {
        if k.slot < self.entries.len() {
            self.entries[k.slot as int]
        } else {
            None
        }
    }

    /// An empty table.
    pub fn new() -> (r: Self)
        ensures
            forall|k: StableKey| #[trigger] r.spec_get(k) is None,
    {
        SideTable { entries: Vec::new() }
    }

    /// The fact stored under `k`, if any.
    pub fn get(&self, k: StableKey) -> (r: Option<&V>)
        ensures
            r is Some <==> self.spec_get(k) is Some,
            r matches Some(v) ==> Some(*v) == self.spec_get(k),
    {
        if k.slot < self.entries.len() {
            self.entries[k.slot].as_ref()
        } else {
            None
        }
    }

    /// Stores `v` under `k`, replacing what was there.
    pub fn insert(&mut self, k: StableKey, v: V)
        requires
            k.slot < usize::MAX,
        ensures
            final(self).spec_get(k) == Some(v),
            forall|k2: StableKey|
                k2 != k ==> #[trigger] final(self).spec_get(k2) == old(self).spec_get(k2),
    {
        while self.entries.len() <= k.slot
            invariant
                k.slot < usize::MAX,
                forall|k2: StableKey|
                    #[trigger] self.spec_get(k2) == old(self).spec_get(k2),
            decreases k.slot + 1 - self.entries.len(),
        {
            let ghost pre = *self;
            self.entries.push(None);
            proof {
                assert forall|k2: StableKey| #[trigger] self.spec_get(k2) == pre.spec_get(
                    k2,
                ) by {
                    if k2.slot < pre.entries.len() {
                        assert(self.entries[k2.slot as int] == pre.entries[k2.slot as int]);
                    }
                }
            }
        }
        let ghost mid = *self;
        self.entries[k.slot] = Some(v);
        proof {
            assert forall|k2: StableKey| k2 != k implies #[trigger] self.spec_get(k2) == old(
                self,
            ).spec_get(k2) by {
                assert(k2.slot != k.slot);
                assert(self.spec_get(k2) == mid.spec_get(k2));
            }
        }
    }

    /// Removes and hands back the fact stored under `k`.
    pub fn remove(&mut self, k: StableKey) -> (r: Option<V>)
        ensures
            r == old(self).spec_get(k),
            final(self).spec_get(k) is None,
            forall|k2: StableKey|
                k2 != k ==> #[trigger] final(self).spec_get(k2) == old(self).spec_get(k2),
    {
        if k.slot < self.entries.len() {
            self.entries[k.slot].take()
        } else {
            None
        }
    }
}

} // verus!
