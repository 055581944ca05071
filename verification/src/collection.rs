//! A doubly-linked sequence addressed by stable keys.
//!
//! Entries live in slots of a growing arena; a key names its slot. Slots are
//! never reclaimed within a session (entries are created up front and only
//! ever removed), so a key is never reused: a key whose entry was removed is
//! answered with `None` forever after, and removing one entry leaves every
//! other key, and the neighbour links between the remaining entries, intact.
//! `next`, `prev`, `head`, `tail` and `remove` all run in constant time over
//! the stored links, not by scanning.

use vstd::prelude::*;

verus! {

/// A stable identifier for one entry of an `OrderedCollection`; it stays
/// valid for lookups and neighbour queries while unrelated entries are
/// removed, and is never minted twice.
#[derive(Copy, Clone, Debug, PartialEq, Eq, Hash, Structural)]
pub struct StableKey {
    pub slot: usize,
}

struct Slot<T> {
    prev: Option<usize>,
    next: Option<usize>,
    value: Option<T>,
}

/// A sequence of values with stable keys, constant-time neighbour lookup and
/// constant-time removal.
pub struct OrderedCollection<T> {
    slots: Vec<Slot<T>>,
    head: Option<usize>,
    tail: Option<usize>,
    count: usize,
    order: Ghost<Seq<usize>>,
}

impl<T> OrderedCollection<T> {
    /// Whether slot `i` holds a live entry.
    spec fn slot_occupied(self, i: usize) -> bool {
        i < self.slots.len() && self.slots[i as int].value is Some
    }

    /// The links of the entry at position `j` agree with the traversal order.
    spec fn entry_links_ok(self, j: int) -> bool {
        let s = self.order@;
        &&& self.slots[s[j] as int].prev == (if j == 0 {
            Option::<usize>::None
        } else {
            Some(s[j - 1])
        })
        &&& self.slots[s[j] as int].next == (if j == s.len() - 1 {
            Option::<usize>::None
        } else {
            Some(s[j + 1])
        })
    }

    /// The collection's internal invariant.
    pub closed spec fn wf(self) -> bool {
        &&& self.order@.no_duplicates()
        &&& self.count == self.order@.len()
        &&& forall|j: int|
            0 <= j < self.order@.len() ==> self.slot_occupied(#[trigger] self.order@[j])
        &&& forall|i: usize|
            i < self.slots.len() && self.slots[i as int].value is Some
                ==> #[trigger] self.order@.contains(i)
        &&& (self.order@.len() == 0 ==> self.head is None && self.tail is None)
        &&& (self.order@.len() > 0 ==> self.head == Some(self.order@[0]) && self.tail == Some(
            self.order@[self.order@.len() - 1],
        ))
        &&& forall|j: int| 0 <= j < self.order@.len() ==> #[trigger] self.entry_links_ok(j)
    }

    /// The key of the entry at position `j`.
    pub closed spec fn key_at(self, j: int) -> StableKey {
        StableKey { slot: self.order@[j] }
    }

    /// The keys of all entries, in traversal order.
    pub closed spec fn keys(self) -> Seq<StableKey> {
        Seq::new(self.order@.len(), |j: int| self.key_at(j))
    }

    /// The values of all entries, in traversal order.
    pub closed spec fn values(self) -> Seq<T> {
        Seq::new(self.order@.len(), |j: int| self.slots[self.order@[j] as int].value->0)
    }

    /// How many entries the collection holds.
    pub open spec fn spec_len(self) -> nat {
        self.keys().len()
    }

    /// Whether `k` names a live entry.
    pub open spec fn contains_key(self, k: StableKey) -> bool {
        exists|j: int| 0 <= j < self.keys().len() && self.keys()[j] == k
    }

    /// The position of the entry `k` names.
    pub closed spec fn spec_index_of(self, k: StableKey) -> int {
        choose|j: int| 0 <= j < self.keys().len() && self.keys()[j] == k
    }

    /// The key after `k`, if `k` is live and not last.
    pub open spec fn spec_next(self, k: StableKey) -> Option<StableKey> {
        if self.contains_key(k) {
            let j = self.spec_index_of(k);
            if j == self.keys().len() - 1 {
                None
            } else {
                Some(self.keys()[j + 1])
            }
        } else {
            None
        }
    }

    /// The key before `k`, if `k` is live and not first.
    pub open spec fn spec_prev(self, k: StableKey) -> Option<StableKey> {
        if self.contains_key(k) {
            let j = self.spec_index_of(k);
            if j == 0 {
                None
            } else {
                Some(self.keys()[j - 1])
            }
        } else {
            None
        }
    }

    /// Two positions holding the same key are the same position.
    proof fn lemma_key_at_injective(self, i: int, j: int)
        requires
            self.wf(),
            0 <= i < self.order@.len(),
            0 <= j < self.order@.len(),
            self.key_at(i) == self.key_at(j),
        ensures
            i == j,
    {
        assert(self.order@[i] == self.order@[j]);
    }

    /// The keys hold no duplicates.
    pub proof fn lemma_keys_no_duplicates(self)
        requires
            self.wf(),
        ensures
            self.keys().no_duplicates(),
    {
        assert forall|i: int, j: int|
            0 <= i < self.keys().len() && 0 <= j < self.keys().len() && i != j implies self.keys()[i]
            != self.keys()[j] by {
            if self.keys()[i] == self.keys()[j] {
                self.lemma_key_at_injective(i, j);
            }
        }
    }

    /// For a live key, `spec_index_of` is its one position.
    proof fn lemma_index_of(self, k: StableKey)
        requires
            self.wf(),
            self.contains_key(k),
        ensures
            0 <= self.spec_index_of(k) < self.order@.len(),
            self.keys()[self.spec_index_of(k)] == k,
            self.order@[self.spec_index_of(k)] == k.slot,
            forall|j: int|
                0 <= j < self.order@.len() && #[trigger] self.order@[j] == k.slot
                    ==> j == self.spec_index_of(k),
    {
        let j0 = self.spec_index_of(k);
        assert(0 <= j0 < self.keys().len() && self.keys()[j0] == k);
        assert forall|j: int|
            0 <= j < self.order@.len() && #[trigger] self.order@[j] == k.slot implies j
            == j0 by {
            if j != j0 {
                assert(self.key_at(j) == self.key_at(j0));
                self.lemma_key_at_injective(j, j0);
            }
        }
    }

    /// A key is live exactly when its slot holds a live entry.
    proof fn lemma_contains_iff_occupied(self, k: StableKey)
        requires
            self.wf(),
        ensures
            self.contains_key(k) <==> self.slot_occupied(k.slot),
    {
        if self.contains_key(k) {
            let j = self.spec_index_of(k);
            assert(self.keys()[j] == k);
            assert(self.slot_occupied(self.order@[j]));
        }
        if self.slot_occupied(k.slot) {
            assert(self.order@.contains(k.slot));
            let j = choose|j: int| 0 <= j < self.order@.len() && self.order@[j] == k.slot;
            assert(self.keys()[j] == k);
        }
    }

    /// An empty collection.
    pub fn new() -> (r: Self)
        ensures
            r.wf(),
            r.keys() == Seq::<StableKey>::empty(),
            r.values() == Seq::<T>::empty(),
    {
        let r = OrderedCollection {
            slots: Vec::new(),
            head: None,
            tail: None,
            count: 0,
            order: Ghost(Seq::empty()),
        };
        proof {
            assert(r.keys() =~= Seq::<StableKey>::empty());
            assert(r.values() =~= Seq::<T>::empty());
        }
        r
    }

    /// How many entries are live.
    pub fn len(&self) -> (n: usize)
        requires
            self.wf(),
        ensures
            n == self.spec_len(),
    {
        self.count
    }

    /// Appends a value at the tail and mints its key, a key never handed out
    /// before.
    pub fn push_back(&mut self, value: T) -> (k: StableKey)
        requires
            old(self).wf(),
            old(self).spec_len() < usize::MAX,
        ensures
            final(self).wf(),
            !old(self).contains_key(k),
            final(self).keys() == old(self).keys().push(k),
            final(self).values() == old(self).values().push(value),
    {
        let i = self.slots.len();
        let old_tail = self.tail;
        self.slots.push(Slot { prev: old_tail, next: None, value: Some(value) });
        match old_tail {
            Some(t) => {
                proof {
                    assert(old(self).entry_links_ok(old(self).order@.len() - 1));
                }
                self.slots[t].next = Some(i);
            },
            None => {
                self.head = Some(i);
            },
        }
        self.tail = Some(i);
        self.count = self.count + 1;
        proof {
            self.order@ = self.order@.push(i);
        }
        let k = StableKey { slot: i };
        proof {
            let pre = *old(self);
            let post = *self;
            let s = pre.order@;
            let s2 = post.order@;
            assert(s2 == s.push(i));
            assert(forall|j: int| 0 <= j < s.len() ==> s[j] == #[trigger] s2[j]);
            assert(s2[s.len() as int] == i);
            assert(forall|j: int|
                0 <= j < s.len() ==> pre.slot_occupied(#[trigger] s[j]) && s[j] < i);
            assert(s2.no_duplicates()) by {
                assert(forall|j: int| 0 <= j < s.len() ==> #[trigger] s2[j] != i);
            }
            assert forall|j: int| 0 <= j < s2.len() implies post.slot_occupied(
                #[trigger] s2[j],
            ) by {
                if j < s.len() {
                    assert(pre.slot_occupied(s[j]));
                }
            }
            assert forall|iu: usize|
                iu < post.slots.len() && post.slots[iu as int].value is Some implies #[trigger] s2.contains(
                iu,
            ) by {
                if iu as int == i {
                    assert(s2[s.len() as int] == iu);
                } else {
                    assert(pre.slots[iu as int].value is Some);
                    assert(s.contains(iu));
                    let j = choose|j: int| 0 <= j < s.len() && s[j] == iu;
                    assert(s2[j] == iu);
                }
            }
            assert forall|j: int| 0 <= j < s2.len() implies #[trigger] post.entry_links_ok(
                j,
            ) by {
                if j < s.len() - 1 {
                    assert(pre.entry_links_ok(j));
                    assert(s[j] != s[s.len() - 1] as usize);
                } else if j == s.len() - 1 && s.len() >= 1 {
                    assert(pre.entry_links_ok(j));
                } else {
                }
            }
            assert(post.wf());
            assert(post.keys() =~= pre.keys().push(k));
            assert forall|j: int| 0 <= j < s2.len() implies post.values()[j] == pre.values().push(
                value,
            )[j] by {
                if j < s.len() {
                    assert(s2[j] == s[j] && s[j] < i);
                }
            }
            assert(post.values() =~= pre.values().push(value));
            assert(!pre.contains_key(k)) by {
                if pre.contains_key(k) {
                    let j = choose|j: int|
                        0 <= j < pre.keys().len() && pre.keys()[j] == k;
                    assert(s[j] == i);
                }
            }
        }
        k
    }

    /// The key of the first entry, or `None` while the collection is empty.
    pub fn head(&self) -> (r: Option<StableKey>)
        requires
            self.wf(),
        ensures
            self.spec_len() == 0 ==> r is None,
            self.spec_len() > 0 ==> r == Some(self.keys()[0]),
    {
        match self.head {
            None => None,
            Some(i) => {
                proof {
                    assert(self.slot_occupied(self.order@[0]));
                }
                Some(StableKey { slot: i })
            },
        }
    }

    /// The key of the last entry, or `None` while the collection is empty.
    pub fn tail(&self) -> (r: Option<StableKey>)
        requires
            self.wf(),
        ensures
            self.spec_len() == 0 ==> r is None,
            self.spec_len() > 0 ==> r == Some(self.keys()[self.spec_len() - 1]),
    {
        match self.tail {
            None => None,
            Some(i) => {
                proof {
                    assert(self.slot_occupied(self.order@[self.order@.len() - 1]));
                }
                Some(StableKey { slot: i })
            },
        }
    }

    /// The key after `k` in traversal order; `None` for the tail, and `None`
    /// for a key that is not (any more) in the collection.
    pub fn next(&self, k: StableKey) -> (r: Option<StableKey>)
        requires
            self.wf(),
        ensures
            r == self.spec_next(k),
    {
        proof {
            self.lemma_contains_iff_occupied(k);
        }
        if k.slot >= self.slots.len() {
            return None;
        }
        if self.slots[k.slot].value.is_none() {
            return None;
        }
        proof {
            self.lemma_index_of(k);
            assert(self.entry_links_ok(self.spec_index_of(k)));
        }
        match self.slots[k.slot].next {
            None => None,
            Some(nx) => Some(StableKey { slot: nx }),
        }
    }

    /// The key before `k` in traversal order; `None` for the head, and `None`
    /// for a key that is not (any more) in the collection.
    pub fn prev(&self, k: StableKey) -> (r: Option<StableKey>)
        requires
            self.wf(),
        ensures
            r == self.spec_prev(k),
    {
        proof {
            self.lemma_contains_iff_occupied(k);
        }
        if k.slot >= self.slots.len() {
            return None;
        }
        if self.slots[k.slot].value.is_none() {
            return None;
        }
        proof {
            self.lemma_index_of(k);
            assert(self.entry_links_ok(self.spec_index_of(k)));
        }
        match self.slots[k.slot].prev {
            None => None,
            Some(p) => Some(StableKey { slot: p }),
        }
    }

    /// The value stored under `k`, while `k` is live.
    pub fn get(&self, k: StableKey) -> (r: Option<&T>)
        requires
            self.wf(),
        ensures
            r is Some <==> self.contains_key(k),
            r matches Some(v) ==> *v == self.values()[self.spec_index_of(k)],
    {
        proof {
            self.lemma_contains_iff_occupied(k);
        }
        if k.slot >= self.slots.len() {
            return None;
        }
        proof {
            if self.contains_key(k) {
                self.lemma_index_of(k);
            }
        }
        self.slots[k.slot].value.as_ref()
    }

    /// The position of `k` in traversal order, counted from zero, found by
    /// walking the links from the head.
    pub fn position(&self, k: StableKey) -> (r: Option<usize>)
        requires
            self.wf(),
        ensures
            r is Some <==> self.contains_key(k),
            r matches Some(p) ==> p == self.spec_index_of(k),
    {
        proof {
            self.lemma_contains_iff_occupied(k);
            if self.contains_key(k) {
                self.lemma_index_of(k);
            }
        }
        let ghost s = self.order@;
        let mut cur = self.head;
        let mut idx: usize = 0;
        loop
            invariant
                self.wf(),
                s == self.order@,
                idx <= s.len(),
                cur == (if idx < s.len() {
                    Some(s[idx as int])
                } else {
                    Option::<usize>::None
                }),
                forall|x: int| 0 <= x < idx ==> s[x] != k.slot,
            ensures
                cur is None ==> forall|x: int| 0 <= x < s.len() ==> s[x] != k.slot,
                cur matches Some(i) ==> idx < s.len() && s[idx as int] == i && i == k.slot,
            decreases s.len() - idx,
        {
            match cur {
                None => {
                    break;
                },
                Some(i) => {
                    if i == k.slot {
                        break;
                    }
                    proof {
                        assert(self.entry_links_ok(idx as int));
                    }
                    cur = self.slots[i].next;
                    idx = idx + 1;
                },
            }
        }
        match cur {
            None => {
                proof {
                    if self.contains_key(k) {
                        assert(s[self.spec_index_of(k)] == k.slot);
                    }
                }
                None
            },
            Some(_) => {
                proof {
                    assert(self.key_at(idx as int) == k);
                    assert(self.contains_key(k)) by {
                        assert(self.keys()[idx as int] == k);
                    }
                    self.lemma_index_of(k);
                }
                Some(idx)
            },
        }
    }

    /// Removes the entry `k` names and hands its value back; all other keys
    /// stay live, in their order, with their neighbour links rewired across
    /// the gap. A key that is not live removes nothing.
    pub fn remove(&mut self, k: StableKey) -> (r: Option<T>)
        requires
            old(self).wf(),
        ensures
            final(self).wf(),
            r is Some <==> old(self).contains_key(k),
            !old(self).contains_key(k) ==> *final(self) == *old(self),
            old(self).contains_key(k) ==> ({
                let j = old(self).spec_index_of(k);
                &&& r == Some(old(self).values()[j])
                &&& final(self).keys() == old(self).keys().remove(j)
                &&& final(self).values() == old(self).values().remove(j)
            }),
    {
        proof {
            self.lemma_contains_iff_occupied(k);
        }
        if k.slot >= self.slots.len() {
            return None;
        }
        if self.slots[k.slot].value.is_none() {
            return None;
        }
        proof {
            self.lemma_index_of(k);
            assert(self.entry_links_ok(self.spec_index_of(k)));
        }
        let ghost pre = *self;
        let ghost j = pre.spec_index_of(k);
        let p = self.slots[k.slot].prev;
        let n = self.slots[k.slot].next;
        proof {
            if j > 0 {
                assert(pre.slot_occupied(pre.order@[j - 1]));
            }
            if j < pre.order@.len() - 1 {
                assert(pre.slot_occupied(pre.order@[j + 1]));
            }
        }
        let v = self.slots[k.slot].value.take();
        match p {
            Some(pi) => {
                self.slots[pi].next = n;
            },
            None => {
                self.head = n;
            },
        }
        match n {
            Some(ni) => {
                self.slots[ni].prev = p;
            },
            None => {
                self.tail = p;
            },
        }
        self.count = self.count - 1;
        proof {
            self.order@ = self.order@.remove(j);
        }
        proof {
            let post = *self;
            let s = pre.order@;
            let s2 = post.order@;
            assert(s2 == s.remove(j));
            assert(s2.len() == s.len() - 1);
            assert(forall|x: int| 0 <= x < j ==> #[trigger] s2[x] == s[x]);
            assert(forall|x: int| j <= x < s2.len() ==> #[trigger] s2[x] == s[x + 1]);
            // Distinct slots: the removed slot names no remaining position.
            assert forall|x: int| 0 <= x < s2.len() implies s2[x] != k.slot by {
                if x < j {
                    assert(s[x] != s[j]);
                } else {
                    assert(s[x + 1] != s[j]);
                }
            }
            assert(s2.no_duplicates()) by {
                assert forall|x: int, y: int|
                    0 <= x < s2.len() && 0 <= y < s2.len() && x != y implies s2[x] != s2[y] by {
                    let xs = if x < j {
                        x
                    } else {
                        x + 1
                    };
                    let ys = if y < j {
                        y
                    } else {
                        y + 1
                    };
                    assert(s[xs] != s[ys]);
                }
            }
            assert forall|x: int| 0 <= x < s2.len() implies post.slot_occupied(
                #[trigger] s2[x],
            ) by {
                let xs = if x < j {
                    x
                } else {
                    x + 1
                };
                assert(pre.slot_occupied(s[xs]));
                assert(s2[x] != k.slot);
            }
            assert forall|iu: usize|
                iu < post.slots.len() && post.slots[iu as int].value is Some implies #[trigger] s2.contains(
                iu,
            ) by {
                assert(pre.slots[iu as int].value is Some);
                assert(s.contains(iu));
                let x = choose|x: int| 0 <= x < s.len() && s[x] == iu;
                assert(iu != k.slot);
                assert(x != j);
                if x < j {
                    assert(s2[x] == iu);
                } else {
                    assert(s2[x - 1] == iu);
                }
            }
            assert forall|x: int| 0 <= x < s2.len() implies #[trigger] post.entry_links_ok(
                x,
            ) by {
                pre.lemma_index_of(k);
                assert(pre.entry_links_ok(x));
                assert(pre.entry_links_ok(x + 1));
                if x < j - 1 {
                    // Entirely before the gap: links untouched.
                    assert(s2[x] == s[x]);
                    assert(s[x] != s[j]);
                } else if x == j - 1 {
                    // The entry before the gap: its next was rewired.
                } else if x == j {
                    // The entry after the gap: its prev was rewired.
                } else {
                    assert(s2[x] == s[x + 1]);
                }
            }
            if s2.len() > 0 {
                assert(post.head == Some(s2[0]));
                assert(post.tail == Some(s2[s2.len() - 1]));
            }
            assert(post.wf());
            assert(post.keys() =~= pre.keys().remove(j));
            assert forall|x: int| 0 <= x < s2.len() implies post.values()[x] == pre.values().remove(
                j,
            )[x] by {
                let xs = if x < j {
                    x
                } else {
                    x + 1
                };
                assert(s2[x] == s[xs]);
                assert(s[xs] != k.slot);
            }
            assert(post.values() =~= pre.values().remove(j));
        }
        v
    }

    /// Builds a collection from the values of `items`, in their order.
    pub fn from_vec(items: Vec<T>) -> (r: Self)
        ensures
            r.wf(),
            r.values() == items@,
            r.spec_len() == items@.len(),
    {
        let ghost orig = items@;
        let mut items = items;
        let mut c = Self::new();
        let total = items.len();
        while items.len() > 0
            invariant
                c.wf(),
                items@.len() <= orig.len() == total,
                c.spec_len() == orig.len() - items@.len(),
                c.values() =~= orig.subrange(0, orig.len() - items@.len()),
                items@ =~= orig.subrange(orig.len() - items@.len(), orig.len() as int),
            decreases items@.len(),
        {
            let ghost done = orig.len() - items@.len();
            proof {
                assert(items@[0] == orig[done as int]);
            }
            let x = items.remove(0);
            c.push_back(x);
            proof {
                assert(c.values() =~= orig.subrange(0, done + 1));
                assert(items@ =~= orig.subrange(done + 1, orig.len() as int));
            }
        }
        proof {
            assert(c.values() =~= orig);
        }
        c
    }

    /// A collection never holds more entries than `usize` can count.
    pub proof fn lemma_len_bounded(self)
        requires
            self.wf(),
        ensures
            self.spec_len() <= usize::MAX,
    {
        assert(self.count == self.order@.len());
    }

    /// There are as many values as keys.
    pub proof fn lemma_lens(self)
        requires
            self.wf(),
        ensures
            self.keys().len() == self.values().len(),
    {
    }

    /// A live key's slot index is a valid, small index.
    pub proof fn lemma_contains_slot_small(self, k: StableKey)
        requires
            self.wf(),
            self.contains_key(k),
        ensures
            k.slot < usize::MAX,
    {
        self.lemma_contains_iff_occupied(k);
    }

    /// The position of a live key is its one index in `keys()`.
    pub proof fn lemma_position_of(self, k: StableKey)
        requires
            self.wf(),
            self.contains_key(k),
        ensures
            0 <= self.spec_index_of(k) < self.spec_len(),
            self.keys()[self.spec_index_of(k)] == k,
    {
        self.lemma_index_of(k);
    }

    /// The key standing at position `j` is live and has position `j`.
    pub proof fn lemma_key_at_position(self, j: int)
        requires
            self.wf(),
            0 <= j < self.spec_len(),
        ensures
            self.contains_key(self.keys()[j]),
            self.spec_index_of(self.keys()[j]) == j,
    {
        let k = self.keys()[j];
        assert(self.contains_key(k));
        self.lemma_index_of(k);
        if self.spec_index_of(k) != j {
            self.lemma_key_at_injective(self.spec_index_of(k), j);
        }
    }

    /// The key `next` yields stands one position after `k`.
    pub proof fn lemma_next_position(self, k: StableKey, k2: StableKey)
        requires
            self.wf(),
            self.spec_next(k) == Some(k2),
        ensures
            self.contains_key(k2),
            self.spec_index_of(k2) == self.spec_index_of(k) + 1,
    {
        self.lemma_index_of(k);
        let j = self.spec_index_of(k);
        assert(self.keys()[j + 1] == k2);
        self.lemma_key_at_position(j + 1);
    }

    /// The key `prev` yields stands one position before `k`.
    pub proof fn lemma_prev_position(self, k: StableKey, k2: StableKey)
        requires
            self.wf(),
            self.spec_prev(k) == Some(k2),
        ensures
            self.contains_key(k2),
            self.spec_index_of(k2) == self.spec_index_of(k) - 1,
    {
        self.lemma_index_of(k);
        let j = self.spec_index_of(k);
        assert(self.keys()[j - 1] == k2);
        self.lemma_key_at_position(j - 1);
    }

    /// Every other key is still live after a removal, at its old position or
    /// one before it.
    pub proof fn lemma_contains_after_remove(pre: Self, post: Self, k: StableKey, k2: StableKey)
        requires
            pre.wf(),
            pre.contains_key(k),
            post.keys() == pre.keys().remove(pre.spec_index_of(k)),
            k2 != k,
            pre.contains_key(k2),
        ensures
            post.contains_key(k2),
            post.keys().no_duplicates(),
    {
        pre.lemma_index_of(k);
        pre.lemma_index_of(k2);
        pre.lemma_keys_no_duplicates();
        let j = pre.spec_index_of(k);
        let j2 = pre.spec_index_of(k2);
        assert(j2 != j);
        if j2 < j {
            assert(post.keys()[j2] == k2);
        } else {
            assert(post.keys()[j2 - 1] == k2);
        }
        assert(post.keys().no_duplicates()) by {
            assert forall|x: int, y: int|
                0 <= x < post.keys().len() && 0 <= y < post.keys().len() && x != y implies post.keys()[x]
                != post.keys()[y] by {
                let xs = if x < j {
                    x
                } else {
                    x + 1
                };
                let ys = if y < j {
                    y
                } else {
                    y + 1
                };
                assert(pre.keys()[xs] != pre.keys()[ys]);
            }
        }
    }

    /// Where both sides are defined, `next` and `prev` are inverses: the key
    /// after `k1` is `k2` exactly when the key before `k2` is `k1`.
    pub proof fn lemma_next_prev_inverse(self, k1: StableKey, k2: StableKey)
        requires
            self.wf(),
            self.spec_next(k1) == Some(k2),
        ensures
            self.spec_prev(k2) == Some(k1),
    {
        self.lemma_index_of(k1);
        let j1 = self.spec_index_of(k1);
        assert(self.keys()[j1 + 1] == k2);
        assert(self.contains_key(k2));
        self.lemma_index_of(k2);
        let j2 = self.spec_index_of(k2);
        if j2 != j1 + 1 {
            self.lemma_key_at_injective(j2, j1 + 1);
        }
        assert(self.keys()[j1] == k1);
    }

    /// Where both sides are defined, `prev` and `next` are inverses: the key
    /// before `k1` is `k2` exactly when the key after `k2` is `k1`.
    pub proof fn lemma_prev_next_inverse(self, k1: StableKey, k2: StableKey)
        requires
            self.wf(),
            self.spec_prev(k1) == Some(k2),
        ensures
            self.spec_next(k2) == Some(k1),
    {
        self.lemma_index_of(k1);
        let j1 = self.spec_index_of(k1);
        assert(self.keys()[j1 - 1] == k2);
        assert(self.contains_key(k2));
        self.lemma_index_of(k2);
        let j2 = self.spec_index_of(k2);
        if j2 != j1 - 1 {
            self.lemma_key_at_injective(j2, j1 - 1);
        }
        assert(self.keys()[j1] == k1);
    }

    /// No wraparound at the boundaries: the tail has no next and the head has
    /// no previous entry.
    pub proof fn lemma_no_wraparound(self)
        requires
            self.wf(),
            self.spec_len() > 0,
        ensures
            self.spec_next(self.keys()[self.spec_len() - 1]) is None,
            self.spec_prev(self.keys()[0]) is None,
    {
        let last = self.keys()[self.spec_len() - 1];
        assert(self.contains_key(last));
        self.lemma_index_of(last);
        let jl = self.spec_index_of(last);
        if jl != self.spec_len() - 1 {
            self.lemma_key_at_injective(jl, self.spec_len() - 1);
        }
        let first = self.keys()[0];
        assert(self.contains_key(first));
        self.lemma_index_of(first);
        let jf = self.spec_index_of(first);
        if jf != 0 {
            self.lemma_key_at_injective(jf, 0);
        }
    }

    /// Removing the entry of `k` leaves the neighbour relation between every
    /// other pair of keys as it was: `post` is the collection after
    /// `pre.remove(k)`, described by `remove`'s contract.
    pub proof fn lemma_remove_preserves_links(
        pre: Self,
        post: Self,
        k: StableKey,
        k1: StableKey,
        k2: StableKey,
    )
        requires
            pre.wf(),
            pre.contains_key(k),
            post.keys() == pre.keys().remove(pre.spec_index_of(k)),
            k1 != k,
            k2 != k,
        ensures
            pre.spec_next(k1) == Some(k2) ==> post.spec_next(k1) == Some(k2),
            pre.spec_prev(k1) == Some(k2) ==> post.spec_prev(k1) == Some(k2),
    {
        pre.lemma_index_of(k);
        pre.lemma_keys_no_duplicates();
        let j = pre.spec_index_of(k);
        let n = pre.keys().len();
        assert(post.keys().len() == n - 1);
        assert(forall|x: int| 0 <= x < j ==> post.keys()[x] == #[trigger] pre.keys()[x]);
        assert(forall|x: int|
            j <= x < n - 1 ==> #[trigger] post.keys()[x] == pre.keys()[x + 1]);
        assert(post.keys().no_duplicates()) by {
            assert forall|x: int, y: int|
                0 <= x < post.keys().len() && 0 <= y < post.keys().len() && x != y implies post.keys()[x]
                != post.keys()[y] by {
                let xs = if x < j {
                    x
                } else {
                    x + 1
                };
                let ys = if y < j {
                    y
                } else {
                    y + 1
                };
                assert(pre.keys()[xs] != pre.keys()[ys]);
            }
        }
        if pre.spec_next(k1) == Some(k2) {
            pre.lemma_index_of(k1);
            let j1 = pre.spec_index_of(k1);
            assert(pre.keys()[j1 + 1] == k2);
            assert(j1 != j && j1 + 1 != j);
            let p1 = if j1 < j {
                j1
            } else {
                j1 - 1
            };
            assert(post.keys()[p1] == k1);
            assert(post.keys()[p1 + 1] == k2);
            assert(post.contains_key(k1));
            let q = post.spec_index_of(k1);
            assert(0 <= q < post.keys().len() && post.keys()[q] == k1);
            assert(q == p1);
            assert(post.spec_next(k1) == Some(post.keys()[p1 + 1]));
        }
        if pre.spec_prev(k1) == Some(k2) {
            pre.lemma_index_of(k1);
            let j1 = pre.spec_index_of(k1);
            assert(pre.keys()[j1 - 1] == k2);
            assert(j1 != j && j1 - 1 != j);
            let p1 = if j1 < j {
                j1
            } else {
                j1 - 1
            };
            assert(post.keys()[p1] == k1);
            assert(post.keys()[p1 - 1] == k2);
            assert(post.contains_key(k1));
            let q = post.spec_index_of(k1);
            assert(0 <= q < post.keys().len() && post.keys()[q] == k1);
            assert(q == p1);
            assert(post.spec_prev(k1) == Some(post.keys()[p1 - 1]));
        }
    }
}

} // verus!
