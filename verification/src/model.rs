//! The mathematical model of the cache: a fixed row of slots and a cursor.

use vstd::prelude::*;

verus! {

/// What a cache is, as a mathematical value: one entry per slot, vacant
/// (`None`) or holding a key with its value, and the index of the slot that
/// the next new key will take.
pub struct CacheModel<I, V> {
    pub slots: Seq<Option<(I, V)>>,
    pub cursor: int,
}

impl<I, V> CacheModel<I, V> {
    /// The model of a cache of `n` vacant slots, with the cursor at the start.
    pub open spec fn empty(n: nat) -> Self {
        CacheModel { slots: Seq::new(n, |i: int| None), cursor: 0 }
    }

    /// The number of slots.
    pub open spec fn capacity(self) -> nat {
        self.slots.len()
    }

    /// Slot `i` exists and holds `key`.
    pub open spec fn holds(self, i: int, key: I) -> bool {
        &&& 0 <= i < self.slots.len()
        &&& self.slots[i] matches Some(e) && e.0 == key
    }

    /// Slot `i` is the first slot, in index order, that holds `key`.
    pub open spec fn first(self, i: int, key: I) -> bool {
        &&& self.holds(i, key)
        &&& forall|j: int| 0 <= j < i ==> !self.holds(j, key)
    }

    /// The index of the first slot that holds `key`, if any slot does.
    pub open spec fn find(self, key: I) -> Option<int> {
        if exists|i: int| self.first(i, key) {
            Some(choose|i: int| self.first(i, key))
        } else {
            None
        }
    }

    /// Some slot holds `key`.
    pub open spec fn contains(self, key: I) -> bool {
        self.find(key) is Some
    }

    /// The value stored with `key`, if some slot holds it.
    pub open spec fn lookup(self, key: I) -> Option<V> {
        match self.find(key) {
            Some(i) => Some(self.slots[i].unwrap().1),
            None => None,
        }
    }

    /// No key is held by two slots.
    pub open spec fn unique_keys(self) -> bool {
        forall|i: int, j: int, key: I| self.holds(i, key) && self.holds(j, key) ==> i == j
    }

    /// The cursor names a slot (or is zero where there is no slot at all),
    /// and no key is held twice.
    pub open spec fn wf(self) -> bool {
        &&& if self.slots.len() == 0 {
            self.cursor == 0
        } else {
            0 <= self.cursor < self.slots.len()
        }
        &&& self.unique_keys()
    }

    /// The model with the value in slot `i` replaced; the key, the other
    /// slots and the cursor stay.
    pub open spec fn with_value(self, i: int, value: V) -> Self
        recommends
            0 <= i < self.slots.len(),
            self.slots[i] is Some,
    {
        CacheModel {
            slots: self.slots.update(i, Some((self.slots[i].unwrap().0, value))),
            cursor: self.cursor,
        }
    }

    /// The model after a new entry took the slot under the cursor, whatever
    /// that slot held, and the cursor moved on by one, wrapping at the end.
    pub open spec fn store(self, key: I, value: V) -> Self
        recommends
            0 <= self.cursor < self.slots.len(),
    {
        CacheModel {
            slots: self.slots.update(self.cursor, Some((key, value))),
            cursor: (self.cursor + 1) % (self.slots.len() as int),
        }
    }

    /// The model after an insertion: a key that is already held gets the new
    /// value in its slot; any other key takes the slot under the cursor.
    pub open spec fn put(self, key: I, value: V) -> Self
        recommends
            0 <= self.cursor < self.slots.len(),
    {
        match self.find(key) {
            Some(i) => self.with_value(i, value),
            None => self.store(key, value),
        }
    }

    /// The model after the same insertion made `times` times in a row.
    pub open spec fn put_repeated(self, key: I, value: V, times: nat) -> Self
        decreases times,
    {
        if times == 0 {
            self
        } else {
            self.put_repeated(key, value, (times - 1) as nat).put(key, value)
        }
    }

    /// The model after the entries were inserted one after the other.
    pub open spec fn put_all(self, entries: Seq<(I, V)>) -> Self
        decreases entries.len(),
    {
        if entries.len() == 0 {
            self
        } else {
            self.put_all(entries.drop_last()).put(entries.last().0, entries.last().1)
        }
    }

    /// If any slot up to `i` holds `key`, then some slot is the first to.
    proof fn lemma_some_first(self, key: I, i: int)
        requires
            self.holds(i, key),
        ensures
            exists|f: int| self.first(f, key),
        decreases i,
    {
        if exists|j: int| 0 <= j < i && self.holds(j, key) {
            let j = choose|j: int| 0 <= j < i && self.holds(j, key);
            self.lemma_some_first(key, j);
        } else {
            assert(self.first(i, key));
        }
    }

    /// `find` returns the first slot that holds the key, and `None` only
    /// where no slot holds it.
    pub proof fn lemma_find(self, key: I)
        ensures
            match self.find(key) {
                Some(i) => self.first(i, key),
                None => forall|i: int| !self.holds(i, key),
            },
    {
        if self.find(key) is None {
            assert forall|i: int| !self.holds(i, key) by {
                if self.holds(i, key) {
                    self.lemma_some_first(key, i);
                }
            }
        }
    }

    /// The first slot that holds a key is what `find` returns.
    pub proof fn lemma_find_first(self, key: I, i: int)
        requires
            self.first(i, key),
        ensures
            self.find(key) == Some(i),
            self.contains(key),
            self.lookup(key) == Some(self.slots[i].unwrap().1),
    {
        let c = choose|c: int| self.first(c, key);
        assert(self.first(c, key));
        if c < i {
            assert(self.holds(c, key));
        } else if i < c {
            assert(self.holds(i, key));
        }
    }

    /// Where no slot holds a key, `find` returns `None`.
    pub proof fn lemma_find_absent(self, key: I)
        requires
            forall|i: int| 0 <= i < self.slots.len() ==> !self.holds(i, key),
        ensures
            self.find(key) is None,
            !self.contains(key),
            self.lookup(key) is None,
    {
        if exists|i: int| self.first(i, key) {
            let c = choose|c: int| self.first(c, key);
            assert(self.holds(c, key));
        }
    }

    /// Where no key is held twice, the slot that holds a key is the one
    /// that `find` returns.
    pub proof fn lemma_find_unique(self, key: I, i: int)
        requires
            self.unique_keys(),
            self.holds(i, key),
        ensures
            self.find(key) == Some(i),
            self.lookup(key) == Some(self.slots[i].unwrap().1),
    {
        assert(self.first(i, key)) by {
            assert forall|j: int| 0 <= j < i implies !self.holds(j, key) by {
                if self.holds(j, key) {
                    assert(i == j);
                }
            }
        }
        self.lemma_find_first(key, i);
    }

    /// Replacing the value in a slot keeps the model well formed and moves
    /// no key.
    pub proof fn lemma_with_value_wf(self, i: int, value: V)
        requires
            self.wf(),
            0 <= i < self.slots.len(),
            self.slots[i] is Some,
        ensures
            self.with_value(i, value).wf(),
            forall|j: int, key: I| self.with_value(i, value).holds(j, key) == self.holds(j, key),
    {
        let after = self.with_value(i, value);
        assert forall|j: int, key: I| after.holds(j, key) == self.holds(j, key) by {}
        assert forall|a: int, b: int, key: I|
            after.holds(a, key) && after.holds(b, key) implies a == b by {
            assert(self.holds(a, key) && self.holds(b, key));
        }
    }

    /// Storing a key that no slot holds keeps the model well formed.
    pub proof fn lemma_store_wf(self, key: I, value: V)
        requires
            self.wf(),
            self.slots.len() > 0,
            !self.contains(key),
        ensures
            self.store(key, value).wf(),
    {
        let after = self.store(key, value);
        self.lemma_find(key);
        assert forall|a: int, b: int, other: I|
            after.holds(a, other) && after.holds(b, other) implies a == b by {
            if a != self.cursor && b != self.cursor {
                assert(self.holds(a, other) && self.holds(b, other));
            } else if a != self.cursor {
                assert(self.holds(a, other));
            } else if b != self.cursor {
                assert(self.holds(b, other));
            }
        }
    }

    /// A key stored under the cursor, where no slot held it, maps to the
    /// value it was stored with.
    pub proof fn lemma_store_lookup(self, key: I, value: V)
        requires
            self.wf(),
            self.slots.len() > 0,
            !self.contains(key),
        ensures
            self.store(key, value).lookup(key) == Some(value),
    {
        self.lemma_store_wf(key, value);
        self.store(key, value).lemma_find_unique(key, self.cursor);
    }
}

} // verus!
