//! What holds of the cache's model across insertions, lookups and clearing.

use crate::model::CacheModel;
use vstd::arithmetic::div_mod::{lemma_mod_self_0, lemma_small_mod};
use vstd::prelude::*;

verus! {

/// No two of the entries have the same key.
pub open spec fn distinct_keys<I, V>(entries: Seq<(I, V)>) -> bool {
    forall|i: int, j: int| 0 <= i < j < entries.len() ==> entries[i].0 != entries[j].0
}

/// The cache holds none of the entries' keys.
pub open spec fn holds_none_of<I, V>(cache: CacheModel<I, V>, entries: Seq<(I, V)>) -> bool {
    forall|i: int| 0 <= i < entries.len() ==> !cache.contains(#[trigger] entries[i].0)
}

/// The slot index `at`, counted round the end of an array of `n` slots; for
/// `0 <= at < 2 * n`.
spec fn wrapped(at: int, n: int) -> int {
    if at < n {
        at
    } else {
        at - n
    }
}

/// Slot `j` is one of the `count` slots from the cursor `c` on, counted
/// round the end of an array of `n` slots.
spec fn taken(c: int, count: int, n: int, j: int) -> bool {
    if j >= c {
        j - c < count
    } else {
        j - c + n < count
    }
}

impl<I, V> CacheModel<I, V> {
    /// A cache of vacant slots is well formed, has the capacity it was made
    /// with, and holds no key at all.
    pub proof fn lemma_empty_holds_nothing(n: nat, key: I)
        ensures
            Self::empty(n).wf(),
            Self::empty(n).capacity() == n,
            !Self::empty(n).contains(key),
            Self::empty(n).lookup(key) is None,
    {
        Self::empty(n).lemma_find_absent(key);
    }

    /// An insertion keeps the model well formed: the cursor still names a
    /// slot and no key is held twice.
    pub proof fn lemma_put_wf(self, key: I, value: V)
        requires
            self.wf(),
            self.slots.len() > 0,
        ensures
            self.put(key, value).wf(),
            self.put(key, value).capacity() == self.capacity(),
    {
        self.lemma_find(key);
        match self.find(key) {
            Some(i) => {
                self.lemma_with_value_wf(i, value);
            },
            None => {
                self.lemma_store_wf(key, value);
            },
        }
    }

    /// What a lookup returns after the value in slot `i` was replaced: the
    /// key in that slot maps to the new value, and every other key maps to
    /// what it mapped to before.
    pub proof fn lemma_with_value_lookup(self, i: int, value: V, other: I)
        requires
            self.wf(),
            0 <= i < self.slots.len(),
            self.slots[i] is Some,
        ensures
            self.with_value(i, value).lookup(other) == if other == self.slots[i].unwrap().0 {
                Some(value)
            } else {
                self.lookup(other)
            },
    {
        let after = self.with_value(i, value);
        self.lemma_with_value_wf(i, value);
        self.lemma_find(other);
        assert forall|j: int| after.holds(j, other) == self.holds(j, other) by {}
        if other == self.slots[i].unwrap().0 {
            assert(after.holds(i, other));
            after.lemma_find_unique(other, i);
        } else {
            match self.find(other) {
                Some(j) => {
                    after.lemma_find_unique(other, j);
                },
                None => {
                    after.lemma_find_absent(other);
                },
            }
        }
    }

    /// What a lookup returns after an insertion. The inserted key maps to
    /// the inserted value. Any other key maps to what it mapped to before,
    /// unless the inserted key was new and took the slot that held it.
    pub proof fn lemma_put_lookup(self, key: I, value: V, other: I)
        requires
            self.wf(),
            self.slots.len() > 0,
        ensures
            self.put(key, value).lookup(other) == if other == key {
                Some(value)
            } else if !self.contains(key) && self.holds(self.cursor, other) {
                None
            } else {
                self.lookup(other)
            },
    {
        let after = self.put(key, value);
        self.lemma_find(key);
        self.lemma_find(other);
        match self.find(key) {
            Some(i) => {
                self.lemma_with_value_lookup(i, value, other);
            },
            None => {
                let c = self.cursor;
                assert forall|j: int| j != c implies after.holds(j, other) == self.holds(
                    j,
                    other,
                ) by {}
                if other == key {
                    assert(after.first(c, key));
                    after.lemma_find_first(key, c);
                } else if self.holds(c, other) {
                    assert forall|j: int| 0 <= j < after.slots.len() implies !after.holds(
                        j,
                        other,
                    ) by {
                        if j != c && self.holds(j, other) {
                            assert(self.holds(c, other));
                        }
                    }
                    after.lemma_find_absent(other);
                } else {
                    match self.find(other) {
                        Some(j) => {
                            assert(after.first(j, other));
                            after.lemma_find_first(other, j);
                        },
                        None => {
                            after.lemma_find_absent(other);
                        },
                    }
                }
            },
        }
    }

    /// Update in place: inserting a key that the cache holds, with any
    /// value, makes the key map to that value, leaves every other key as it
    /// was, and does not move the cursor.
    pub proof fn lemma_update_in_place(self, key: I, value: V)
        requires
            self.wf(),
            self.contains(key),
        ensures
            self.put(key, value).lookup(key) == Some(value),
            forall|other: I|
                other != key ==> self.put(key, value).lookup(other) == self.lookup(other),
            self.put(key, value).cursor == self.cursor,
    {
        self.lemma_find(key);
        self.lemma_put_lookup(key, value, key);
        assert forall|other: I| other != key implies self.put(key, value).lookup(other)
            == self.lookup(other) by {
            self.lemma_put_lookup(key, value, other);
        }
    }

    /// After an insertion, the same insertion again changes nothing: not the
    /// slots, and not the cursor.
    pub proof fn lemma_put_twice(self, key: I, value: V)
        requires
            self.wf(),
            self.slots.len() > 0,
        ensures
            self.put(key, value).put(key, value) == self.put(key, value),
    {
        let once = self.put(key, value);
        self.lemma_put_wf(key, value);
        self.lemma_put_lookup(key, value, key);
        once.lemma_find(key);
        let i = once.find(key).unwrap();
        assert(once.with_value(i, value).slots =~= once.slots);
    }

    /// Idempotence: the same insertion made any number of times, at least
    /// once, leaves the cache as a single such insertion does. The key then
    /// maps to the value, and the cursor stands where the first insertion
    /// left it.
    pub proof fn lemma_repeated_insertion(self, key: I, value: V, times: nat)
        requires
            self.wf(),
            self.slots.len() > 0,
            times >= 1,
        ensures
            self.put_repeated(key, value, times) == self.put(key, value),
            self.put_repeated(key, value, times).lookup(key) == Some(value),
            self.put_repeated(key, value, times).cursor == self.put(key, value).cursor,
            self.contains(key) ==> self.put_repeated(key, value, times).cursor == self.cursor,
        decreases times,
    {
        self.lemma_put_lookup(key, value, key);
        if times == 1 {
            assert(self.put_repeated(key, value, 0) == self);
        } else {
            self.lemma_repeated_insertion(key, value, (times - 1) as nat);
            self.lemma_put_twice(key, value);
        }
    }

    /// Inserting new keys, all different and at most as many as there are
    /// slots, fills the slots one by one from the cursor on, round the end
    /// of the array, and leaves every other slot as it was.
    proof fn lemma_fill(self, entries: Seq<(I, V)>)
        requires
            self.wf(),
            distinct_keys(entries),
            entries.len() <= self.slots.len(),
            holds_none_of(self, entries),
        ensures
            self.put_all(entries).wf(),
            self.put_all(entries).slots.len() == self.slots.len(),
            entries.len() > 0 ==> self.put_all(entries).cursor == wrapped(
                self.cursor + entries.len(),
                self.slots.len() as int,
            ),
            forall|i: int|
                0 <= i < entries.len() ==> self.put_all(entries).slots[wrapped(
                    self.cursor + i,
                    self.slots.len() as int,
                )] == Some(#[trigger] entries[i]),
            forall|j: int|
                0 <= j < self.slots.len() && !taken(
                    self.cursor,
                    entries.len() as int,
                    self.slots.len() as int,
                    j,
                ) ==> #[trigger] self.put_all(entries).slots[j] == self.slots[j],
        decreases entries.len(),
    {
        let n = self.slots.len() as int;
        let c = self.cursor;
        if entries.len() > 0 {
            let earlier = entries.drop_last();
            let last = entries.last();
            let len = earlier.len() as int;
            let before = self.put_all(earlier);
            let after = self.put_all(entries);
            assert forall|i: int| 0 <= i < earlier.len() implies !self.contains(
                #[trigger] earlier[i].0,
            ) by {
                assert(earlier[i] == entries[i]);
            }
            self.lemma_fill(earlier);
            assert(!self.contains(entries[len].0));
            self.lemma_find(last.0);
            assert forall|j: int| 0 <= j < before.slots.len() implies !before.holds(j, last.0) by {
                if taken(c, len, n, j) {
                    let i = j - c + if j >= c { 0int } else { n };
                    assert(j == wrapped(c + i, n));
                    assert(earlier[i] == entries[i]);
                    assert(before.slots[j] == Some(earlier[i]));
                } else {
                    assert(before.slots[j] == self.slots[j]);
                    assert(!self.holds(j, last.0));
                }
            }
            before.lemma_find_absent(last.0);
            before.lemma_store_wf(last.0, last.1);
            assert(before.cursor == wrapped(c + len, n));
            if before.cursor + 1 == n {
                lemma_mod_self_0(n);
            } else {
                lemma_small_mod((before.cursor + 1) as nat, n as nat);
            }
            assert(after == before.store(last.0, last.1));
            assert forall|i: int| 0 <= i < entries.len() implies after.slots[wrapped(c + i, n)]
                == Some(#[trigger] entries[i]) by {
                if i < len {
                    assert(earlier[i] == entries[i]);
                    assert(before.slots[wrapped(c + i, n)] == Some(earlier[i]));
                }
            }
            assert forall|j: int| 0 <= j < n && !taken(c, len + 1, n, j) implies
                #[trigger] after.slots[j] == self.slots[j] by {
                assert(!taken(c, len, n, j));
                assert(before.slots[j] == self.slots[j]);
            }
        }
    }

    /// Every key stays retrievable while the cache has room: after the
    /// insertion of at most as many entries as there are slots, all with
    /// different keys, into a cache that held none of them (a new cache holds
    /// none), every one of the keys maps to the value it was inserted with.
    pub proof fn lemma_distinct_insertions_retrievable(self, entries: Seq<(I, V)>, i: int)
        requires
            self.wf(),
            distinct_keys(entries),
            entries.len() <= self.capacity(),
            holds_none_of(self, entries),
            0 <= i < entries.len(),
        ensures
            self.put_all(entries).lookup(entries[i].0) == Some(entries[i].1),
    {
        let filled = self.put_all(entries);
        self.lemma_fill(entries);
        let at = wrapped(self.cursor + i, self.slots.len() as int);
        assert(filled.slots[at] == Some(entries[i]));
        filled.lemma_find_unique(entries[i].0, at);
    }

    /// First in, first out: after the insertion of one entry more than there
    /// are slots, all with different keys, into a cache that held none of
    /// them (a new cache holds none), the key inserted first is gone, and
    /// every later key maps to the value it was inserted with.
    pub proof fn lemma_fifo_eviction(self, entries: Seq<(I, V)>)
        requires
            self.wf(),
            self.capacity() > 0,
            distinct_keys(entries),
            entries.len() == self.capacity() + 1,
            holds_none_of(self, entries),
        ensures
            self.put_all(entries).lookup(entries[0].0) is None,
            forall|i: int|
                1 <= i < entries.len() ==> self.put_all(entries).lookup(#[trigger] entries[i].0)
                    == Some(entries[i].1),
    {
        let n = self.slots.len() as int;
        let c = self.cursor;
        let earlier = entries.drop_last();
        let last = entries.last();
        let full = self.put_all(earlier);
        let after = full.put(last.0, last.1);
        assert(after == self.put_all(entries));
        assert forall|i: int| 0 <= i < earlier.len() implies !self.contains(
            #[trigger] earlier[i].0,
        ) by {
            assert(earlier[i] == entries[i]);
        }
        self.lemma_fill(earlier);
        assert(full.cursor == c);
        assert forall|i: int| 0 <= i < n implies full.slots[wrapped(c + i, n)] == Some(
            #[trigger] entries[i],
        ) by {
            assert(earlier[i] == entries[i]);
        }
        assert(full.slots[wrapped(c + 0, n)] == Some(entries[0]));
        assert forall|j: int| 0 <= j < n implies !full.holds(j, last.0) by {
            let i = j - c + if j >= c { 0int } else { n };
            assert(full.slots[wrapped(c + i, n)] == Some(entries[i]));
        }
        full.lemma_find_absent(last.0);
        full.lemma_put_lookup(last.0, last.1, entries[0].0);
        assert forall|i: int| 1 <= i < entries.len() implies after.lookup(#[trigger] entries[i].0)
            == Some(entries[i].1) by {
            full.lemma_put_lookup(last.0, last.1, entries[i].0);
            if i < n {
                let at = wrapped(c + i, n);
                assert(full.slots[at] == Some(entries[i]));
                full.lemma_find_unique(entries[i].0, at);
                if full.holds(c, entries[i].0) {
                    assert(at == c);
                }
            }
        }
    }
}

} // verus!
