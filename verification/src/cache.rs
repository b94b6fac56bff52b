//! The cache: a fixed array of slots, searched in index order, refilled first
//! in, first out.

use crate::keys::{Equivalent, Key};
use crate::model::CacheModel;
use crate::slot::{vacant_slots, KeyValueSlot};
use vstd::prelude::*;

verus! {

/// A small, fixed-size key/value cache. It holds at most `SIZE` keys; once
/// every slot is taken, each new key replaces the key that was inserted
/// longest ago.
pub struct MemoCache<K, V, const SIZE: usize> {
    buffer: [KeyValueSlot<K, V>; SIZE],
    cursor: usize,
}

impl<K: View, V, const SIZE: usize> View for MemoCache<K, V, SIZE> {
    type V = CacheModel<K::V, V>;

    closed spec fn view(&self) -> CacheModel<K::V, V> {
        CacheModel {
            slots: Seq::new(SIZE as nat, |i: int| self.buffer@[i].entry()),
            cursor: self.cursor as int,
        }
    }
}

impl<K, V, const SIZE: usize> MemoCache<K, V, SIZE> where K: Key {
    /// The cache has `SIZE` slots, its cursor names one of them (or is zero
    /// where `SIZE` is zero), and no two slots hold equivalent keys.
    pub open spec fn wf(&self) -> bool {
        &&& self@.slots.len() == SIZE
        &&& self@.wf()
    }

    /// Creates a cache in which every slot is vacant.
    pub fn new() -> (cache: Self)
        ensures
            cache.wf(),
            cache@ == CacheModel::<K::V, V>::empty(SIZE as nat),
            forall|key: K::V| cache@.lookup(key) is None,
    {
        let cache = Self { buffer: vacant_slots(), cursor: 0 };
        proof {
            assert(cache@.slots =~= CacheModel::<K::V, V>::empty(SIZE as nat).slots);
            assert forall|key: K::V| cache@.lookup(key) is None by {
                CacheModel::<K::V, V>::lemma_empty_holds_nothing(SIZE as nat, key);
            }
        }
        cache
    }

    /// The fixed number of slots.
    pub fn capacity(&self) -> (n: usize)
        ensures
            n == SIZE,
            self.wf() ==> n == self@.capacity(),
    {
        SIZE
    }

    /// The index of the slot that the next new key will take.
    pub fn cursor(&self) -> (i: usize)
        ensures
            i == self@.cursor,
    {
        self.cursor
    }

    /// The slots, in index order.
    pub fn slots(&self) -> (slots: &[KeyValueSlot<K, V>; SIZE])
        ensures
            slots@.len() == self@.slots.len(),
            forall|i: int| 0 <= i < SIZE ==> slots@[i].entry() == self@.slots[i],
    {
        &self.buffer
    }

    /// The index of the first slot whose key is equivalent to `k`, if there
    /// is one.
    pub fn get_key_index<Q>(&self, k: &Q) -> (r: Option<usize>) where Q: Equivalent<K> + ?Sized
        ensures
            match r {
                Some(i) => self@.find(k@) == Some(i as int),
                None => self@.find(k@) is None,
            },
    {
        let mut i: usize = 0;
        while i < SIZE
            invariant
                i <= SIZE,
                forall|j: int| 0 <= j < i ==> !self@.holds(j, k@),
            decreases SIZE - i,
        {
            if self.buffer[i].is_key(k) {
                proof {
                    assert(self@.first(i as int, k@));
                    self@.lemma_find_first(k@, i as int);
                }
                return Some(i);
            }
            i += 1;
        }
        proof {
            self@.lemma_find_absent(k@);
        }
        None
    }

    /// Returns `true` if the cache holds a value for a key equivalent to `k`.
    pub fn contains_key<Q>(&self, k: &Q) -> (r: bool) where Q: Equivalent<K> + ?Sized
        ensures
            r == self@.contains(k@),
    {
        self.get_key_index(k).is_some()
    }

    /// Looks up the value stored for a key equivalent to `k`.
    pub fn get<Q>(&self, k: &Q) -> (r: Option<&V>) where Q: Equivalent<K> + ?Sized
        ensures
            match r {
                Some(v) => self@.lookup(k@) == Some(*v),
                None => self@.lookup(k@) is None,
            },
    {
        match self.get_key_index(k) {
            Some(i) => {
                proof {
                    self@.lemma_find(k@);
                }
                self.buffer[i].get_value()
            },
            None => None,
        }
    }

    /// Looks up the value stored for a key equivalent to `k`, for mutation.
    pub fn get_mut<Q>(&mut self, k: &Q) -> (r: Option<&mut V>) where Q: Equivalent<K> + ?Sized
        requires
            old(self).wf(),
        ensures
            final(self).wf(),
            match r {
                Some(v) => old(self)@.find(k@) matches Some(i) && old(self)@.lookup(k@) == Some(*v)
                    && final(self)@ == old(self)@.with_value(i, *final(v))
                    && final(self)@.lookup(k@) == Some(*final(v)),
                None => old(self)@.find(k@) is None && *final(self) == *old(self),
            },
    {
        match self.get_key_index(k) {
            Some(i) => {
                proof {
                    self@.lemma_find(k@);
                }
                let ghost before = self@;
                let r = self.buffer[i].get_value_mut();
                proof {
                    let after = before.with_value(i as int, *final(r.unwrap()));
                    before.lemma_with_value_wf(i as int, *final(r.unwrap()));
                    before.lemma_with_value_lookup(i as int, *final(r.unwrap()), k@);
                    assert(after_borrow(*self)@.slots =~= after.slots);
                }
                r
            },
            None => None,
        }
    }

    /// Puts the pair into the slot under the cursor, whatever that slot
    /// held, and moves the cursor on by one slot, back to the first after the
    /// last. Returns the stored value.
    fn replace_and_shift(&mut self, k: K, v: V) -> (r: &V)
        requires
            old(self).wf(),
            SIZE > 0,
            !old(self)@.contains(k@),
        ensures
            final(self).wf(),
            final(self)@ == old(self)@.store(k@, v),
            *r == v,
    {
        let ghost before = self@;
        let at = self.cursor;
        self.buffer[at] = KeyValueSlot::Used(k, v);
        self.cursor = (self.cursor + 1) % SIZE;
        proof {
            before.lemma_store_wf(k@, v);
            assert(self@.slots =~= before.store(k@, v).slots);
        }
        self.buffer[at].get_value().unwrap()
    }

    /// Inserts a key/value pair. A key that the cache already holds keeps its
    /// slot and gets the new value; any other key takes the slot under the
    /// cursor, which replaces the key inserted longest ago once the cache is
    /// full.
    pub fn insert(&mut self, k: K, v: V)
        requires
            old(self).wf(),
            SIZE > 0,
        ensures
            final(self).wf(),
            final(self)@ == old(self)@.put(k@, v),
            final(self)@.lookup(k@) == Some(v),
    {
        let ghost before = self@;
        proof {
            before.lemma_put_lookup(k@, v, k@);
        }
        match self.get_key_index(&k) {
            Some(i) => {
                proof {
                    before.lemma_find(k@);
                    before.lemma_with_value_wf(i as int, v);
                }
                self.buffer[i].update_value(v);
                proof {
                    assert(self@.slots =~= before.with_value(i as int, v).slots);
                }
            },
            None => {
                self.replace_and_shift(k, v);
            },
        }
    }

    /// Returns the value stored for `k`; where the cache holds none, stores
    /// the value that `f` computes for `k`, under a copy of `k`, and returns
    /// it. `f` is called only on a miss.
    pub fn get_or_insert_with<F>(&mut self, k: &K, f: F) -> (r: &V) where F: FnOnce(&K) -> V
        requires
            old(self).wf(),
            SIZE > 0,
            !old(self)@.contains(k@) ==> f.requires((k,)),
        ensures
            final(self).wf(),
            match old(self)@.lookup(k@) {
                Some(v) => *r == v && *final(self) == *old(self),
                None => f.ensures((k,), *r) && final(self)@ == old(self)@.store(k@, *r),
            },
            final(self)@.lookup(k@) == Some(*r),
    {
        if let Some(i) = self.get_key_index(k) {
            proof {
                self@.lemma_find(k@);
            }
            self.buffer[i].get_value().unwrap()
        } else {
            let key = k.duplicate();
            let v = f(k);
            proof {
                self@.lemma_store_lookup(k@, v);
            }
            self.replace_and_shift(key, v)
        }
    }

    /// Returns the value stored for `k`; where the cache holds none, calls
    /// `f` for `k`. A value that `f` returns is stored under a copy of `k`
    /// and returned; an error that `f` returns is handed on, and the cache
    /// stays as it was. `f` is called only on a miss.
    pub fn get_or_try_insert_with<F, E>(&mut self, k: &K, f: F) -> (r: Result<&V, E>) where
        F: FnOnce(&K) -> Result<V, E>,
        requires
            old(self).wf(),
            SIZE > 0,
            !old(self)@.contains(k@) ==> f.requires((k,)),
        ensures
            final(self).wf(),
            match old(self)@.lookup(k@) {
                Some(v) => r matches Ok(held) && *held == v && *final(self) == *old(self),
                None => match r {
                    Ok(stored) => f.ensures((k,), Ok(*stored)) && final(self)@ == old(self)@.store(
                        k@,
                        *stored,
                    ),
                    Err(e) => f.ensures((k,), Err(e)) && *final(self) == *old(self),
                },
            },
            r matches Ok(held) ==> final(self)@.lookup(k@) == Some(*held),
    {
        if let Some(i) = self.get_key_index(k) {
            proof {
                self@.lemma_find(k@);
            }
            Ok(self.buffer[i].get_value().unwrap())
        } else {
            match f(k) {
                Ok(v) => {
                    proof {
                        self@.lemma_store_lookup(k@, v);
                    }
                    Ok(self.replace_and_shift(k.duplicate(), v))
                },
                Err(e) => Err(e),
            }
        }
    }

    /// Empties every slot and puts the cursor back at the first.
    pub fn clear(&mut self)
        ensures
            final(self).wf(),
            final(self)@ == CacheModel::<K::V, V>::empty(SIZE as nat),
            forall|key: K::V| final(self)@.lookup(key) is None,
    {
        let mut i: usize = 0;
        while i < SIZE
            invariant
                i <= SIZE,
                forall|j: int| 0 <= j < i ==> self.buffer@[j] is Empty,
            decreases SIZE - i,
        {
            self.buffer[i] = KeyValueSlot::Empty;
            i += 1;
        }
        self.cursor = 0;
        proof {
            assert(self@.slots =~= CacheModel::<K::V, V>::empty(SIZE as nat).slots);
            assert forall|key: K::V| self@.lookup(key) is None by {
                CacheModel::<K::V, V>::lemma_empty_holds_nothing(SIZE as nat, key);
            }
        }
    }
}

impl<K, V, const SIZE: usize> Default for MemoCache<K, V, SIZE> where K: Key {
    /// The same as [`MemoCache::new`]: a cache in which every slot is vacant.
    fn default() -> (cache: Self)
        ensures
            cache.wf(),
            cache@ == CacheModel::<K::V, V>::empty(SIZE as nat),
            forall|key: K::V| cache@.lookup(key) is None,
    {
        Self::new()
    }
}

} // verus!
