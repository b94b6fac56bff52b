//! A single storage cell of the cache.

use crate::keys::Equivalent;
use vstd::prelude::*;

verus! {

/// A single key/value slot: either vacant or holding one key with its value.
#[derive(PartialEq)]
pub enum KeyValueSlot<K, V> {
    Used(K, V),
    Empty,
}

impl<K: View, V> KeyValueSlot<K, V> {
    /// The slot as an entry of the cache's model: the key by its view, with
    /// the value.
    pub open spec fn entry(self) -> Option<(K::V, V)> {
        match self {
            KeyValueSlot::Used(k, v) => Some((k@, v)),
            KeyValueSlot::Empty => None,
        }
    }

    /// Returns `true` if the slot is in use and its key is equivalent to `k`.
    pub fn is_key<Q>(&self, k: &Q) -> (r: bool) where Q: Equivalent<K> + ?Sized
        ensures
            r == (self.entry() matches Some(e) && e.0 == k@),
    {
        if let KeyValueSlot::Used(key, _) = self {
            k.equivalent(key)
        } else {
            false
        }
    }
}

impl<K, V> KeyValueSlot<K, V> {
    /// The value held by the slot, if it is in use.
    pub fn get_value(&self) -> (r: Option<&V>)
        ensures
            match *self {
                KeyValueSlot::Used(_, v) => r == Some(&v),
                KeyValueSlot::Empty => r is None,
            },
    {
        if let KeyValueSlot::Used(_, v) = self {
            Some(v)
        } else {
            None
        }
    }

    /// The value held by the slot, for mutation, if the slot is in use.
    pub fn get_value_mut(&mut self) -> (r: Option<&mut V>)
        ensures
            match r {
                Some(v) => *old(self) matches KeyValueSlot::Used(k, v0) && *v == v0
                    && *final(self) == KeyValueSlot::Used(k, *final(v)),
                None => *old(self) is Empty && *final(self) is Empty,
            },
    {
        if let KeyValueSlot::Used(_, v) = self {
            Some(v)
        } else {
            None
        }
    }

    /// Replaces the value of a slot in use; a vacant slot stays vacant.
    pub fn update_value(&mut self, v: V)
        ensures
            *final(self) == match *old(self) {
                KeyValueSlot::Used(k, _) => KeyValueSlot::Used(k, v),
                KeyValueSlot::Empty => KeyValueSlot::Empty,
            },
    {
        if let KeyValueSlot::Used(_, held) = self {
            *held = v
        }
    }

    /// A vacant slot.
    pub fn vacant() -> (r: Self)
        ensures
            r is Empty,
    {
        KeyValueSlot::Empty
    }
}

/// Builds an array of vacant slots with `core::array::from_fn`, which fills
/// position `i` of the new array with what the closure returns for `i`. The
/// closure returns a vacant slot for every index, so every position is vacant.
#[verifier::external_body]
pub(crate) fn vacant_slots<K, V, const SIZE: usize>() -> (slots: [KeyValueSlot<K, V>; SIZE])
    ensures
        forall|i: int| 0 <= i < SIZE ==> slots@[i] is Empty,
{
    core::array::from_fn(|_| KeyValueSlot::vacant())
}

} // verus!
