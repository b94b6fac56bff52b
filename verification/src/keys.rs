//! What the cache asks of its keys, and of the values it is searched with.

use vstd::prelude::*;

verus! {

/// A type whose values can be stored as keys.
///
/// Two keys are the same key exactly when their views are equal. A cache
/// never holds the same key in two slots.
pub trait Key: View + Sized {
    /// Returns `true` if `self` and `other` are the same key.
    fn same_key(&self, other: &Self) -> (r: bool)
        ensures
            r == (self@ == other@),
    ;

    /// Returns a copy of the key, to be stored.
    fn duplicate(&self) -> (copy: Self)
        ensures
            copy@ == self@,
    ;
}

/// A type whose values can be compared with stored keys of type `K`.
///
/// A query and a key are equivalent exactly when their views are equal, so a
/// cache can be searched through a lighter form of its key type, such as a
/// string slice where the keys are owned strings.
pub trait Equivalent<K: View + ?Sized>: View<V = K::V> {
    /// Returns `true` if the query and the key are equivalent.
    fn equivalent(&self, k: &K) -> (r: bool)
        ensures
            r == (self@ == k@),
    ;
}

/// Every key is a query for keys of its own type.
impl<K: Key> Equivalent<K> for K {
    fn equivalent(&self, k: &K) -> (r: bool) {
        self.same_key(k)
    }
}

/// The `==` of string slices, `<str as PartialEq>::eq`, compares the bytes of
/// the two slices: it returns `true` exactly when both hold the same
/// characters. This is assumed of the standard library, not proved.
pub assume_specification[ <str as PartialEq>::eq ](a: &str, b: &str) -> (r: bool)
    ensures
        r == (a@ == b@),
;

impl Key for String {
    fn same_key(&self, other: &String) -> (r: bool) {
        self.eq(other)
    }

    fn duplicate(&self) -> (copy: String) {
        self.clone()
    }
}

impl<'a> Key for &'a str {
    fn same_key(&self, other: &&'a str) -> (r: bool) {
        let a: &str = *self;
        a.eq(*other)
    }

    fn duplicate(&self) -> (copy: &'a str) {
        *self
    }
}

/// An owned string key is found by a string slice with the same characters.
impl Equivalent<String> for str {
    fn equivalent(&self, k: &String) -> (r: bool) {
        self.eq(k.as_str())
    }
}

/// A borrowed string key is found by a string slice with the same characters.
impl<'a> Equivalent<&'a str> for str {
    fn equivalent(&self, k: &&'a str) -> (r: bool) {
        self.eq(*k)
    }
}

impl Key for bool {
    fn same_key(&self, other: &bool) -> (r: bool) {
        *self == *other
    }

    fn duplicate(&self) -> (copy: bool) {
        *self
    }
}

impl Key for char {
    fn same_key(&self, other: &char) -> (r: bool) {
        *self == *other
    }

    fn duplicate(&self) -> (copy: char) {
        *self
    }
}

impl Key for u8 {
    fn same_key(&self, other: &u8) -> (r: bool) {
        *self == *other
    }

    fn duplicate(&self) -> (copy: u8) {
        *self
    }
}

impl Key for u16 {
    fn same_key(&self, other: &u16) -> (r: bool) {
        *self == *other
    }

    fn duplicate(&self) -> (copy: u16) {
        *self
    }
}

impl Key for u32 {
    fn same_key(&self, other: &u32) -> (r: bool) {
        *self == *other
    }

    fn duplicate(&self) -> (copy: u32) {
        *self
    }
}

impl Key for u64 {
    fn same_key(&self, other: &u64) -> (r: bool) {
        *self == *other
    }

    fn duplicate(&self) -> (copy: u64) {
        *self
    }
}

impl Key for u128 {
    fn same_key(&self, other: &u128) -> (r: bool) {
        *self == *other
    }

    fn duplicate(&self) -> (copy: u128) {
        *self
    }
}

impl Key for usize {
    fn same_key(&self, other: &usize) -> (r: bool) {
        *self == *other
    }

    fn duplicate(&self) -> (copy: usize) {
        *self
    }
}

impl Key for i8 {
    fn same_key(&self, other: &i8) -> (r: bool) {
        *self == *other
    }

    fn duplicate(&self) -> (copy: i8) {
        *self
    }
}

impl Key for i16 {
    fn same_key(&self, other: &i16) -> (r: bool) {
        *self == *other
    }

    fn duplicate(&self) -> (copy: i16) {
        *self
    }
}

impl Key for i32 {
    fn same_key(&self, other: &i32) -> (r: bool) {
        *self == *other
    }

    fn duplicate(&self) -> (copy: i32) {
        *self
    }
}

impl Key for i64 {
    fn same_key(&self, other: &i64) -> (r: bool) {
        *self == *other
    }

    fn duplicate(&self) -> (copy: i64) {
        *self
    }
}

impl Key for i128 {
    fn same_key(&self, other: &i128) -> (r: bool) {
        *self == *other
    }

    fn duplicate(&self) -> (copy: i128) {
        *self
    }
}

impl Key for isize {
    fn same_key(&self, other: &isize) -> (r: bool) {
        *self == *other
    }

    fn duplicate(&self) -> (copy: isize) {
        *self
    }
}

} // verus!
