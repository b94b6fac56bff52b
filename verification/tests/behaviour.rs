use memo_cache::{Equivalent, Key, KeyValueSlot, MemoCache};

#[test]
fn distinct_insertions_up_to_capacity_are_all_retrievable() {
    let mut c = MemoCache::<u32, u64, 5>::new();
    for k in 0..5u32 {
        c.insert(k, u64::from(k) * 10 + 1);
    }
    for k in 0..5u32 {
        assert_eq!(c.get(&k), Some(&(u64::from(k) * 10 + 1)));
        assert!(c.contains_key(&k));
    }
    assert_eq!(c.cursor(), 0);
}

#[test]
fn fewer_insertions_than_slots_leave_the_rest_vacant() {
    let mut c = MemoCache::<u8, char, 4>::new();
    c.insert(7, 'a');
    c.insert(9, 'b');
    assert_eq!(c.cursor(), 2);
    assert!(c.slots()[0] == KeyValueSlot::Used(7, 'a'));
    assert!(c.slots()[1] == KeyValueSlot::Used(9, 'b'));
    assert!(c.slots()[2] == KeyValueSlot::Empty);
    assert!(c.slots()[3] == KeyValueSlot::Empty);
}

#[test]
fn fresh_cache_holds_no_key() {
    let c = MemoCache::<i64, i64, 6>::new();
    assert_eq!(c.capacity(), 6);
    assert_eq!(c.cursor(), 0);
    for k in -20..20i64 {
        assert_eq!(c.get(&k), None);
        assert!(!c.contains_key(&k));
        assert_eq!(c.get_key_index(&k), None);
    }
}

#[test]
fn default_is_a_fresh_cache() {
    let c: MemoCache<u16, u16, 3> = Default::default();
    assert_eq!(c.capacity(), 3);
    assert_eq!(c.cursor(), 0);
    assert!(c.slots().iter().all(|s| s == &KeyValueSlot::Empty));
}

#[test]
fn repeated_insertion_is_idempotent() {
    let mut c = MemoCache::<&str, i32, 3>::new();
    c.insert("a", 1);
    c.insert("b", 2);
    let cursor = c.cursor();
    for _ in 0..10 {
        c.insert("b", 2);
        assert_eq!(c.cursor(), cursor);
        assert_eq!(c.get("b"), Some(&2));
        assert_eq!(c.get("a"), Some(&1));
    }
    // The next new key still takes the third slot, so nothing is evicted.
    c.insert("c", 3);
    assert_eq!(c.get("a"), Some(&1));
    assert_eq!(c.get("b"), Some(&2));
    assert_eq!(c.get("c"), Some(&3));
}

#[test]
fn update_in_place_evicts_nothing() {
    let mut c = MemoCache::<u32, &str, 2>::new();
    c.insert(1, "one");
    c.insert(2, "two");
    assert_eq!(c.cursor(), 0);
    c.insert(1, "uno");
    assert_eq!(c.cursor(), 0);
    assert_eq!(c.get(&1), Some(&"uno"));
    assert_eq!(c.get(&2), Some(&"two"));
    assert_eq!(c.get_key_index(&1), Some(0));
    assert_eq!(c.get_key_index(&2), Some(1));
}

#[test]
fn one_insertion_too_many_evicts_the_first() {
    let mut c = MemoCache::<u32, u32, 4>::new();
    for k in 0..5u32 {
        c.insert(k, k + 100);
    }
    assert_eq!(c.get(&0), None);
    for k in 1..5u32 {
        assert_eq!(c.get(&k), Some(&(k + 100)));
    }
    assert_eq!(c.cursor(), 1);
    assert_eq!(c.get_key_index(&4), Some(0));
}

#[test]
fn updates_do_not_move_a_key_back_in_the_queue() {
    let mut c = MemoCache::<String, i32, 2>::new();
    c.insert("John".to_owned(), 17);
    c.insert("Doe".to_owned(), 19);
    c.insert("John".to_owned(), 17);
    c.insert("John".to_owned(), 42);
    assert_eq!(c.get("John"), Some(&42));
    assert_eq!(c.get("Doe"), Some(&19));
    // "John" was inserted first, so the next new key replaces it.
    c.insert("Amy".to_owned(), 5);
    assert_eq!(c.get("John"), None);
    assert_eq!(c.get("Doe"), Some(&19));
    assert_eq!(c.get("Amy"), Some(&5));
}

#[test]
fn reads_do_not_protect_a_key() {
    let mut c = MemoCache::<u8, u8, 2>::new();
    c.insert(1, 1);
    c.insert(2, 2);
    for _ in 0..5 {
        assert_eq!(c.get(&1), Some(&1));
    }
    c.insert(3, 3);
    assert_eq!(c.get(&1), None);
    assert_eq!(c.get(&2), Some(&2));
}

#[test]
fn clear_empties_and_keeps_capacity() {
    let mut c = MemoCache::<u32, u32, 3>::new();
    c.insert(1, 10);
    c.insert(2, 20);
    c.clear();
    assert_eq!(c.capacity(), 3);
    assert_eq!(c.cursor(), 0);
    assert_eq!(c.get(&1), None);
    assert_eq!(c.get(&2), None);
    assert!(c.slots().iter().all(|s| s == &KeyValueSlot::Empty));
    c.insert(3, 30);
    assert_eq!(c.get_key_index(&3), Some(0));
}

#[test]
fn capacity_one_keeps_only_the_latest_key() {
    let mut c = MemoCache::<u32, u32, 1>::new();
    c.insert(1, 10);
    assert_eq!(c.cursor(), 0);
    assert_eq!(c.get(&1), Some(&10));
    c.insert(1, 11);
    assert_eq!(c.get(&1), Some(&11));
    c.insert(2, 20);
    assert_eq!(c.get(&1), None);
    assert_eq!(c.get(&2), Some(&20));
}

#[test]
fn capacity_zero_is_always_empty() {
    let c = MemoCache::<u32, u32, 0>::new();
    assert_eq!(c.capacity(), 0);
    assert_eq!(c.get(&1), None);
    assert!(!c.contains_key(&1));
}

#[test]
fn get_mut_changes_only_the_value_found() {
    let mut c = MemoCache::<u32, i32, 3>::new();
    c.insert(1, 10);
    c.insert(2, 20);
    *c.get_mut(&2).unwrap() += 5;
    assert_eq!(c.get(&1), Some(&10));
    assert_eq!(c.get(&2), Some(&25));
    assert_eq!(c.cursor(), 2);
    assert_eq!(c.get_mut(&3), None);
}

#[test]
fn get_or_insert_with_calls_back_once_on_a_miss_and_never_on_a_hit() {
    let mut calls = 0;
    let mut c = MemoCache::<u32, u32, 2>::new();
    assert_eq!(
        *c.get_or_insert_with(&4, |k| {
            calls += 1;
            *k * 2
        }),
        8
    );
    assert_eq!(calls, 1);
    assert_eq!(c.cursor(), 1);
    assert_eq!(
        *c.get_or_insert_with(&4, |k| {
            calls += 1;
            *k * 3
        }),
        8
    );
    assert_eq!(calls, 1);
    assert_eq!(c.cursor(), 1);
    assert_eq!(c.get(&4), Some(&8));
}

#[test]
fn get_or_insert_with_evicts_first_in_first_out() {
    let mut c = MemoCache::<u32, u32, 2>::new();
    c.get_or_insert_with(&1, |k| *k + 1);
    c.get_or_insert_with(&2, |k| *k + 1);
    c.get_or_insert_with(&3, |k| *k + 1);
    assert_eq!(c.get(&1), None);
    assert_eq!(c.get(&2), Some(&3));
    assert_eq!(c.get(&3), Some(&4));
}

#[test]
fn get_or_try_insert_with_leaves_the_cache_alone_on_failure() {
    let mut c = MemoCache::<u32, u32, 2>::new();
    c.insert(1, 10);
    let r: Result<&u32, String> = c.get_or_try_insert_with(&2, |_| Err("no value".to_owned()));
    assert_eq!(r, Err("no value".to_owned()));
    assert_eq!(c.cursor(), 1);
    assert_eq!(c.get(&1), Some(&10));
    assert_eq!(c.get(&2), None);
    assert!(c.slots()[1] == KeyValueSlot::Empty);

    let r: Result<&u32, String> = c.get_or_try_insert_with(&2, |k| Ok(*k * 10));
    assert_eq!(r, Ok(&20));
    assert_eq!(c.cursor(), 0);
    assert_eq!(c.get(&2), Some(&20));

    let r: Result<&u32, String> = c.get_or_try_insert_with(&1, |_| Err("not called".to_owned()));
    assert_eq!(r, Ok(&10));
}

#[test]
fn string_slices_match_by_their_characters() {
    let mut c = MemoCache::<String, u8, 3>::new();
    c.insert("hello".to_owned(), 1);
    assert!(c.contains_key("hello"));
    assert!(!c.contains_key("hellp"));
    assert!(!c.contains_key("hell"));
    assert!(!c.contains_key(""));
    assert!(c.contains_key(&"hello".to_owned()));
    assert!(!c.contains_key(&"Hello".to_owned()));

    let mut b = MemoCache::<&str, u8, 3>::new();
    b.insert("veni", 1);
    b.insert("vidi", 2);
    assert_eq!(b.get("vidi"), Some(&2));
    assert_eq!(b.get("vici"), None);
    assert_eq!(b.get(&"veni"), Some(&1));
}

#[test]
fn keys_compare_and_duplicate_by_value() {
    assert!(5u64.same_key(&5));
    assert!(!5u64.same_key(&6));
    assert_eq!(5u64.duplicate(), 5);
    assert!('x'.same_key(&'x'));
    assert!(!true.same_key(&false));
    assert!((-3i8).equivalent(&-3));
    let s = "abc".to_owned();
    assert!(s.same_key(&"abc".to_owned()));
    assert!(!s.same_key(&"abd".to_owned()));
    assert_eq!(s.duplicate(), "abc");
    assert!("abc".same_key(&"abc"));
    assert!(!"abc".same_key(&"ab"));
    assert_eq!("abc".duplicate(), "abc");
    assert!("abc".equivalent(&s));
    assert!(!"abx".equivalent(&s));
}

#[test]
fn slot_operations() {
    let mut s = KeyValueSlot::Used(3u32, 30u32);
    assert!(s.is_key(&3u32));
    assert!(!s.is_key(&4u32));
    assert_eq!(s.get_value(), Some(&30));
    *s.get_value_mut().unwrap() = 31;
    assert_eq!(s.get_value(), Some(&31));
    s.update_value(32);
    assert!(s == KeyValueSlot::Used(3, 32));

    let mut e: KeyValueSlot<u32, u32> = KeyValueSlot::vacant();
    assert!(e == KeyValueSlot::Empty);
    assert!(!e.is_key(&3u32));
    assert_eq!(e.get_value(), None);
    assert_eq!(e.get_value_mut(), None);
    e.update_value(1);
    assert!(e == KeyValueSlot::Empty);
}

#[test]
fn new_keys_fill_from_the_cursor_round_the_end() {
    let mut c = MemoCache::<u32, u32, 4>::new();
    c.insert(1, 10);
    c.insert(2, 20);
    c.insert(3, 30);
    assert_eq!(c.cursor(), 3);
    // Four keys that the cache does not hold: as many as there are slots.
    for k in 11..15u32 {
        c.insert(k, k * 2);
    }
    for k in 11..15u32 {
        assert_eq!(c.get(&k), Some(&(k * 2)));
    }
    for k in 1..4u32 {
        assert_eq!(c.get(&k), None);
    }
    assert_eq!(c.cursor(), 3);
    assert_eq!(c.get_key_index(&11), Some(3));
    assert_eq!(c.get_key_index(&12), Some(0));
    assert_eq!(c.get_key_index(&14), Some(2));
}

#[test]
fn a_key_that_was_held_may_be_evicted_by_the_next_new_key() {
    let mut c = MemoCache::<char, u8, 2>::new();
    c.insert('a', 1);
    c.insert('b', 2);
    // 'a' is held, so this is an update; 'a' is still the oldest key.
    c.insert('a', 3);
    c.insert('c', 4);
    assert_eq!(c.get(&'a'), None);
    assert_eq!(c.get(&'b'), Some(&2));
    assert_eq!(c.get(&'c'), Some(&4));
}
