use evmap::{new, with_hasher, with_meta, CopyValue, MapWriteHandle, Options, ShallowCopy};
use std::collections::hash_map::RandomState;

type Pred = fn(&i32, bool) -> bool;

fn fresh() -> (MapWriteHandle<&'static str, i32, (), RandomState, Pred>, usize) {
    new::<&'static str, i32, Pred>()
}

fn bag_len(w: &MapWriteHandle<&'static str, i32, (), RandomState, Pred>, k: &'static str) -> Option<usize> {
    w.get(&k).map(|b| b.len())
}

#[test]
fn two_keys_published() {
    let (mut w, _r) = fresh();
    w.insert("a", 1);
    w.insert("b", 2);
    assert_eq!(w.len(), 0);
    w.publish();
    assert_eq!(w.len(), 2);
    assert_eq!(bag_len(&w, "a"), Some(1));
}

#[test]
fn remove_one_of_two_values() {
    let (mut w, _r) = fresh();
    w.insert("a", 1);
    w.insert("a", 2);
    w.publish();
    assert_eq!(bag_len(&w, "a"), Some(2));
    w.remove_value("a", 1);
    w.publish();
    assert_eq!(bag_len(&w, "a"), Some(1));
    assert!(w.get(&"a").unwrap().contains(&2));
    assert!(!w.get(&"a").unwrap().contains(&1));
}

#[test]
fn remove_entry_then_publish() {
    let (mut w, _r) = fresh();
    w.insert("a", 1);
    w.publish();
    w.remove_entry("a");
    w.publish();
    assert!(w.get(&"a").is_none());
    assert_eq!(w.len(), 0);
    assert!(w.is_empty());
}

#[test]
fn pinned_reader_delays_removal() {
    let (mut w, r) = fresh();
    w.insert("a", 1);
    w.publish();
    assert!(w.enter(r));
    w.remove_entry("a");
    w.publish();
    // the reader, still inside its read, may be on the copy the writer works on next
    w.insert("b", 2);
    assert_eq!(w.try_publish(), Err(r));
    assert!(w.exit(r));
    assert_eq!(w.try_publish(), Ok(()));
    assert!(w.enter(r));
    assert!(!w.contains_key(&"a"));
    assert!(w.contains_key(&"b"));
    assert!(w.exit(r));
}

#[test]
fn writes_are_invisible_until_publish() {
    let (mut w, _r) = fresh();
    w.insert("a", 1);
    w.publish();
    w.insert("a", 2);
    w.insert("c", 3);
    w.remove_entry("a");
    assert_eq!(bag_len(&w, "a"), Some(1));
    assert!(!w.contains_key(&"c"));
    w.publish();
    assert_eq!(bag_len(&w, "a"), None);
    assert!(w.contains_key(&"c"));
}

#[test]
fn map_is_not_ready_before_first_publish() {
    let (mut w, _r) = fresh();
    w.insert("a", 1);
    assert!(w.get(&"a").is_none());
    assert!(w.meta_get().is_none());
    w.publish();
    assert!(w.meta_get().is_some());
}

#[test]
fn inserted_keys_are_all_present() {
    let (mut w, _r) = new::<u32, (), fn(&(), bool) -> bool>();
    let keys: Vec<u32> = vec![5, 1, 5, 9, 0, 4_000_000_000];
    for &k in &keys {
        w.insert(k, ());
    }
    w.publish();
    for k in &keys {
        assert!(w.get(k).is_some());
    }
    assert_eq!(w.len(), 5);
    assert_eq!(w.get(&5).map(|b| b.len()), Some(2));
}

#[test]
fn keys_not_inserted_are_absent() {
    let (mut w, _r) = new::<u8, (), fn(&(), bool) -> bool>();
    for k in [1u8, 2, 3] {
        w.insert(k, ());
    }
    w.publish();
    for k in [0u8, 4, 255] {
        assert!(w.get(&k).is_none());
    }
}

#[test]
fn insert_then_remove_leaves_the_difference() {
    let (mut w, _r) = new::<u8, (), fn(&(), bool) -> bool>();
    for k in [1u8, 2, 3, 4] {
        w.insert(k, ());
    }
    w.publish();
    for k in [2u8, 4, 7] {
        w.remove_value(k, ());
    }
    for k in [2u8, 4, 7] {
        w.remove_entry(k);
    }
    w.publish();
    assert_eq!(w.len(), 2);
    assert!(w.contains_key(&1));
    assert!(w.contains_key(&3));
    assert!(!w.contains_key(&2));
    assert!(!w.contains_key(&7));
}

#[test]
fn bag_counts_repeated_values() {
    let (mut w, _r) = fresh();
    w.insert("k", 7);
    w.insert("k", 7);
    w.publish();
    assert_eq!(bag_len(&w, "k"), Some(2));
    w.remove_value("k", 7);
    w.publish();
    assert_eq!(bag_len(&w, "k"), Some(1));
    w.remove_value("k", 7);
    w.publish();
    assert_eq!(bag_len(&w, "k"), Some(0));
    assert!(w.contains_key(&"k"));
    w.remove_value("k", 7);
    w.publish();
    assert_eq!(bag_len(&w, "k"), Some(0));
}

#[test]
fn removing_from_absent_key_is_a_no_op() {
    let (mut w, _r) = fresh();
    w.remove_value("x", 1);
    w.clear("x");
    w.retain("x", keep_even);
    w.publish();
    assert_eq!(w.len(), 0);
}

#[test]
fn update_replaces_the_bag() {
    let (mut w, _r) = fresh();
    w.insert("a", 1);
    w.insert("a", 2);
    w.update("a", 3);
    w.update("b", 4);
    w.publish();
    assert_eq!(bag_len(&w, "a"), Some(1));
    assert!(w.get(&"a").unwrap().contains(&3));
    assert!(w.get(&"b").unwrap().contains(&4));
}

#[test]
fn clear_and_purge_keep_keys() {
    let (mut w, _r) = fresh();
    w.insert("a", 1);
    w.insert("a", 2);
    w.insert("b", 3);
    w.publish();
    w.clear("a");
    w.publish();
    assert_eq!(bag_len(&w, "a"), Some(0));
    assert_eq!(bag_len(&w, "b"), Some(1));
    w.purge();
    w.publish();
    assert_eq!(w.len(), 2);
    assert_eq!(bag_len(&w, "b"), Some(0));
    // the other copy catches up too
    w.insert("c", 4);
    w.publish();
    assert_eq!(bag_len(&w, "a"), Some(0));
    assert_eq!(bag_len(&w, "b"), Some(0));
}

fn keep_even(v: &i32, _first: bool) -> bool {
    v % 2 == 0
}

#[test]
fn retain_keeps_accepted_values_in_both_copies() {
    let (mut w, _r) = fresh();
    w.publish();
    for v in 1..=6 {
        w.insert("a", v);
    }
    w.publish();
    w.retain("a", keep_even);
    w.publish();
    assert_eq!(bag_len(&w, "a"), Some(3));
    assert!(!w.get(&"a").unwrap().contains(&1));
    assert!(w.get(&"a").unwrap().contains(&4));
    w.insert("a", 8);
    w.publish();
    assert_eq!(bag_len(&w, "a"), Some(4));
    assert!(!w.get(&"a").unwrap().contains(&3));
}

#[test]
fn reserve_creates_an_empty_bag_and_fit_changes_nothing() {
    let (mut w, _r) = fresh();
    w.reserve("r", 16);
    w.insert("a", 1);
    w.fit("a");
    w.fit_all();
    w.publish();
    assert_eq!(bag_len(&w, "r"), Some(0));
    assert_eq!(bag_len(&w, "a"), Some(1));
    w.reserve("a", 4);
    w.publish();
    assert_eq!(bag_len(&w, "a"), Some(1));
}

#[test]
fn meta_is_published_with_the_map() {
    let (mut w, _r) = with_meta::<&'static str, i32, u64, Pred>(7);
    w.publish();
    assert_eq!(w.meta_get(), Some(&7));
    w.set_meta(8);
    assert_eq!(w.meta_get(), Some(&7));
    w.publish();
    assert_eq!(w.meta_get(), Some(&8));
}

#[test]
fn with_hasher_builds_an_empty_map() {
    let (mut w, _r) =
        with_hasher::<&'static str, i32, u8, RandomState, Pred>(1, RandomState::new());
    assert_eq!(w.len(), 0);
    w.insert("z", 26);
    w.publish();
    assert_eq!(w.len(), 1);
    assert_eq!(w.meta_get(), Some(&1));
}

#[test]
fn options_builder_sets_meta_and_capacity() {
    let opts = Options::default().with_capacity(32).with_meta(5u32);
    let (mut w, r) = opts.construct::<u64, u64, fn(&u64, bool) -> bool>();
    assert!(w.enter(r));
    assert!(w.exit(r));
    w.insert(1, 10);
    w.publish();
    assert_eq!(w.meta_get(), Some(&5));
    assert_eq!(w.get(&1).map(|b| b.len()), Some(1));
}

#[test]
fn copy_values_are_copied() {
    let (mut w, _r) = new::<u8, CopyValue<u32>, fn(&CopyValue<u32>, bool) -> bool>();
    let v = CopyValue::from(11u32);
    assert_eq!(v.shallow_copy(), v);
    assert_eq!(v.get(), 11);
    w.insert(1, v);
    w.publish();
    assert!(w.get(&1).unwrap().contains(&CopyValue::from(11)));
}

#[test]
fn readers_see_all_writes_or_none() {
    let (mut w, r) = new::<u32, bool, fn(&bool, bool) -> bool>();
    let seen_before = w.len();
    for k in 0..4u32 {
        w.insert(k, true);
        assert_eq!(w.len(), seen_before);
    }
    w.publish();
    assert!(w.enter(r));
    assert_eq!(w.len(), 4);
    assert!(w.exit(r));
    assert_eq!(seen_before, 0);
}

#[test]
fn writers_taking_turns_behind_a_mutex() {
    let (w, _r) = new::<u32, bool, fn(&bool, bool) -> bool>();
    let shared = std::sync::Mutex::new(w);
    for i in 0..4u32 {
        let mut guard = shared.lock().unwrap();
        guard.insert(i, true);
        guard.publish();
    }
    assert_eq!(shared.lock().unwrap().len(), 4);
}

#[test]
fn get_one_returns_a_stored_value() {
    let (mut w, _r) = fresh();
    w.insert("a", 42);
    w.publish();
    assert_eq!(w.get(&"a").unwrap().get_one(), Some(&42));
    w.clear("a");
    w.publish();
    assert_eq!(w.get(&"a").unwrap().get_one(), None);
}

#[test]
fn both_copies_keep_the_chosen_hasher() {
    let (mut w, _r) = with_hasher::<u8, u8, (), u64, fn(&u8, bool) -> bool>((), 77);
    assert_eq!(*w.read().hasher(), 77);
    assert_eq!(*w.raw_write_handle().hasher(), 77);
    w.insert(1, 1);
    w.publish();
    w.insert(2, 2);
    w.publish();
    assert_eq!(*w.read().hasher(), 77);
    assert_eq!(*w.raw_write_handle().hasher(), 77);
}

#[test]
fn options_hasher_is_kept_by_later_builders() {
    let opts = Options::default().with_hasher(9u16).with_capacity(3).with_meta('m');
    let (w, _r) = opts.construct::<u8, u8, fn(&u8, bool) -> bool>();
    assert_eq!(*w.read().hasher(), 9);
    assert_eq!(*w.read().meta(), 'm');
}
