use evmap::aliasing::{Aliased, DropBehavior, NoDrop};
use evmap::predicate::Predicate;
use evmap::Values;

fn keep_small(v: &u32, _first: bool) -> bool {
    *v < 10
}

#[test]
fn bag_push_remove_contains() {
    let mut b: Values<u32> = Values::new();
    assert!(b.is_empty());
    b.push(Aliased::from(3));
    b.push(Aliased::from(3));
    b.push(Aliased::from(4));
    assert_eq!(b.len(), 3);
    assert!(b.remove_one(&3));
    assert_eq!(b.len(), 2);
    assert!(b.contains(&3));
    assert!(b.remove_one(&3));
    assert!(!b.contains(&3));
    assert!(!b.remove_one(&3));
    assert_eq!(b.len(), 1);
}

#[test]
fn bag_replace_clear_retain() {
    let mut b: Values<u32> = Values::with_capacity(4);
    for v in [1u32, 20, 3, 40] {
        b.push(Aliased::from(v));
    }
    b.retain(&Predicate(keep_small), true);
    assert_eq!(b.len(), 2);
    assert!(b.contains(&1) && b.contains(&3));
    b.replace(Aliased::from(9));
    assert_eq!(b.len(), 1);
    assert!(b.contains(&9));
    b.reserve(100);
    b.fit();
    assert_eq!(b.len(), 1);
    let c = b.alias_all();
    assert!(c.contains(&9));
    b.clear();
    assert!(b.is_empty());
}

#[test]
fn predicate_eval_calls_the_test() {
    let p = Predicate(keep_small);
    assert!(p.eval(&3, true));
    assert!(!p.eval(&30, false));
}

#[test]
fn drop_tags_and_aliases() {
    assert!(!NoDrop::do_drop());
    let a = Aliased::from(5u64);
    let b = a.alias();
    assert_eq!(*a.get(), 5);
    assert_eq!(*b.get(), 5);
}

#[test]
fn take_one_hands_back_the_removed_alias() {
    let mut b: Values<u32> = Values::new();
    b.push(Aliased::from(8));
    let taken = b.take_one(&8).unwrap();
    assert_eq!(*taken.get(), 8);
    assert!(b.take_one(&8).is_none());
    assert!(b.is_empty());
}
