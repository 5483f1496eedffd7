use evmap::{CounterAddOp, WriteHandle};

#[test]
fn append_test() {
    let mut w = WriteHandle::new(0i32, 0i32);
    assert_eq!(w.is_first_phase(), true);
    w.append(CounterAddOp(1));
    assert_eq!(w.oplog_len(), 0);
    assert_eq!(w.is_first_phase(), true);
    w.publish();
    assert_eq!(w.is_first_phase(), false);
    w.append(CounterAddOp(2));
    w.append(CounterAddOp(3));
    assert_eq!(w.oplog_len(), 2);
}

#[test]
fn flush_noblock() {
    let mut w = WriteHandle::new(0i32, 0i32);
    let r = w.register_reader();
    w.append(CounterAddOp(42));
    w.publish();
    assert!(w.enter(r));
    assert_eq!(*w.read(), 42);
    assert!(w.exit(r));

    // pin the epoch
    assert!(w.enter(r));
    // a publish would have to wait here
    assert_eq!(w.pending_operations(), 0);
    assert!(!w.has_pending_operations());
}

#[test]
fn flush_no_refresh() {
    let mut w = WriteHandle::new(0i32, 0i32);

    // Until we refresh, writes are written directly instead of going to the
    // oplog (because there can't be any readers on the w_handle table).
    assert!(!w.has_pending_operations());
    w.publish();
    assert!(!w.has_pending_operations());
    assert_eq!(w.refreshes(), 1);

    w.append(CounterAddOp(42));
    assert!(w.has_pending_operations());
    w.publish();
    assert!(!w.has_pending_operations());
    assert_eq!(w.refreshes(), 2);

    w.append(CounterAddOp(42));
    assert!(w.has_pending_operations());
    w.publish();
    assert!(!w.has_pending_operations());
    assert_eq!(w.refreshes(), 3);

    // a refresh would have been visible
    assert!(!w.has_pending_operations());
    w.publish();
    assert_eq!(w.refreshes(), 4);
}

#[test]
fn first_phase_writes_go_to_the_write_copy() {
    let mut w = WriteHandle::new(0i32, 0i32);
    w.append(CounterAddOp(5));
    w.append(CounterAddOp(6));
    assert_eq!(*w.raw_write_handle(), 11);
    assert_eq!(*w.read(), 0);
    assert!(!w.has_pending_operations());
    w.publish();
    assert_eq!(*w.read(), 11);
}

#[test]
fn both_copies_converge() {
    let mut w = WriteHandle::new(0i32, 0i32);
    w.publish();
    w.append(CounterAddOp(1));
    w.publish();
    assert_eq!(*w.read(), 1);
    w.append(CounterAddOp(2));
    w.publish();
    assert_eq!(*w.read(), 3);
    // the write copy has caught up with every operation but the last
    assert_eq!(*w.raw_write_handle(), 1);
    w.append(CounterAddOp(4));
    w.publish();
    assert_eq!(*w.read(), 7);
    assert_eq!(*w.raw_write_handle(), 3);
}

#[test]
fn extend_appends_in_order() {
    let mut w = WriteHandle::new(0i32, 0i32);
    w.publish();
    w.extend(vec![CounterAddOp(1), CounterAddOp(2), CounterAddOp(3)]);
    assert_eq!(w.pending_operations(), 3);
    assert_eq!(*w.read(), 0);
    w.publish();
    assert_eq!(*w.read(), 6);
}

#[test]
fn counter_wraps_on_overflow() {
    let mut w = WriteHandle::new(i32::MAX, i32::MAX);
    w.append(CounterAddOp(1));
    w.publish();
    assert_eq!(*w.read(), i32::MIN);
}

#[test]
fn flush_publishes_only_pending_work() {
    let mut w = WriteHandle::new(0i32, 0i32);
    w.publish();
    w.flush();
    assert_eq!(w.refreshes(), 1);
    w.append(CounterAddOp(9));
    w.flush();
    assert_eq!(w.refreshes(), 2);
    assert_eq!(*w.read(), 9);
}

#[test]
fn pinned_reader_blocks_publish_until_it_leaves() {
    let mut w = WriteHandle::new(0i32, 0i32);
    let r = w.register_reader();
    w.append(CounterAddOp(1));
    w.publish();
    assert!(w.enter(r));
    // the reader entered after the swap, so it reads the new copy
    w.append(CounterAddOp(2));
    assert_eq!(w.try_publish(), Ok(()));
    // now it may still be reading the copy the writer works on
    w.append(CounterAddOp(3));
    assert_eq!(w.try_publish(), Err(r));
    assert_eq!(*w.read(), 3);
    assert!(w.exit(r));
    assert_eq!(w.try_publish(), Ok(()));
    assert_eq!(*w.read(), 6);
}

#[test]
fn idle_readers_never_block() {
    let mut w = WriteHandle::new(0i32, 0i32);
    let a = w.register_reader();
    let b = w.register_reader();
    assert_ne!(a, b);
    assert!(w.enter(a));
    assert!(w.exit(a));
    w.publish();
    assert_eq!(w.blocking_reader(), None);
    assert_eq!(w.try_publish(), Ok(()));
    assert!(w.deregister_reader(b));
    assert!(!w.deregister_reader(b));
    assert!(!w.enter(b));
}

#[test]
fn enter_and_exit_need_the_right_parity() {
    let mut w = WriteHandle::new(0i32, 0i32);
    let r = w.register_reader();
    assert!(!w.exit(r));
    assert!(w.enter(r));
    assert!(!w.enter(r));
    assert!(w.exit(r));
    assert!(!w.exit(r));
}

#[test]
fn close_brings_both_copies_up_to_date() {
    let mut w = WriteHandle::new(0i32, 0i32);
    let r = w.register_reader();
    w.publish();
    w.append(CounterAddOp(2));
    w.publish();
    w.append(CounterAddOp(5));
    assert!(w.enter(r));
    assert!(w.exit(r));
    let (write_copy, read_copy) = w.close();
    assert_eq!(write_copy, 7);
    assert_eq!(read_copy, 7);
}

#[test]
fn close_before_any_publish() {
    let mut w = WriteHandle::new(1i32, 1i32);
    w.append(CounterAddOp(1));
    assert_eq!(w.close(), (2, 2));
}

#[test]
fn flush_twice_changes_nothing_the_second_time() {
    let mut w = WriteHandle::new(0i32, 0i32);
    w.publish();
    w.append(CounterAddOp(3));
    w.flush();
    assert_eq!(w.refreshes(), 2);
    w.flush();
    assert_eq!(w.refreshes(), 2);
    assert_eq!(*w.read(), 3);
    assert_eq!(*w.raw_write_handle(), 0);
}

#[test]
fn publish_swaps_the_copies() {
    let mut w = WriteHandle::new(0i32, 0i32);
    w.append(CounterAddOp(4));
    w.publish();
    w.append(CounterAddOp(1));
    let before_read = *w.read();
    w.publish();
    assert_eq!(*w.raw_write_handle(), before_read);
    assert_eq!(*w.read(), 5);
    assert_eq!(w.oplog_len(), 1);
}
