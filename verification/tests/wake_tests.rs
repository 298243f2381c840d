use scoped_futures::future::{block_on, Op};
use scoped_futures::join::Join;
use scoped_futures::val::{Poll, Val};
use scoped_futures::wake::{dummy_guard, WakeArray, WakeStore, WakeSystem};

#[test]
fn store_starts_ready() {
    let mut store = WakeStore::new();
    assert!(store.take_woken());
    assert!(!store.take_woken());
}

#[test]
fn store_set_parent_keeps_flag() {
    let mut sys = WakeSystem::new();
    let r = sys.new_ref();
    let mut store = WakeStore::new();
    store.set_parent(&r);
    assert!(store.take_woken());
}

/// Waking a child cell whose bank has a registered parent also marks the
/// parent's cell ready: the notification is forwarded one fan-in level.
#[test]
fn wake_forwards_to_parent() {
    let mut sys = WakeSystem::new();
    let parent_cell = sys.new_store();
    let parent_handle = sys.new_waker(Some(parent_cell));
    let bank = WakeArray::new(&mut sys, 1);
    bank.register_parent(&mut sys, &parent_handle);
    let _child_handle = bank.child_guard_ptr(&mut sys, 0);

    // clear both flags, then wake the child
    let mut st = sys.stores[parent_cell];
    st.take_woken();
    sys.stores[parent_cell] = st;
    assert_eq!(bank.take_woken(&mut sys, 0), Some(true));

    let child_cell = bank.cells[0];
    sys.wake(child_cell);

    assert!(sys.stores[child_cell].ready);
    assert!(sys.stores[parent_cell].ready);
}

/// Two fan-in levels: a wake on the innermost cell reaches the root cell.
#[test]
fn wake_bubbles_two_levels() {
    let mut sys = WakeSystem::new();
    let root_cell = sys.new_store();
    let root_handle = sys.new_waker(Some(root_cell));

    let outer = WakeArray::new(&mut sys, 1);
    outer.register_parent(&mut sys, &root_handle);
    let inner = WakeArray::new(&mut sys, 1);
    let outer_child = outer.child_guard_ptr(&mut sys, 0).unwrap();
    inner.register_parent(&mut sys, outer_child);
    let _ = inner.child_guard_ptr(&mut sys, 0);

    // clear every flag on the path
    for cell in [root_cell, outer.cells[0], inner.cells[0]] {
        let mut st = sys.stores[cell];
        st.take_woken();
        sys.stores[cell] = st;
    }

    sys.wake(inner.cells[0]);
    assert!(sys.stores[inner.cells[0]].ready);
    assert!(sys.stores[outer.cells[0]].ready);
    assert!(sys.stores[root_cell].ready);
}

/// A wake through a handle whose value cell holds no target is a safe no-op.
#[test]
fn local_wake_through_empty_handle() {
    let mut sys = WakeSystem::new();
    let cell = sys.new_store();
    let handle = dummy_guard(&mut sys);
    let mut st = sys.stores[cell];
    st.take_woken();
    sys.stores[cell] = st;
    sys.local_wake(&handle);
    assert!(!sys.stores[cell].ready);
}

/// Destroying the wake handle's value cell invalidates the bank's parent
/// link: a wake still marks the child but no longer reaches the parent.
#[test]
fn wake_after_parent_handle_destroyed() {
    let mut sys = WakeSystem::new();
    let parent_cell = sys.new_store();
    let parent_handle = sys.new_waker(Some(parent_cell));
    let bank = WakeArray::new(&mut sys, 1);
    bank.register_parent(&mut sys, &parent_handle);
    let _ = bank.child_guard_ptr(&mut sys, 0);

    for cell in [parent_cell, bank.cells[0]] {
        let mut st = sys.stores[cell];
        st.take_woken();
        sys.stores[cell] = st;
    }

    parent_handle.destroy(&mut sys.guards);

    sys.wake(bank.cells[0]);
    assert!(sys.stores[bank.cells[0]].ready);
    assert!(!sys.stores[parent_cell].ready);
}

#[test]
fn array_out_of_bounds_index() {
    let mut sys = WakeSystem::new();
    let bank = WakeArray::new(&mut sys, 2);
    assert!(bank.child_guard_ptr(&mut sys, 2).is_none());
    assert_eq!(bank.take_woken(&mut sys, 2), None);
    assert!(bank.child_guard_ptr(&mut sys, 1).is_some());
}

#[test]
fn block_on_runs_to_completion() {
    let mut sys = WakeSystem::new();
    let children = vec![
        Op::Counter { remaining: 3, value: 30, self_wake: true },
        Op::Counter { remaining: 1, value: 40, self_wake: false },
    ];
    let join = Op::Join(children.join(&mut sys));
    let (_, out) = block_on(join, &mut sys, 100);
    assert_eq!(out, Some(Val::List(vec![Val::Int(30), Val::Int(40)])));
}

#[test]
fn block_on_fuel_exhausted() {
    let mut sys = WakeSystem::new();
    let (op, out) = block_on(Op::Never, &mut sys, 10);
    assert_eq!(out, None);
    assert!(matches!(op, Op::Never));
}

#[test]
fn poll_enum_equality() {
    assert_eq!(Poll::<Val>::Pending, Poll::Pending);
    assert_ne!(Poll::Ready(Val::Int(1)), Poll::Ready(Val::Int(2)));
    let a = Val::List(vec![Val::Int(1), Val::Tagged(0, Box::new(Val::Int(2)))]);
    let b = Val::List(vec![Val::Int(1), Val::Tagged(0, Box::new(Val::Int(2)))]);
    assert!(a.eq_val(&b));
    let c = Val::List(vec![Val::Int(1)]);
    assert!(!a.eq_val(&c));
    assert!(!Val::Int(3).eq_val(&Val::Tagged(3, Box::new(Val::Int(3)))));
}
