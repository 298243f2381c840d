use scoped_futures::future::{Future, Op};
use scoped_futures::join::{Join, JoinExt};
use scoped_futures::val::{Poll, Val};
use scoped_futures::wake::{dummy_guard, WakeSystem};

#[test]
fn join_counters() {
    let mut sys = WakeSystem::new();
    let f1 = Op::Counter { remaining: 4, value: 4, self_wake: true };
    let f2 = Op::Counter { remaining: 5, value: 5, self_wake: true };
    let children = vec![f1, f2];
    let mut join = Op::Join(children.join(&mut sys));
    let guard = dummy_guard(&mut sys);
    for _ in 0..4 {
        assert_eq!(join.poll(&mut sys, &guard), Poll::Pending);
    }
    assert_eq!(
        join.poll(&mut sys, &guard),
        Poll::Ready(Val::List(vec![Val::Int(4), Val::Int(5)]))
    );
}

#[test]
fn join_never_wake() {
    let mut sys = WakeSystem::new();
    let f1 = Op::Counter { remaining: 1, value: 0, self_wake: false };
    let f2 = Op::Never;
    let children = vec![f1, f2];
    let mut join = Op::Join(children.join(&mut sys));
    let guard = dummy_guard(&mut sys);
    for _ in 0..10 {
        assert_eq!(join.poll(&mut sys, &guard), Poll::Pending);
    }
}

#[test]
fn immediate() {
    let mut sys = WakeSystem::new();
    let f1 = Op::Counter { remaining: 1, value: 1, self_wake: false };
    let f2 = Op::Counter { remaining: 1, value: 2, self_wake: false };
    let mut join = Op::Join(f1.along_with(f2, &mut sys));
    let guard = dummy_guard(&mut sys);
    assert_eq!(
        join.poll(&mut sys, &guard),
        Poll::Ready(Val::List(vec![Val::Int(1), Val::Int(2)]))
    );
}

/// Children completing in reverse declaration order still yield their
/// outputs in declaration order.
#[test]
fn output_order_is_declaration_order() {
    let mut sys = WakeSystem::new();
    // slot 1 completes on the first poll, slot 0 only on the third
    let f1 = Op::Counter { remaining: 3, value: 10, self_wake: true };
    let f2 = Op::Counter { remaining: 1, value: 20, self_wake: true };
    let children = vec![f1, f2];
    let mut join = Op::Join(children.join(&mut sys));
    let guard = dummy_guard(&mut sys);
    assert_eq!(join.poll(&mut sys, &guard), Poll::Pending);
    assert_eq!(join.poll(&mut sys, &guard), Poll::Pending);
    assert_eq!(
        join.poll(&mut sys, &guard),
        Poll::Ready(Val::List(vec![Val::Int(10), Val::Int(20)]))
    );
}

#[test]
fn three_way_join() {
    let mut sys = WakeSystem::new();
    let children = vec![
        Op::Counter { remaining: 1, value: 1, self_wake: false },
        Op::Counter { remaining: 2, value: 2, self_wake: true },
        Op::Counter { remaining: 3, value: 3, self_wake: true },
    ];
    let mut join = Op::Join(children.join(&mut sys));
    let guard = dummy_guard(&mut sys);
    assert_eq!(join.poll(&mut sys, &guard), Poll::Pending);
    assert_eq!(join.poll(&mut sys, &guard), Poll::Pending);
    assert_eq!(
        join.poll(&mut sys, &guard),
        Poll::Ready(Val::List(vec![Val::Int(1), Val::Int(2), Val::Int(3)]))
    );
}

/// A slot is polled only when its cell was woken since the last check: a
/// non-waking counter is visited on the first poll (cells start ready) and
/// never again, so it can never reach its target.
#[test]
fn never_polled_without_a_wake() {
    let mut sys = WakeSystem::new();
    let f1 = Op::Counter { remaining: 2, value: 9, self_wake: false };
    let f2 = Op::Counter { remaining: 1, value: 1, self_wake: false };
    let children = vec![f1, f2];
    let mut join = Op::Join(children.join(&mut sys));
    let guard = dummy_guard(&mut sys);
    for _ in 0..10 {
        assert_eq!(join.poll(&mut sys, &guard), Poll::Pending);
    }
}

/// A single-slot join yields a one-element list.
#[test]
fn single_slot_join() {
    let mut sys = WakeSystem::new();
    let children = vec![Op::Counter { remaining: 1, value: 6, self_wake: false }];
    let mut join = Op::Join(children.join(&mut sys));
    let guard = dummy_guard(&mut sys);
    assert_eq!(join.poll(&mut sys, &guard), Poll::Ready(Val::List(vec![Val::Int(6)])));
}

/// A join nested inside a join: wake notifications bubble through the inner
/// combinator's wake bank to the root.
#[test]
fn nested_join() {
    let mut sys = WakeSystem::new();
    let inner_children = vec![
        Op::Counter { remaining: 2, value: 1, self_wake: true },
        Op::Counter { remaining: 1, value: 2, self_wake: false },
    ];
    let inner = Op::Join(inner_children.join(&mut sys));
    let outer_children = vec![inner, Op::Counter { remaining: 1, value: 3, self_wake: false }];
    let mut outer = Op::Join(outer_children.join(&mut sys));
    let guard = dummy_guard(&mut sys);
    assert_eq!(outer.poll(&mut sys, &guard), Poll::Pending);
    let expected = Val::List(vec![Val::List(vec![Val::Int(1), Val::Int(2)]), Val::Int(3)]);
    assert_eq!(outer.poll(&mut sys, &guard), Poll::Ready(expected));
}
