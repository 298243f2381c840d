use scoped_futures::future::{Future, Op};
use scoped_futures::join::Join;
use scoped_futures::race::{Race, RaceExt};
use scoped_futures::val::{Poll, Val};
use scoped_futures::wake::{dummy_guard, WakeSystem};

#[test]
fn race_counters() {
    let mut sys = WakeSystem::new();
    let f1 = Op::Counter { remaining: 4, value: 4, self_wake: true };
    let f2 = Op::Counter { remaining: 2, value: 2, self_wake: true };
    let children = vec![f1, f2];
    let mut race = Op::Race(children.race(&mut sys));
    let guard = dummy_guard(&mut sys);
    assert_eq!(race.poll(&mut sys, &guard), Poll::Pending);
    assert_eq!(
        race.poll(&mut sys, &guard),
        Poll::Ready(Val::Tagged(1, Box::new(Val::Int(2))))
    );
}

#[test]
fn race_never_wake() {
    let mut sys = WakeSystem::new();
    let children = vec![Op::Never, Op::Never];
    let mut race = Op::Race(children.race(&mut sys));
    let guard = dummy_guard(&mut sys);
    for _ in 0..10 {
        assert_eq!(race.poll(&mut sys, &guard), Poll::Pending);
    }
}

#[test]
fn race_basic() {
    let mut sys = WakeSystem::new();
    let f1 = Op::Counter { remaining: 1, value: 1, self_wake: false };
    let f2 = Op::Counter { remaining: 1, value: 2, self_wake: false };
    let mut race = Op::Race(f1.race_with(f2, &mut sys));
    let guard = dummy_guard(&mut sys);
    assert_eq!(
        race.poll(&mut sys, &guard),
        Poll::Ready(Val::Tagged(0, Box::new(Val::Int(1))))
    );
}

/// When two slots become ready within the same poll call, the lowest
/// declaration index wins.
#[test]
fn simultaneous_ready_lowest_index_wins() {
    let mut sys = WakeSystem::new();
    let f1 = Op::Counter { remaining: 2, value: 1, self_wake: true };
    let f2 = Op::Counter { remaining: 2, value: 2, self_wake: true };
    let children = vec![f1, f2];
    let mut race = Op::Race(children.race(&mut sys));
    let guard = dummy_guard(&mut sys);
    assert_eq!(race.poll(&mut sys, &guard), Poll::Pending);
    assert_eq!(
        race.poll(&mut sys, &guard),
        Poll::Ready(Val::Tagged(0, Box::new(Val::Int(1))))
    );
}

/// One slot never signals readiness; the other self-wakes and completes on
/// its second poll, winning the race.
#[test]
fn silent_loser() {
    let mut sys = WakeSystem::new();
    let children = vec![Op::Never, Op::Counter { remaining: 2, value: 2, self_wake: true }];
    let mut race = Op::Race(children.race(&mut sys));
    let guard = dummy_guard(&mut sys);
    assert_eq!(race.poll(&mut sys, &guard), Poll::Pending);
    assert_eq!(
        race.poll(&mut sys, &guard),
        Poll::Ready(Val::Tagged(1, Box::new(Val::Int(2))))
    );
}

/// A race over no children never completes.
#[test]
fn empty_race_stays_pending() {
    let mut sys = WakeSystem::new();
    let children: Vec<Op> = vec![];
    let mut race = Op::Race(children.race(&mut sys));
    let guard = dummy_guard(&mut sys);
    for _ in 0..3 {
        assert_eq!(race.poll(&mut sys, &guard), Poll::Pending);
    }
}

/// A single-slot race completes with its only child, tagged with index zero.
#[test]
fn single_slot_race() {
    let mut sys = WakeSystem::new();
    let children = vec![Op::Counter { remaining: 1, value: 8, self_wake: false }];
    let mut race = Op::Race(children.race(&mut sys));
    let guard = dummy_guard(&mut sys);
    assert_eq!(
        race.poll(&mut sys, &guard),
        Poll::Ready(Val::Tagged(0, Box::new(Val::Int(8))))
    );
}

/// A race nested inside a join, mixing the combinators.
#[test]
fn race_inside_join() {
    let mut sys = WakeSystem::new();
    let race_children = vec![Op::Never, Op::Counter { remaining: 2, value: 9, self_wake: true }];
    let inner = Op::Race(race_children.race(&mut sys));
    let join_children = vec![inner, Op::Counter { remaining: 1, value: 5, self_wake: false }];
    let mut outer = Op::Join(join_children.join(&mut sys));
    let guard = dummy_guard(&mut sys);
    assert_eq!(outer.poll(&mut sys, &guard), Poll::Pending);
    let expected = Val::List(vec![Val::Tagged(1, Box::new(Val::Int(9))), Val::Int(5)]);
    assert_eq!(outer.poll(&mut sys, &guard), Poll::Ready(expected));
}
