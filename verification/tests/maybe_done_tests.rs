use scoped_futures::future::Op;
use scoped_futures::maybe_done::{maybe_done, poll_maybe_done, MaybeDoneState};
use scoped_futures::val::{Poll, Val};
use scoped_futures::wake::{dummy_guard, WakeSystem};

#[test]
fn immediate_return() {
    let mut sys = WakeSystem::new();
    let immediate = Op::Counter { remaining: 1, value: 1, self_wake: false };
    let future = maybe_done(immediate);
    let wake = dummy_guard(&mut sys);
    match future.get_state() {
        MaybeDoneState::Future(_) => {},
        MaybeDoneState::Done(_) | MaybeDoneState::Gone => {
            panic!("should be MaybeDoneState::Future")
        },
    }
    let (mut future, r) = poll_maybe_done(future, &mut sys, &wake);
    assert_eq!(r, Poll::Ready(()));
    match future.get_state() {
        MaybeDoneState::Done(_) => {},
        MaybeDoneState::Future(_) | MaybeDoneState::Gone => {
            panic!("should be MaybeDoneState::Done")
        },
    }
    assert_eq!(future.take_output(), Some(Val::Int(1)));
    assert_eq!(future.take_output(), None);
}

#[test]
fn normal() {
    let mut sys = WakeSystem::new();
    let poll = Op::Counter { remaining: 4, value: 4, self_wake: true };
    let mut future = maybe_done(poll);
    let noop = dummy_guard(&mut sys);
    for _ in 0..3 {
        let (f2, r) = poll_maybe_done(future, &mut sys, &noop);
        future = f2;
        assert_eq!(r, Poll::Pending);
        assert_eq!(future.take_output(), None);
    }
    let (f2, r) = poll_maybe_done(future, &mut sys, &noop);
    future = f2;
    assert_eq!(r, Poll::Ready(()));
    let (f2, r) = poll_maybe_done(future, &mut sys, &noop);
    future = f2;
    assert_eq!(r, Poll::Ready(()));
    assert_eq!(future.take_output(), Some(Val::Int(4)));
}

/// Polling a completed wrapper is an idempotent no-op: every further poll
/// returns `Ready(())`, the memoized output stays available, and the wake
/// system is untouched (the inner operation is never polled again).
#[test]
fn idempotent_after_done() {
    let mut sys = WakeSystem::new();
    let op = Op::Counter { remaining: 2, value: 7, self_wake: true };
    let mut future = maybe_done(op);
    let wake = dummy_guard(&mut sys);
    let (f2, r) = poll_maybe_done(future, &mut sys, &wake);
    future = f2;
    assert_eq!(r, Poll::Pending);
    let (f2, r) = poll_maybe_done(future, &mut sys, &wake);
    future = f2;
    assert_eq!(r, Poll::Ready(()));
    let flags_before: Vec<bool> = sys.stores.iter().map(|s| s.ready).collect();
    for _ in 0..5 {
        let (f2, r) = poll_maybe_done(future, &mut sys, &wake);
        future = f2;
        assert_eq!(r, Poll::Ready(()));
    }
    let flags_after: Vec<bool> = sys.stores.iter().map(|s| s.ready).collect();
    // no wake was issued: the inner self-waking counter was never re-polled
    assert_eq!(flags_before, flags_after);
    assert_eq!(future.take_output(), Some(Val::Int(7)));
}

#[test]
fn is_done_tracks_state() {
    let mut sys = WakeSystem::new();
    let op = Op::Counter { remaining: 1, value: 0, self_wake: false };
    let future = maybe_done(op);
    assert!(!future.is_done());
    assert!(!future.is_gone());
    let wake = dummy_guard(&mut sys);
    let (mut future, _) = poll_maybe_done(future, &mut sys, &wake);
    assert!(future.is_done());
    assert!(!future.is_gone());
    assert_eq!(future.take_output(), Some(Val::Int(0)));
    assert!(future.is_done());
    assert!(future.is_gone());
}
