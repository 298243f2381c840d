use scoped_futures::atomic_guard::{AtomicGuardSpace, AtomicRefGuard, AtomicValueGuard};

#[test]
fn atomic_guard_basic() {
    let mut space: AtomicGuardSpace<i32> = AtomicGuardSpace::new();
    let weak = AtomicRefGuard::new(&mut space);
    let strong = AtomicValueGuard::new(&mut space, 2);
    weak.register(&mut space, &strong);

    assert_eq!(strong.get(&space), 2);
    assert_eq!(weak.get(&space), Some(2));

    strong.set(&mut space, 3);
    assert_eq!(strong.get(&space), 3);
    assert_eq!(weak.get(&space), Some(3));

    strong.destroy(&mut space);
    assert_eq!(weak.get(&space), None);
}

#[test]
fn atomic_guard_multiple_registrations() {
    let mut space: AtomicGuardSpace<i32> = AtomicGuardSpace::new();
    let weak1 = AtomicRefGuard::new(&mut space);
    let weak2 = AtomicRefGuard::new(&mut space);
    let strong = AtomicValueGuard::new(&mut space, 2);
    weak1.register(&mut space, &strong);

    assert_eq!(strong.get(&space), 2);
    assert_eq!(weak1.get(&space), Some(2));

    strong.set(&mut space, 3);
    assert_eq!(strong.get(&space), 3);
    assert_eq!(weak1.get(&space), Some(3));

    weak2.register(&mut space, &strong);
    assert_eq!(weak1.get(&space), None);

    assert_eq!(strong.get(&space), 3);
    assert_eq!(weak2.get(&space), Some(3));

    strong.set(&mut space, 4);
    assert_eq!(strong.get(&space), 4);
    assert_eq!(weak2.get(&space), Some(4));

    strong.destroy(&mut space);
    assert_eq!(weak1.get(&space), None);
    assert_eq!(weak2.get(&space), None);
}

#[test]
fn atomic_guard_safe_leak() {
    let mut space: AtomicGuardSpace<i32> = AtomicGuardSpace::new();
    let strong = AtomicValueGuard::new(&mut space, 10);
    let weak = AtomicRefGuard::new(&mut space);
    weak.register(&mut space, &strong);

    std::mem::forget(strong);

    assert_eq!(weak.get(&space), Some(10));
}
