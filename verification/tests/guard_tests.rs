use scoped_futures::guard::{GuardSpace, RefGuard, ValueGuard};

#[test]
fn guard_basic() {
    let mut space: GuardSpace<i32> = GuardSpace::new();
    let weak = RefGuard::new(&mut space);
    let strong = ValueGuard::new(&mut space, 2);
    weak.register(&mut space, &strong);

    assert_eq!(strong.get(&space), 2);
    assert_eq!(weak.get(&space), Some(2));

    strong.set(&mut space, 3);
    assert_eq!(strong.get(&space), 3);
    assert_eq!(weak.get(&space), Some(3));

    strong.destroy(&mut space);
    assert_eq!(weak.get(&space), None);
}

#[test]
fn guard_multiple_registrations() {
    let mut space: GuardSpace<i32> = GuardSpace::new();
    let weak1 = RefGuard::new(&mut space);
    let weak2 = RefGuard::new(&mut space);
    let strong = ValueGuard::new(&mut space, 2);
    weak1.register(&mut space, &strong);

    assert_eq!(strong.get(&space), 2);
    assert_eq!(weak1.get(&space), Some(2));

    strong.set(&mut space, 3);
    assert_eq!(strong.get(&space), 3);
    assert_eq!(weak1.get(&space), Some(3));

    // register the next handle; this must invalidate the previous one
    weak2.register(&mut space, &strong);
    assert_eq!(weak1.get(&space), None);

    assert_eq!(strong.get(&space), 3);
    assert_eq!(weak2.get(&space), Some(3));

    strong.set(&mut space, 4);
    assert_eq!(strong.get(&space), 4);
    assert_eq!(weak2.get(&space), Some(4));

    strong.destroy(&mut space);
    assert_eq!(weak1.get(&space), None);
    assert_eq!(weak2.get(&space), None);
}

#[test]
fn guard_safe_leak() {
    let mut space: GuardSpace<i32> = GuardSpace::new();
    let strong = ValueGuard::new(&mut space, 10);
    let weak = RefGuard::new(&mut space);
    weak.register(&mut space, &strong);

    // the value cell is never destroyed, so the link stays readable forever
    std::mem::forget(strong);

    assert_eq!(weak.get(&space), Some(10));
}

#[test]
fn ref_destroy_unlinks() {
    let mut space: GuardSpace<i32> = GuardSpace::new();
    let weak = RefGuard::new(&mut space);
    let strong = ValueGuard::new(&mut space, 7);
    weak.register(&mut space, &strong);
    assert_eq!(weak.get(&space), Some(7));
    weak.destroy(&mut space);
    // the value cell survives its reader
    assert_eq!(strong.get(&space), 7);
}

#[test]
fn unlinked_reads_none() {
    let mut space: GuardSpace<u64> = GuardSpace::new();
    let weak = RefGuard::new(&mut space);
    assert_eq!(weak.get(&space), None);
}

#[test]
fn relink_same_pair() {
    let mut space: GuardSpace<i32> = GuardSpace::new();
    let weak = RefGuard::new(&mut space);
    let strong = ValueGuard::new(&mut space, 1);
    weak.register(&mut space, &strong);
    weak.register(&mut space, &strong);
    assert_eq!(weak.get(&space), Some(1));
}
