//! The thread-safe guard pair variant.
//!
//! Same contract as [`crate::guard`], but every operation that touches a
//! link or a stored value runs inside a global critical section
//! (`critical_section::with`), preserving the single-writer/single-reader
//! contract when wakes arrive from other execution contexts.  The critical
//! section only serializes the operation; what each operation does is the
//! verified guard-space operation it wraps, so each wrapper restates that
//! operation's full contract, frame clauses included.

use vstd::prelude::*;

use crate::guard::{GuardSpace, RefGuard, ValueGuard};

verus! {

/// A guard space whose link operations are performed under mutual exclusion.
pub struct AtomicGuardSpace<T> {
    pub inner: GuardSpace<T>,
}

/// Handle naming one value cell of an [`AtomicGuardSpace`].
#[derive(Debug)]
pub struct AtomicValueGuard {
    pub id: usize,
}

/// Handle naming one reference handle of an [`AtomicGuardSpace`].
#[derive(Debug)]
pub struct AtomicRefGuard {
    pub id: usize,
}

impl<T> AtomicGuardSpace<T> {
    /// Creates an empty space.
    pub fn new() -> (space: AtomicGuardSpace<T>)
        ensures
            space.inner.wf(),
            space.inner.val_count() == 0,
            space.inner.ref_count() == 0,
    {
        AtomicGuardSpace { inner: GuardSpace::new() }
    }
}

/// Relies on `critical_section::with`: it runs the closure exactly once,
/// inside a global critical section, and returns the closure's result.  The
/// closure only calls the verified [`ValueGuard::set`], whose contract this
/// wrapper restates.
#[verifier::external_body]
fn locked_set<T>(space: &mut GuardSpace<T>, id: usize, value: T)
    requires
        old(space).wf(),
        old(space).val_alive(id),
    ensures
        final(space).wf(),
        final(space).values@ == old(space).values@.update(id as int, Some(value)),
        final(space).val_links@ == old(space).val_links@,
        final(space).refs@ == old(space).refs@,
{
    critical_section::with(|_cs| ValueGuard { id }.set(space, value))
}

/// Relies on `critical_section::with` as [`locked_set`]; the closure only
/// calls the verified [`ValueGuard::get`], whose contract this wrapper
/// restates.
#[verifier::external_body]
fn locked_get<T: Copy>(space: &GuardSpace<T>, id: usize) -> (r: T)
    requires
        space.wf(),
        space.val_alive(id),
    ensures
        r == space.val_value(id),
{
    critical_section::with(|_cs| ValueGuard { id }.get(space))
}

/// Relies on `critical_section::with` as [`locked_set`]; the closure only
/// calls the verified [`RefGuard::register`], whose contract this wrapper
/// restates.
#[verifier::external_body]
fn locked_register<T>(space: &mut GuardSpace<T>, ref_id: usize, val_id: usize)
    requires
        old(space).wf(),
        old(space).ref_alive(ref_id),
        old(space).val_alive(val_id),
    ensures
        final(space).wf(),
        final(space).val_count() == old(space).val_count(),
        final(space).ref_count() == old(space).ref_count(),
        final(space).ref_link(ref_id) == Some(val_id),
        final(space).val_link(val_id) == Some(ref_id),
        final(space).values@ == old(space).values@,
        forall|r: usize|
            r < old(space).ref_count() ==> final(space).refs@[r as int].alive == old(
                space,
            ).refs@[r as int].alive,
        old(space).val_link(val_id) matches Some(r0) ==> r0 == ref_id || (final(space).ref_link(
            r0,
        ) is None && final(space).read_of(r0) is None),
        final(space).read_of(ref_id) == Some(old(space).val_value(val_id)),
        old(space).ref_link(ref_id) matches Some(v0) ==> v0 == val_id || final(space).val_link(
            v0,
        ) is None,
        forall|r: usize|
            r < old(space).ref_count() && r != ref_id && Some(r) != old(space).val_link(val_id)
                ==> final(space).refs@[r as int] == old(space).refs@[r as int],
        forall|v: usize|
            v < old(space).val_count() && v != val_id && Some(v) != old(space).ref_link(ref_id)
                ==> final(space).val_links@[v as int] == old(space).val_links@[v as int],
{
    critical_section::with(|_cs| RefGuard { id: ref_id }.register(space, &ValueGuard { id: val_id }))
}

/// Relies on `critical_section::with` as [`locked_set`]; the closure only
/// calls the verified [`RefGuard::get`], whose contract this wrapper
/// restates.
#[verifier::external_body]
fn locked_read<T: Copy>(space: &GuardSpace<T>, id: usize) -> (r: Option<T>)
    requires
        space.wf(),
        space.ref_alive(id),
    ensures
        r == space.read_of(id),
{
    critical_section::with(|_cs| RefGuard { id }.get(space))
}

/// Relies on `critical_section::with` as [`locked_set`]; the closure only
/// calls the verified [`ValueGuard::destroy`], whose contract this wrapper
/// restates.
#[verifier::external_body]
fn locked_destroy_value<T>(space: &mut GuardSpace<T>, id: usize)
    requires
        old(space).wf(),
        old(space).val_alive(id),
    ensures
        final(space).wf(),
        final(space).val_count() == old(space).val_count(),
        final(space).ref_count() == old(space).ref_count(),
        !final(space).val_alive(id),
        final(space).val_link(id) is None,
        forall|v: usize|
            v < old(space).val_count() && v != id ==> (#[trigger] final(space).values@[v as int])
                == old(space).values@[v as int],
        forall|v: usize|
            v < old(space).val_count() && v != id ==> (#[trigger] final(space).val_links@[
                v as int
            ]) == old(space).val_links@[v as int],
        forall|r: usize|
            r < old(space).ref_count() ==> final(space).refs@[r as int].alive == old(
                space,
            ).refs@[r as int].alive,
        forall|r: usize|
            r < old(space).ref_count() && old(space).ref_link(r) != Some(id) ==> final(space).refs@[r as int] == old(space).refs@[r as int],
        old(space).val_link(id) matches Some(r0) ==> final(space).ref_link(r0) is None && final(space).read_of(r0) is None,
{
    critical_section::with(|_cs| ValueGuard { id }.destroy(space))
}

/// Relies on `critical_section::with` as [`locked_set`]; the closure only
/// calls the verified [`RefGuard::destroy`], whose contract this wrapper
/// restates.
#[verifier::external_body]
fn locked_destroy_ref<T>(space: &mut GuardSpace<T>, id: usize)
    requires
        old(space).wf(),
        old(space).ref_alive(id),
    ensures
        final(space).wf(),
        final(space).val_count() == old(space).val_count(),
        final(space).ref_count() == old(space).ref_count(),
        !final(space).ref_alive(id),
        final(space).values@ == old(space).values@,
        forall|r: usize|
            r < old(space).ref_count() && r != id ==> final(space).refs@[r as int] == old(
                space,
            ).refs@[r as int],
        forall|v: usize|
            v < old(space).val_count() && Some(v) != old(space).ref_link(id) ==> final(space).val_links@[v as int] == old(space).val_links@[v as int],
        old(space).ref_link(id) matches Some(v0) ==> final(space).val_link(v0) is None,
{
    critical_section::with(|_cs| RefGuard { id }.destroy(space))
}

impl AtomicValueGuard {
    /// Creates a new, unlinked value cell containing `data`.  Creation needs
    /// no critical section: the fresh cell is not yet shared.
    pub fn new<T>(space: &mut AtomicGuardSpace<T>, data: T) -> (g: AtomicValueGuard)
        requires
            old(space).inner.wf(),
        ensures
            final(space).inner.wf(),
            g.id == old(space).inner.val_count(),
            final(space).inner.values@ == old(space).inner.values@.push(Some(data)),
            final(space).inner.val_links@ == old(space).inner.val_links@.push(None::<usize>),
            final(space).inner.refs@ == old(space).inner.refs@,
    {
        let g = ValueGuard::new(&mut space.inner, data);
        AtomicValueGuard { id: g.id }
    }

    /// Sets the stored value, under mutual exclusion.
    pub fn set<T>(&self, space: &mut AtomicGuardSpace<T>, value: T)
        requires
            old(space).inner.wf(),
            old(space).inner.val_alive(self.id),
        ensures
            final(space).inner.wf(),
            final(space).inner.values@ == old(space).inner.values@.update(
                self.id as int,
                Some(value),
            ),
            final(space).inner.val_links@ == old(space).inner.val_links@,
            final(space).inner.refs@ == old(space).inner.refs@,
    {
        locked_set(&mut space.inner, self.id, value)
    }

    /// Gets a copy of the stored value, under mutual exclusion.
    pub fn get<T: Copy>(&self, space: &AtomicGuardSpace<T>) -> (r: T)
        requires
            space.inner.wf(),
            space.inner.val_alive(self.id),
        ensures
            r == space.inner.val_value(self.id),
    {
        locked_get(&space.inner, self.id)
    }

    /// Destroys the cell under mutual exclusion: a previously-linked
    /// reference handle reads `None` afterwards, and every other slot is
    /// untouched.
    pub fn destroy<T>(self, space: &mut AtomicGuardSpace<T>)
        requires
            old(space).inner.wf(),
            old(space).inner.val_alive(self.id),
        ensures
            final(space).inner.wf(),
            final(space).inner.val_count() == old(space).inner.val_count(),
            final(space).inner.ref_count() == old(space).inner.ref_count(),
            !final(space).inner.val_alive(self.id),
            final(space).inner.val_link(self.id) is None,
            forall|v: usize|
                v < old(space).inner.val_count() && v != self.id ==> (
                #[trigger] final(space).inner.values@[v as int]) == old(space).inner.values@[
                    v as int
                ],
            forall|v: usize|
                v < old(space).inner.val_count() && v != self.id ==> (
                #[trigger] final(space).inner.val_links@[v as int]) == old(
                    space,
                ).inner.val_links@[v as int],
            forall|r: usize|
                r < old(space).inner.ref_count() ==> final(space).inner.refs@[r as int].alive
                    == old(space).inner.refs@[r as int].alive,
            forall|r: usize|
                r < old(space).inner.ref_count() && old(space).inner.ref_link(r) != Some(self.id)
                    ==> final(space).inner.refs@[r as int] == old(space).inner.refs@[r as int],
            old(space).inner.val_link(self.id) matches Some(r0) ==> final(space).inner.ref_link(
                r0,
            ) is None && final(space).inner.read_of(r0) is None,
    {
        locked_destroy_value(&mut space.inner, self.id)
    }
}

impl AtomicRefGuard {
    /// Creates a new reference handle with no link to a value cell.
    pub fn new<T>(space: &mut AtomicGuardSpace<T>) -> (g: AtomicRefGuard)
        requires
            old(space).inner.wf(),
        ensures
            final(space).inner.wf(),
            g.id == old(space).inner.ref_count(),
            final(space).inner.refs@ == old(space).inner.refs@.push(
                crate::guard::RefSlot { alive: true, linked_value: None },
            ),
            final(space).inner.values@ == old(space).inner.values@,
            final(space).inner.val_links@ == old(space).inner.val_links@,
    {
        let g = RefGuard::new(&mut space.inner);
        AtomicRefGuard { id: g.id }
    }

    /// Binds a value cell to this handle, under mutual exclusion; any
    /// previous registration on either side is invalidated first, and every
    /// uninvolved slot is untouched.
    pub fn register<T>(&self, space: &mut AtomicGuardSpace<T>, value_guard: &AtomicValueGuard)
        requires
            old(space).inner.wf(),
            old(space).inner.ref_alive(self.id),
            old(space).inner.val_alive(value_guard.id),
        ensures
            final(space).inner.wf(),
            final(space).inner.val_count() == old(space).inner.val_count(),
            final(space).inner.ref_count() == old(space).inner.ref_count(),
            final(space).inner.ref_link(self.id) == Some(value_guard.id),
            final(space).inner.val_link(value_guard.id) == Some(self.id),
            final(space).inner.values@ == old(space).inner.values@,
            forall|r: usize|
                r < old(space).inner.ref_count() ==> final(space).inner.refs@[r as int].alive
                    == old(space).inner.refs@[r as int].alive,
            old(space).inner.val_link(value_guard.id) matches Some(r0) ==> r0 == self.id || (final(space).inner.ref_link(r0) is None && final(space).inner.read_of(r0) is None),
            final(space).inner.read_of(self.id) == Some(
                old(space).inner.val_value(value_guard.id),
            ),
            old(space).inner.ref_link(self.id) matches Some(v0) ==> v0 == value_guard.id || final(space).inner.val_link(v0) is None,
            forall|r: usize|
                r < old(space).inner.ref_count() && r != self.id && Some(r) != old(
                    space,
                ).inner.val_link(value_guard.id) ==> final(space).inner.refs@[r as int] == old(
                    space,
                ).inner.refs@[r as int],
            forall|v: usize|
                v < old(space).inner.val_count() && v != value_guard.id && Some(v) != old(
                    space,
                ).inner.ref_link(self.id) ==> final(space).inner.val_links@[v as int] == old(
                    space,
                ).inner.val_links@[v as int],
    {
        locked_register(&mut space.inner, self.id, value_guard.id)
    }

    /// Gets a copy of the linked cell's value, or `None` when the link was
    /// invalidated, under mutual exclusion.
    pub fn get<T: Copy>(&self, space: &AtomicGuardSpace<T>) -> (r: Option<T>)
        requires
            space.inner.wf(),
            space.inner.ref_alive(self.id),
        ensures
            r == space.inner.read_of(self.id),
    {
        locked_read(&space.inner, self.id)
    }

    /// Destroys this handle under mutual exclusion, unlinking its cell; every
    /// other slot is untouched.
    pub fn destroy<T>(self, space: &mut AtomicGuardSpace<T>)
        requires
            old(space).inner.wf(),
            old(space).inner.ref_alive(self.id),
        ensures
            final(space).inner.wf(),
            final(space).inner.val_count() == old(space).inner.val_count(),
            final(space).inner.ref_count() == old(space).inner.ref_count(),
            !final(space).inner.ref_alive(self.id),
            final(space).inner.values@ == old(space).inner.values@,
            forall|r: usize|
                r < old(space).inner.ref_count() && r != self.id ==> final(space).inner.refs@[
                    r as int
                ] == old(space).inner.refs@[r as int],
            forall|v: usize|
                v < old(space).inner.val_count() && Some(v) != old(space).inner.ref_link(self.id)
                    ==> final(space).inner.val_links@[v as int] == old(space).inner.val_links@[
                    v as int
                ],
            old(space).inner.ref_link(self.id) matches Some(v0) ==> final(space).inner.val_link(
                v0,
            ) is None,
    {
        locked_destroy_ref(&mut space.inner, self.id)
    }
}

} // verus!
