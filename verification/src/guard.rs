//! The guard pair: a mutual weak-reference primitive.
//!
//! A value cell ([`ValueGuard`]) holds a value and remembers which reference
//! handle ([`RefGuard`]), if any, currently reads through it.  A reference
//! handle remembers which value cell it currently reads through.  The pair
//! behaves like a single `Rc`/`Weak` pair, but needs no heap allocation and
//! no reference count: both sides live as slots in a [`GuardSpace`] and name
//! each other by slot index, so destroying either side (or superseding a
//! registration) nulls the partner's link, and a stale handle reads `None`
//! rather than stale or freed data.
//!
//! A value cell has at most one valid linked reference handle at a time:
//! registering a new reference handle atomically invalidates the previous
//! one ("last registration wins").

use vstd::prelude::*;

verus! {

/// Bookkeeping for one reference handle: whether the handle still exists,
/// and which value cell it currently reads through.
#[derive(Clone, Copy, Debug)]
pub struct RefSlot {
    pub alive: bool,
    pub linked_value: Option<usize>,
}

/// The arena that owns every value cell and reference handle.
///
/// Slots are never reused, so a slot index identifies one cell or handle for
/// the whole life of the space.
pub struct GuardSpace<T> {
    /// Stored values of the value cells; `None` marks a destroyed cell.
    pub values: Vec<Option<T>>,
    /// For each value cell, the reference handle currently registered on it.
    pub val_links: Vec<Option<usize>>,
    /// The reference handles.
    pub refs: Vec<RefSlot>,
}

/// Handle naming one value cell of a [`GuardSpace`].
#[derive(Debug)]
pub struct ValueGuard {
    pub id: usize,
}

/// Handle naming one reference handle of a [`GuardSpace`].
#[derive(Debug)]
pub struct RefGuard {
    pub id: usize,
}

impl<T> GuardSpace<T> {
    pub open spec fn val_count(self) -> nat {
        self.values@.len()
    }

    pub open spec fn ref_count(self) -> nat {
        self.refs@.len()
    }

    /// The value cell `v` exists and has not been destroyed.
    pub open spec fn val_alive(self, v: usize) -> bool {
        &&& v < self.val_count()
        &&& self.values@[v as int] is Some
    }

    /// The reference handle `r` exists and has not been destroyed.
    pub open spec fn ref_alive(self, r: usize) -> bool {
        &&& r < self.ref_count()
        &&& self.refs@[r as int].alive
    }

    /// The reference handle currently registered on value cell `v`.
    pub open spec fn val_link(self, v: usize) -> Option<usize> {
        self.val_links@[v as int]
    }

    /// The value cell that reference handle `r` currently reads through.
    pub open spec fn ref_link(self, r: usize) -> Option<usize> {
        self.refs@[r as int].linked_value
    }

    /// The value stored in value cell `v` (meaningful only while alive).
    pub open spec fn val_value(self, v: usize) -> T {
        self.values@[v as int]->0
    }

    /// Well-formedness: links are mutual, and only between live slots.
    pub open spec fn wf(self) -> bool {
        &&& self.val_links@.len() == self.values@.len()
        &&& forall|v: usize|
            v < self.val_count() && (#[trigger] self.val_links@[v as int]) is Some ==> {
                &&& self.val_alive(v)
                &&& self.ref_alive(self.val_links@[v as int]->0)
                &&& self.refs@[self.val_links@[v as int]->0 as int].linked_value == Some(v)
            }
        &&& forall|r: usize|
            r < self.ref_count() && (#[trigger] self.refs@[r as int]).linked_value is Some ==> {
                &&& self.ref_alive(r)
                &&& self.val_alive(self.refs@[r as int].linked_value->0)
                &&& self.val_links@[self.refs@[r as int].linked_value->0 as int] == Some(r)
            }
    }

    /// What a read through reference handle `r` returns: the linked value
    /// cell's value, or `None` when no link is in force.
    pub open spec fn read_of(self, r: usize) -> Option<T> {
        match self.ref_link(r) {
            Some(v) => Some(self.val_value(v)),
            None => None,
        }
    }

    /// Creates an empty space.
    pub fn new() -> (space: GuardSpace<T>)
        ensures
            space.wf(),
            space.val_count() == 0,
            space.ref_count() == 0,
    {
        GuardSpace { values: Vec::new(), val_links: Vec::new(), refs: Vec::new() }
    }
}

impl ValueGuard {
    /// Creates a new, unlinked value cell containing `data`.
    pub fn new<T>(space: &mut GuardSpace<T>, data: T) -> (g: ValueGuard)
        requires
            old(space).wf(),
        ensures
            final(space).wf(),
            g.id == old(space).val_count(),
            final(space).values@ == old(space).values@.push(Some(data)),
            final(space).val_links@ == old(space).val_links@.push(None::<usize>),
            final(space).refs@ == old(space).refs@,
    {
        let id = space.values.len();
        space.values.push(Some(data));
        space.val_links.push(None);
        ValueGuard { id }
    }

    /// Sets the value stored by this value cell.
    pub fn set<T>(&self, space: &mut GuardSpace<T>, value: T)
        requires
            old(space).wf(),
            old(space).val_alive(self.id),
        ensures
            final(space).wf(),
            final(space).values@ == old(space).values@.update(self.id as int, Some(value)),
            final(space).val_links@ == old(space).val_links@,
            final(space).refs@ == old(space).refs@,
    {
        space.values[self.id] = Some(value);
    }

    /// Gets a copy of the value stored inside this value cell.
    pub fn get<T: Copy>(&self, space: &GuardSpace<T>) -> (r: T)
        requires
            space.wf(),
            space.val_alive(self.id),
        ensures
            r == space.val_value(self.id),
    {
        match &space.values[self.id] {
            Some(x) => *x,
            None => vstd::pervasive::unreached(),
        }
    }

    /// Destroys this value cell: any registered reference handle is unlinked
    /// first, so a later read through it returns `None` instead of reaching
    /// the dead slot.
    pub fn destroy<T>(self, space: &mut GuardSpace<T>)
        requires
            old(space).wf(),
            old(space).val_alive(self.id),
        ensures
            final(space).wf(),
            final(space).val_count() == old(space).val_count(),
            final(space).ref_count() == old(space).ref_count(),
            !final(space).val_alive(self.id),
            final(space).val_link(self.id) is None,
            forall|v: usize|
                v < old(space).val_count() && v != self.id ==> final(space).values@[v as int]
                    == old(space).values@[v as int] && final(space).val_links@[v as int] == old(space).val_links@[v as int],
            forall|r: usize|
                r < old(space).ref_count() ==> final(space).refs@[r as int].alive == old(space).refs@[r as int].alive,
            forall|r: usize|
                r < old(space).ref_count() && old(space).ref_link(r) != Some(self.id) ==> final(space).refs@[r as int] == old(space).refs@[r as int],
            old(space).val_link(self.id) matches Some(r0) ==> final(space).ref_link(r0) is None
                && final(space).read_of(r0) is None,
    {
        let linked = space.val_links[self.id];
        if let Some(r0) = linked {
            space.refs[r0] = RefSlot { alive: true, linked_value: None };
        }
        space.values[self.id] = None;
        space.val_links[self.id] = None;
        proof {
            if old(space).val_links@[self.id as int] is Some {
                let r0 = old(space).val_links@[self.id as int]->0;
                assert(old(space).refs@[r0 as int].linked_value == Some(self.id));
            }
            lemma_wf_after_unlink(*old(space), *space);
        }
    }
}

/// The two states agree on slot liveness and on every surviving link, while
/// some mutually-linked pairs may have been unlinked and some value cells
/// destroyed; that cannot break well-formedness.
proof fn lemma_wf_after_unlink<T>(s0: GuardSpace<T>, s1: GuardSpace<T>)
    requires
        s0.wf(),
        s1.val_count() == s0.val_count(),
        s1.ref_count() == s0.ref_count(),
        s1.val_links@.len() == s1.values@.len(),
        forall|v: usize|
            v < s1.val_count() && (#[trigger] s1.val_links@[v as int]) is Some
                ==> s1.val_links@[v as int] == s0.val_links@[v as int] && s1.values@[v as int]
                == s0.values@[v as int],
        forall|r: usize|
            r < s1.ref_count() && (#[trigger] s1.refs@[r as int]).linked_value is Some
                ==> s1.refs@[r as int] == s0.refs@[r as int],
        forall|v: usize|
            v < s1.val_count() && (#[trigger] s1.val_links@[v as int]) is Some
                ==> s1.refs@[s1.val_links@[v as int]->0 as int] == s0.refs@[s1.val_links@[v as int]->0 as int],
        forall|r: usize|
            r < s1.ref_count() && (#[trigger] s1.refs@[r as int]).linked_value is Some
                ==> s1.val_links@[s1.refs@[r as int].linked_value->0 as int]
                == s0.val_links@[s1.refs@[r as int].linked_value->0 as int]
                && s1.values@[s1.refs@[r as int].linked_value->0 as int]
                == s0.values@[s1.refs@[r as int].linked_value->0 as int],
    ensures
        s1.wf(),
{
    assert forall|v: usize|
        v < s1.val_count() && (#[trigger] s1.val_links@[v as int]) is Some implies {
            &&& s1.val_alive(v)
            &&& s1.ref_alive(s1.val_links@[v as int]->0)
            &&& s1.refs@[s1.val_links@[v as int]->0 as int].linked_value == Some(v)
        } by {
        assert(s0.val_links@[v as int] is Some);
        let r = s0.val_links@[v as int]->0;
        assert(s0.refs@[r as int].linked_value is Some);
    }
    assert forall|r: usize|
        r < s1.ref_count() && (#[trigger] s1.refs@[r as int]).linked_value is Some implies {
            &&& s1.ref_alive(r)
            &&& s1.val_alive(s1.refs@[r as int].linked_value->0)
            &&& s1.val_links@[s1.refs@[r as int].linked_value->0 as int] == Some(r)
        } by {
        assert(s0.refs@[r as int].linked_value is Some);
        let v = s0.refs@[r as int].linked_value->0;
        assert(s0.val_links@[v as int] is Some);
    }
}

impl RefGuard {
    /// Creates a new reference handle with no link to a value cell.
    pub fn new<T>(space: &mut GuardSpace<T>) -> (g: RefGuard)
        requires
            old(space).wf(),
        ensures
            final(space).wf(),
            g.id == old(space).ref_count(),
            final(space).refs@ == old(space).refs@.push(
                RefSlot { alive: true, linked_value: None },
            ),
            final(space).values@ == old(space).values@,
            final(space).val_links@ == old(space).val_links@,
    {
        let id = space.refs.len();
        space.refs.push(RefSlot { alive: true, linked_value: None });
        RefGuard { id }
    }

    /// Binds value cell `value_guard` to this reference handle.
    ///
    /// The two sides then name each other, and either side's destruction
    /// nulls the other's link.  Any reference handle previously registered on
    /// `value_guard`, and any value cell this handle previously read through,
    /// are unlinked first, so no link ever dangles.
    pub fn register<T>(&self, space: &mut GuardSpace<T>, value_guard: &ValueGuard)
        requires
            old(space).wf(),
            old(space).ref_alive(self.id),
            old(space).val_alive(value_guard.id),
        ensures
            final(space).wf(),
            final(space).val_count() == old(space).val_count(),
            final(space).ref_count() == old(space).ref_count(),
            final(space).ref_link(self.id) == Some(value_guard.id),
            final(space).val_link(value_guard.id) == Some(self.id),
            final(space).values@ == old(space).values@,
            forall|r: usize|
                r < old(space).ref_count() ==> final(space).refs@[r as int].alive == old(space).refs@[r as int].alive,
            old(space).val_link(value_guard.id) matches Some(r0) ==> r0 == self.id || (final(space).ref_link(r0) is None && final(space).read_of(r0) is None),
            final(space).read_of(self.id) == Some(old(space).val_value(value_guard.id)),
            old(space).ref_link(self.id) matches Some(v0) ==> v0 == value_guard.id || final(space).val_link(v0) is None,
            forall|r: usize|
                r < old(space).ref_count() && r != self.id && Some(r) != old(space).val_link(
                    value_guard.id,
                ) ==> final(space).refs@[r as int] == old(space).refs@[r as int],
            forall|v: usize|
                v < old(space).val_count() && v != value_guard.id && Some(v) != old(space).ref_link(self.id) ==> final(space).val_links@[v as int] == old(space).val_links@[v as int],
    {
        // Unregister whoever previously read through the value cell.
        let old_r = space.val_links[value_guard.id];
        if let Some(r0) = old_r {
            space.refs[r0] = RefSlot { alive: true, linked_value: None };
        }
        // Unregister whichever value cell this handle previously read through.
        let old_v = space.refs[self.id].linked_value;
        if let Some(v0) = old_v {
            space.val_links[v0] = None;
        }
        space.val_links[value_guard.id] = Some(self.id);
        space.refs[self.id] = RefSlot { alive: true, linked_value: Some(value_guard.id) };
        proof {
            let s0 = *old(space);
            let s1 = *space;
            if s0.val_links@[value_guard.id as int] is Some {
                let r0 = s0.val_links@[value_guard.id as int]->0;
                assert(s0.refs@[r0 as int].linked_value == Some(value_guard.id));
            }
            if s0.refs@[self.id as int].linked_value is Some {
                let v0 = s0.refs@[self.id as int].linked_value->0;
                assert(s0.val_links@[v0 as int] == Some(self.id));
            }
            assert forall|v: usize|
                v < s1.val_count() && (#[trigger] s1.val_links@[v as int]) is Some implies {
                    &&& s1.val_alive(v)
                    &&& s1.ref_alive(s1.val_links@[v as int]->0)
                    &&& s1.refs@[s1.val_links@[v as int]->0 as int].linked_value == Some(v)
                } by {
                if v != value_guard.id {
                    assert(s1.val_links@[v as int] == s0.val_links@[v as int]);
                    assert(s0.val_links@[v as int] is Some);
                    let r = s0.val_links@[v as int]->0;
                    assert(s0.refs@[r as int].linked_value == Some(v));
                    if r == self.id {
                        if s0.val_links@[value_guard.id as int] == Some(self.id) {
                            assert(s0.refs@[self.id as int].linked_value == Some(value_guard.id));
                            assert(false);
                        } else {
                            assert(old_v == Some(v));
                            assert(false);
                        }
                    }
                    if s0.val_links@[value_guard.id as int] is Some {
                        let r0 = s0.val_links@[value_guard.id as int]->0;
                        assert(s0.refs@[r0 as int].linked_value == Some(value_guard.id));
                        assert(r != r0);
                    }
                    assert(s1.refs@[r as int] == s0.refs@[r as int]);
                }
            }
            assert forall|r: usize|
                r < s1.ref_count() && (#[trigger] s1.refs@[r as int]).linked_value is Some implies {
                    &&& s1.ref_alive(r)
                    &&& s1.val_alive(s1.refs@[r as int].linked_value->0)
                    &&& s1.val_links@[s1.refs@[r as int].linked_value->0 as int] == Some(r)
                } by {
                if r != self.id {
                    if s0.val_links@[value_guard.id as int] is Some {
                        let r0 = s0.val_links@[value_guard.id as int]->0;
                        assert(s0.refs@[r0 as int].linked_value == Some(value_guard.id));
                        assert(r != r0);
                    }
                    assert(s1.refs@[r as int] == s0.refs@[r as int]);
                    assert(s0.refs@[r as int].linked_value is Some);
                    let v = s0.refs@[r as int].linked_value->0;
                    assert(s0.val_links@[v as int] == Some(r));
                    if v == value_guard.id {
                        assert(false);
                    }
                    if old_v == Some(v) {
                        if s0.val_links@[value_guard.id as int] == Some(self.id) {
                            assert(s0.refs@[self.id as int].linked_value == Some(value_guard.id));
                            assert(false);
                        } else {
                            assert(s0.refs@[self.id as int].linked_value == Some(v));
                            assert(s0.val_links@[v as int] == Some(self.id));
                            assert(false);
                        }
                    }
                    assert(s1.val_links@[v as int] == Some(r));
                }
            }
        }
    }

    /// Gets a copy of the value stored inside the value cell this handle
    /// reads through, or `None` when the link was invalidated (the cell was
    /// destroyed, or a newer registration superseded this handle).
    pub fn get<T: Copy>(&self, space: &GuardSpace<T>) -> (r: Option<T>)
        requires
            space.wf(),
            space.ref_alive(self.id),
        ensures
            r == space.read_of(self.id),
    {
        match space.refs[self.id].linked_value {
            Some(v) => match &space.values[v] {
                Some(x) => Some(*x),
                None => vstd::pervasive::unreached(),
            },
            None => None,
        }
    }

    /// Destroys this reference handle, unlinking its value cell first.
    pub fn destroy<T>(self, space: &mut GuardSpace<T>)
        requires
            old(space).wf(),
            old(space).ref_alive(self.id),
        ensures
            final(space).wf(),
            final(space).val_count() == old(space).val_count(),
            final(space).ref_count() == old(space).ref_count(),
            !final(space).ref_alive(self.id),
            final(space).values@ == old(space).values@,
            forall|r: usize|
                r < old(space).ref_count() && r != self.id ==> final(space).refs@[r as int] == old(space).refs@[r as int],
            forall|v: usize|
                v < old(space).val_count() && Some(v) != old(space).ref_link(self.id) ==> final(space).val_links@[v as int] == old(space).val_links@[v as int],
            old(space).ref_link(self.id) matches Some(v0) ==> final(space).val_link(v0) is None,
    {
        let old_v = space.refs[self.id].linked_value;
        if let Some(v0) = old_v {
            space.val_links[v0] = None;
        }
        space.refs[self.id] = RefSlot { alive: false, linked_value: None };
        proof {
            if old(space).refs@[self.id as int].linked_value is Some {
                let v0 = old(space).refs@[self.id as int].linked_value->0;
                assert(old(space).val_links@[v0 as int] == Some(self.id));
            }
            lemma_wf_after_unlink(*old(space), *space);
        }
    }
}

} // verus!
