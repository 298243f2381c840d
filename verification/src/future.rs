//! Pollable operations.
//!
//! A pollable operation is advanced only by explicit poll calls, never by
//! blocking.  Each poll receives a wake handle; the operation invokes the
//! handle (any number of times, now or later) to report renewed readiness to
//! whoever drives it.  Combinators are themselves pollable operations, so
//! operations compose to any depth over one closed union of kinds.

use vstd::prelude::*;

use crate::guard::ValueGuard;
use crate::join::{join_owns_cell, join_post, join_wf, poll_join, JoinOp};
use crate::maybe_done::{md_owns_cell, md_wf};
use crate::race::{poll_race, race_owns_cell, race_post, race_wf, RaceOp};
use crate::val::{Poll, Val};
use crate::wake::{dummy_guard, WakeSystem};

verus! {

broadcast use vstd::std_specs::vec::axiom_vec_index_decreases;

/// A pollable operation.
#[derive(Debug)]
pub enum Op {
    /// Leaf operation that completes with `Int(value)` on its `remaining`-th
    /// poll from now, and, when `self_wake` is set, wakes its handle on
    /// every poll (so an edge-triggered driver keeps polling it).
    Counter { remaining: u64, value: u64, self_wake: bool },
    /// Leaf operation that never completes and never signals readiness.
    Never,
    /// N-ary AND-join: completes when all children have, with their outputs
    /// in declaration order.
    Join(JoinOp),
    /// N-ary OR-join: completes with the first completed child's output,
    /// tagged with its declaration index.
    Race(RaceOp),
}

/// The operation has produced its output and must not be polled again.
pub open spec fn op_done(op: Op) -> bool
    decreases op,
{
    match op {
        Op::Counter { remaining, .. } => remaining == 0,
        Op::Never => false,
        Op::Join(j) => exists|i: int|
            0 <= i < j.slots@.len() && (#[trigger] j.slots@[i]).state is Gone,
        Op::Race(r) => exists|i: int|
            0 <= i < r.children@.len() && op_done(#[trigger] r.children@[i]),
    }
}

/// Every wake cell, wake handle and reference handle the operation owns
/// exists in `sys`, and no inner operation wrapped as still-running has
/// already completed.
pub open spec fn op_wf(op: Op, sys: WakeSystem) -> bool
    decreases op,
{
    match op {
        Op::Counter { .. } => true,
        Op::Never => true,
        Op::Join(j) => join_wf(j, sys),
        Op::Race(r) => race_wf(r, sys),
    }
}

/// Cell `c` belongs to this operation's own wake bookkeeping (its own wake
/// array, or a descendant's).
pub open spec fn op_owns_cell(op: Op, c: usize) -> bool
    decreases op,
{
    match op {
        Op::Counter { .. } => false,
        Op::Never => false,
        Op::Join(j) => join_owns_cell(j, c),
        Op::Race(r) => race_owns_cell(r, c),
    }
}

/// How one poll may step a leaf counter raced as a raw child: left alone or
/// advanced by exactly one count (never more: children are polled at most
/// once per poll of the owning combinator).
pub open spec fn op_counter_step(before: Op, after: Op) -> bool {
    before matches Op::Counter { remaining, value, self_wake } ==> {
        ||| after == before
        ||| after == (Op::Counter { remaining: (remaining - 1) as u64, value, self_wake })
    }
}

/// What any poll of `op0` may do to the wake system: nothing is created or
/// destroyed, and cells outside the operation's own bookkeeping keep their
/// parent registration and have their readiness flag at most set (wake
/// forwarding), never cleared.
pub open spec fn poll_frame(op0: Op, s0: WakeSystem, s1: WakeSystem) -> bool {
    &&& s1.cell_count() == s0.cell_count()
    &&& s1.guards.val_count() == s0.guards.val_count()
    &&& s1.guards.ref_count() == s0.guards.ref_count()
    &&& forall|v: usize|
        v < s0.guards.val_count() ==> ((#[trigger] s1.guards.values@[v as int]) is Some == (
        s0.guards.values@[v as int] is Some))
    &&& forall|r: usize|
        r < s0.guards.ref_count() ==> (#[trigger] s1.guards.refs@[r as int]).alive
            == s0.guards.refs@[r as int].alive
    &&& forall|c: usize|
        c < s0.cell_count() && !op_owns_cell(op0, c) ==> (#[trigger] s1.stores@[
            c as int
        ]).parent == s0.stores@[c as int].parent && (s0.stores@[c as int].ready
            ==> s1.stores@[c as int].ready)
}

/// The operation is a leaf: it owns no wake bank and registers nothing.
pub open spec fn op_leaf(op: Op) -> bool {
    op is Counter || op is Never
}

/// Everything one poll of `op0` with wake handle `wk_id` promises about its
/// successor state `op1`, the wake system and the result: the frame, the
/// result-iff-completed rule, and the exact behaviour of every kind of
/// operation (leaves pinned outright, combinators through
/// [`crate::join::join_post`] and [`crate::race::race_post`]).
pub open spec fn poll_op_post(
    op0: Op,
    op1: Op,
    wk_id: usize,
    s0: WakeSystem,
    s1: WakeSystem,
    r: Poll<Val>,
) -> bool {
    &&& poll_frame(op0, s0, s1)
    &&& (r is Ready <==> op_done(op1))
    &&& (op0 matches Op::Counter { remaining, value, self_wake } ==> {
        &&& op1 == (Op::Counter { remaining: (remaining - 1) as u64, value, self_wake })
        &&& (remaining == 1 ==> r == Poll::<Val>::Ready(Val::Int(value)))
        &&& (remaining > 1 ==> r is Pending)
        &&& (!self_wake ==> s1 == s0)
        &&& s1.guards == s0.guards
        &&& (self_wake ==> (s0.guards.val_value(wk_id) matches Some(t)
            ==> s1.stores@[t as int].ready))
    })
    &&& (op0 is Never ==> op1 is Never && r is Pending && s1 == s0)
    &&& (op0 matches Op::Join(j0) ==> (op1 matches Op::Join(j1) && join_post(
        j0,
        j1,
        wk_id,
        s0,
        s1,
        r,
    )))
    &&& (op0 matches Op::Race(r0) ==> (op1 matches Op::Race(r1) && race_post(
        r0,
        r1,
        wk_id,
        s0,
        s1,
        r,
    )))
}

/// Every cell an operation owns exists in any system the operation is
/// well-formed in.
pub proof fn lemma_owned_cell_bound(op: Op, sys: WakeSystem, c: usize)
    requires
        op_wf(op, sys),
        op_owns_cell(op, c),
    ensures
        c < sys.cell_count(),
    decreases op,
{
    match op {
        Op::Counter { .. } => {},
        Op::Never => {},
        Op::Join(j) => {
            if j.array.owns_cell(c) {
                let i = choose|i: int| 0 <= i < j.array.cells@.len() && j.array.cells@[i] == c;
                assert(j.array.cells@[i] < sys.cell_count());
            } else {
                let k = choose|k: int|
                    0 <= k < j.slots@.len() && md_owns_cell(#[trigger] j.slots@[k], c);
                lemma_md_owned_cell_bound(j.slots@[k], sys, c);
            }
        },
        Op::Race(rc) => {
            if rc.array.owns_cell(c) {
                let i = choose|i: int| 0 <= i < rc.array.cells@.len() && rc.array.cells@[i] == c;
                assert(rc.array.cells@[i] < sys.cell_count());
            } else {
                let k = choose|k: int|
                    0 <= k < rc.children@.len() && op_owns_cell(#[trigger] rc.children@[k], c);
                lemma_owned_cell_bound(rc.children@[k], sys, c);
            }
        },
    }
}

/// As [`lemma_owned_cell_bound`], for a completion wrapper.
pub proof fn lemma_md_owned_cell_bound(
    md: crate::maybe_done::MaybeDone,
    sys: WakeSystem,
    c: usize,
)
    requires
        md_wf(md, sys),
        md_owns_cell(md, c),
    ensures
        c < sys.cell_count(),
    decreases md,
{
    match md.state {
        crate::maybe_done::MaybeDoneState::Future(op) => {
            lemma_owned_cell_bound(*op, sys, c);
        },
        _ => {},
    }
}

/// Well-formedness only mentions existence and liveness of slots, so it
/// survives any step that destroys nothing.
pub proof fn lemma_op_wf_preserve(op: Op, s0: WakeSystem, s1: WakeSystem)
    requires
        op_wf(op, s0),
        s1.cell_count() >= s0.cell_count(),
        s1.guards.val_count() >= s0.guards.val_count(),
        s1.guards.ref_count() >= s0.guards.ref_count(),
        forall|v: usize|
            v < s0.guards.val_count() && s0.guards.values@[v as int] is Some ==> (
            #[trigger] s1.guards.values@[v as int]) is Some,
        forall|r: usize|
            r < s0.guards.ref_count() && s0.guards.refs@[r as int].alive ==> (
            #[trigger] s1.guards.refs@[r as int]).alive,
    ensures
        op_wf(op, s1),
    decreases op,
{
    match op {
        Op::Counter { .. } => {},
        Op::Never => {},
        Op::Join(j) => {
            assert forall|i: int| 0 <= i < j.slots@.len() implies md_wf(
                #[trigger] j.slots@[i],
                s1,
            ) by {
                lemma_md_wf_preserve(j.slots@[i], s0, s1);
            }
            assert(j.array.wf(s1)) by {
                lemma_array_wf_preserve(j.array, s0, s1);
            }
        },
        Op::Race(r) => {
            assert forall|i: int| 0 <= i < r.children@.len() implies op_wf(
                #[trigger] r.children@[i],
                s1,
            ) by {
                lemma_op_wf_preserve(r.children@[i], s0, s1);
            }
            assert(r.array.wf(s1)) by {
                lemma_array_wf_preserve(r.array, s0, s1);
            }
        },
    }
}

/// As [`lemma_op_wf_preserve`], for a completion wrapper.
pub proof fn lemma_md_wf_preserve(md: crate::maybe_done::MaybeDone, s0: WakeSystem, s1: WakeSystem)
    requires
        md_wf(md, s0),
        s1.cell_count() >= s0.cell_count(),
        s1.guards.val_count() >= s0.guards.val_count(),
        s1.guards.ref_count() >= s0.guards.ref_count(),
        forall|v: usize|
            v < s0.guards.val_count() && s0.guards.values@[v as int] is Some ==> (
            #[trigger] s1.guards.values@[v as int]) is Some,
        forall|r: usize|
            r < s0.guards.ref_count() && s0.guards.refs@[r as int].alive ==> (
            #[trigger] s1.guards.refs@[r as int]).alive,
    ensures
        md_wf(md, s1),
    decreases md,
{
    match md.state {
        crate::maybe_done::MaybeDoneState::Future(op) => {
            lemma_op_wf_preserve(*op, s0, s1);
        },
        _ => {},
    }
}

/// As [`lemma_op_wf_preserve`], for a wake array.
pub proof fn lemma_array_wf_preserve(a: crate::wake::WakeArray, s0: WakeSystem, s1: WakeSystem)
    requires
        a.wf(s0),
        s1.cell_count() >= s0.cell_count(),
        s1.guards.val_count() >= s0.guards.val_count(),
        s1.guards.ref_count() >= s0.guards.ref_count(),
        forall|v: usize|
            v < s0.guards.val_count() && s0.guards.values@[v as int] is Some ==> (
            #[trigger] s1.guards.values@[v as int]) is Some,
        forall|r: usize|
            r < s0.guards.ref_count() && s0.guards.refs@[r as int].alive ==> (
            #[trigger] s1.guards.refs@[r as int]).alive,
    ensures
        a.wf(s1),
{
    assert(s0.guards.refs@[a.parent.id as int].alive);
    assert forall|i: int| 0 <= i < a.children@.len() implies s1.guards.val_alive(
        (#[trigger] a.children@[i]).id,
    ) by {
        assert(s0.guards.val_alive(a.children@[i].id));
    }
}

/// Two polls in a row stay within the frame of the polled operation.
pub proof fn lemma_poll_frame_trans(op: Op, s0: WakeSystem, s1: WakeSystem, s2: WakeSystem)
    requires
        poll_frame(op, s0, s1),
        poll_frame(op, s1, s2),
    ensures
        poll_frame(op, s0, s2),
{
    assert forall|v: usize| v < s0.guards.val_count() implies ((
    #[trigger] s2.guards.values@[v as int]) is Some == (s0.guards.values@[v as int] is Some)) by {
        assert(s1.guards.values@[v as int] is Some == s0.guards.values@[v as int] is Some);
    }
    assert forall|r: usize| r < s0.guards.ref_count() implies (
    #[trigger] s2.guards.refs@[r as int]).alive == s0.guards.refs@[r as int].alive by {
        assert(s1.guards.refs@[r as int].alive == s0.guards.refs@[r as int].alive);
    }
    assert forall|c: usize| c < s0.cell_count() && !op_owns_cell(op, c) implies (
    #[trigger] s2.stores@[c as int]).parent == s0.stores@[c as int].parent && (s0.stores@[
        c as int
    ].ready ==> s2.stores@[c as int].ready) by {
        assert(s1.stores@[c as int].parent == s0.stores@[c as int].parent);
        assert(s0.stores@[c as int].ready ==> s1.stores@[c as int].ready);
    }
}

/// A step inside a child's frame is a step inside the parent's frame, since
/// the parent owns every cell the child owns.
pub proof fn lemma_poll_frame_widen(child: Op, parent: Op, s0: WakeSystem, s1: WakeSystem)
    requires
        poll_frame(child, s0, s1),
        forall|c: usize| op_owns_cell(child, c) ==> op_owns_cell(parent, c),
    ensures
        poll_frame(parent, s0, s1),
{
    assert forall|c: usize| c < s0.cell_count() && !op_owns_cell(parent, c) implies (
    #[trigger] s1.stores@[c as int]).parent == s0.stores@[c as int].parent && (s0.stores@[
        c as int
    ].ready ==> s1.stores@[c as int].ready) by {
        assert(!op_owns_cell(child, c));
        assert(s1.stores@[c as int].parent == s0.stores@[c as int].parent);
    }
}

/// Polls an operation once, giving it `wk` as the handle through which to
/// report renewed readiness.  Polling an operation that has already produced
/// its output is a contract violation and is excluded by precondition.
pub fn poll_op(op: Op, sys: &mut WakeSystem, wk: &ValueGuard) -> (res: (Op, Poll<Val>))
    requires
        old(sys).wf(),
        op_wf(op, *old(sys)),
        !op_done(op),
        old(sys).guards.val_alive(wk.id),
    ensures
        final(sys).wf(),
        op_wf(res.0, *final(sys)),
        forall|c: usize| op_owns_cell(res.0, c) ==> op_owns_cell(op, c),
        poll_op_post(op, res.0, wk.id, *old(sys), *final(sys), res.1),
        op matches Op::Join(j0) ==> crate::join::join_outputs_pinned(j0, res.1),
    decreases op,
{
    let ghost op_g = op;
    match op {
        Op::Counter { remaining, value, self_wake } => {
            if self_wake {
                sys.local_wake(wk);
            }
            let rem2 = remaining - 1;
            proof {
                assert(forall|c: usize|
                    !op_owns_cell(Op::Counter { remaining: rem2, value, self_wake }, c));
            }
            if rem2 == 0 {
                (Op::Counter { remaining: rem2, value, self_wake }, Poll::Ready(Val::Int(value)))
            } else {
                (Op::Counter { remaining: rem2, value, self_wake }, Poll::Pending)
            }
        },
        Op::Never => {
            proof {
                assert(forall|c: usize| !op_owns_cell(Op::Never, c));
            }
            (Op::Never, Poll::Pending)
        },
        Op::Join(j) => {
            let ghost j_g = j;
            proof {
                assert(decreases_to!(op_g => op_g->Join_0));
            }
            let (j1, r) = poll_join(j, sys, wk);
            proof {
                assert forall|c: usize| op_owns_cell(Op::Join(j1), c) implies op_owns_cell(
                    op_g,
                    c,
                ) by {
                    assert(crate::join::join_owns_cell(j1, c));
                    assert(crate::join::join_owns_cell(j_g, c));
                }
            }
            (Op::Join(j1), r)
        },
        Op::Race(rc) => {
            let ghost rc_g = rc;
            proof {
                assert(decreases_to!(op_g => op_g->Race_0));
            }
            let (r1, r) = poll_race(rc, sys, wk);
            proof {
                assert forall|c: usize| op_owns_cell(Op::Race(r1), c) implies op_owns_cell(
                    op_g,
                    c,
                ) by {
                    assert(crate::race::race_owns_cell(r1, c));
                    assert(crate::race::race_owns_cell(rc_g, c));
                }
            }
            (Op::Race(r1), r)
        },
    }
}

/// A pollable operation, as a capability: one operation, `poll`.
pub trait Future {
    /// The operation this value stands for, in the closed union of kinds.
    spec fn as_op(&self) -> Op;

    /// The operation's bookkeeping exists in `sys`.
    spec fn wf_in(&self, sys: WakeSystem) -> bool;

    /// The operation has produced its output; polling it again is a
    /// contract violation.
    spec fn done(&self) -> bool;

    /// Attempts to resolve the operation to a final value, using `wk` as
    /// the handle through which renewed readiness is reported.  The step is
    /// exactly one poll of the operation: [`poll_op_post`] pins it.
    fn poll(&mut self, sys: &mut WakeSystem, wk: &ValueGuard) -> (r: Poll<Val>)
        requires
            old(sys).wf(),
            old(self).wf_in(*old(sys)),
            !old(self).done(),
            old(sys).guards.val_alive(wk.id),
        ensures
            final(sys).wf(),
            final(self).wf_in(*final(sys)),
            r is Ready <==> final(self).done(),
            poll_op_post(
                old(self).as_op(),
                final(self).as_op(),
                wk.id,
                *old(sys),
                *final(sys),
                r,
            ),
            forall|c: usize|
                op_owns_cell(final(self).as_op(), c) ==> op_owns_cell(old(self).as_op(), c),
            old(self).as_op() matches Op::Join(j0) ==> crate::join::join_outputs_pinned(j0, r),
    ;
}

impl Future for Op {
    open spec fn as_op(&self) -> Op {
        *self
    }

    open spec fn wf_in(&self, sys: WakeSystem) -> bool {
        op_wf(*self, sys)
    }

    open spec fn done(&self) -> bool {
        op_done(*self)
    }

    fn poll(&mut self, sys: &mut WakeSystem, wk: &ValueGuard) -> (r: Poll<Val>) {
        let mut taken = Op::Never;
        core::mem::swap(self, &mut taken);
        let (next, r) = poll_op(taken, sys, wk);
        *self = next;
        r
    }
}

/// Drives one operation with a no-op root handle for at most `fuel` polls:
/// the simplest driver loop.  Returns the new operation state, and its
/// output if it completed within the budget.
#[verifier::loop_isolation(false)]
pub fn block_on(op: Op, sys: &mut WakeSystem, fuel: u64) -> (res: (Op, Option<Val>))
    requires
        old(sys).wf(),
        op_wf(op, *old(sys)),
        !op_done(op),
    ensures
        final(sys).wf(),
        op_wf(res.0, *final(sys)),
        res.1 is Some <==> op_done(res.0),
        op matches Op::Counter { remaining, value, self_wake } ==> {
            &&& (fuel >= remaining ==> res.1 == Some(Val::Int(value)) && res.0 == (Op::Counter {
                remaining: 0,
                value,
                self_wake,
            }))
            &&& (fuel < remaining ==> res.1 is None && res.0 == (Op::Counter {
                remaining: (remaining - fuel) as u64,
                value,
                self_wake,
            }))
        },
        op is Never ==> res.1 is None && res.0 is Never,
{
    let ghost op_g = op;
    let g = dummy_guard(sys);
    proof {
        lemma_op_wf_preserve(op, *old(sys), *sys);
    }
    let mut cur = op;
    let mut k: u64 = 0;
    while k < fuel
        invariant
            sys.wf(),
            op_wf(cur, *sys),
            !op_done(cur),
            sys.guards.val_alive(g.id),
            k <= fuel,
            op matches Op::Counter { remaining, value, self_wake } ==> k < remaining && cur == (
            Op::Counter { remaining: (remaining - k) as u64, value, self_wake }),
            op is Never ==> cur is Never,
        decreases fuel - k,
    {
        let (next, r) = poll_op(cur, sys, &g);
        cur = next;
        match r {
            Poll::Ready(v) => {
                proof {
                    match op_g {
                        Op::Counter { remaining, .. } => {
                            assert(remaining - k == 1);
                            assert(k + 1 <= fuel);
                        },
                        _ => {},
                    }
                }
                return (cur, Some(v));
            },
            Poll::Pending => {},
        }
        k = k + 1;
    }
    (cur, None)
}

} // verus!
