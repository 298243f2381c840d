//! The completion wrapper: memoizes a pollable operation's result so the
//! owning combinator can safely poll the slot again after it has finished.

use vstd::prelude::*;

use crate::future::{op_done, op_owns_cell, op_wf, poll_frame, poll_op, poll_op_post, Op};
use crate::guard::ValueGuard;
use crate::val::{Poll, Val};
use crate::wake::WakeSystem;

verus! {

/// A pollable operation that may have completed.
///
/// This is created by the [`maybe_done()`] function.
#[derive(Debug)]
pub enum MaybeDoneState {
    /// A not-yet-completed operation.
    Future(Box<Op>),
    /// The output of the completed operation.
    Done(Val),
    /// The empty state after the output of a [`MaybeDone`] has been taken
    /// using the [`take_output`](MaybeDone::take_output) method.
    Gone,
}

/// Wrapper that polls an operation to completion once and then memoizes the
/// result: polling it again after completion is a safe no-op that never
/// touches the inner operation.
#[derive(Debug)]
pub struct MaybeDone {
    pub state: MaybeDoneState,
}

/// The wrapper has completed (or its output was already taken).
pub open spec fn md_done(md: MaybeDone) -> bool {
    !(md.state is Future)
}

/// A still-running wrapped operation is well-formed and has not completed.
pub open spec fn md_wf(md: MaybeDone, sys: WakeSystem) -> bool
    decreases md,
{
    match md.state {
        MaybeDoneState::Future(op) => op_wf(*op, sys) && !op_done(*op),
        _ => true,
    }
}

/// The wake cells owned by the wrapped operation, while one is running.
pub open spec fn md_owns_cell(md: MaybeDone, c: usize) -> bool
    decreases md,
{
    match md.state {
        MaybeDoneState::Future(op) => op_owns_cell(*op, c),
        _ => false,
    }
}

/// How one poll visit may step a slot holding a leaf counter: left alone,
/// advanced by exactly one count, or completed exactly at its target (and,
/// where `taken` allows it, already emptied).  A slot is never advanced by
/// more than one count per visit: children are polled at most once per poll
/// of the owning combinator.
pub open spec fn md_counter_step(before: MaybeDone, after: MaybeDone, taken: bool) -> bool {
    before.state matches MaybeDoneState::Future(f) ==> (*f matches Op::Counter {
        remaining,
        value,
        self_wake,
    } ==> {
        ||| after.state == before.state
        ||| (remaining > 1 && (after.state matches MaybeDoneState::Future(f2) && *f2
            == (Op::Counter { remaining: (remaining - 1) as u64, value, self_wake })))
        ||| (remaining == 1 && (after.state == MaybeDoneState::Done(Val::Int(value)) || (taken
            && after.state is Gone)))
    })
}

/// As [`md_counter_step`], but for a slot whose wake cell was ready at the
/// start of the owning combinator's poll: such a slot is visited, so a leaf
/// counter there is advanced exactly one count, completing exactly at its
/// target.
pub open spec fn md_counter_step_strict(before: MaybeDone, after: MaybeDone, taken: bool) -> bool {
    before.state matches MaybeDoneState::Future(f) ==> (*f matches Op::Counter {
        remaining,
        value,
        self_wake,
    } ==> {
        ||| (remaining > 1 && (after.state matches MaybeDoneState::Future(f2) && *f2
            == (Op::Counter { remaining: (remaining - 1) as u64, value, self_wake })))
        ||| (remaining == 1 && (after.state == MaybeDoneState::Done(Val::Int(value)) || (taken
            && after.state is Gone)))
    })
}

/// The slot holds no nested combinator: either it has already completed, or
/// the operation still running in it is a leaf.
pub open spec fn md_leaf(md: MaybeDone) -> bool {
    md.state matches MaybeDoneState::Future(f) ==> ((*f) is Counter || (*f) is Never)
}

/// Wraps a pollable operation into a `MaybeDone`.
pub fn maybe_done(op: Op) -> (md: MaybeDone)
    ensures
        md.state matches MaybeDoneState::Future(f) && *f == op,
{
    MaybeDone { state: MaybeDoneState::Future(Box::new(op)) }
}

impl MaybeDone {
    /// Attempts to take the output without driving the operation: `Some`
    /// exactly in the completed-and-not-yet-taken state.
    pub fn take_output(&mut self) -> (r: Option<Val>)
        ensures
            old(self).state matches MaybeDoneState::Done(v) ==> r == Some(v)
                && final(self).state is Gone,
            !(old(self).state is Done) ==> r is None && *final(self) == *old(self),
    {
        let mut taken = MaybeDoneState::Gone;
        core::mem::swap(&mut self.state, &mut taken);
        match taken {
            MaybeDoneState::Done(v) => Some(v),
            MaybeDoneState::Future(f) => {
                self.state = MaybeDoneState::Future(f);
                None
            },
            MaybeDoneState::Gone => None,
        }
    }

    /// An immutable reference to the wrapper's state.
    pub fn get_state(&self) -> (s: &MaybeDoneState)
        ensures
            s == &self.state,
    {
        &self.state
    }

    /// Whether the wrapped operation should no longer be polled towards
    /// completion (it completed, or its output was taken).
    pub fn is_done(&self) -> (r: bool)
        ensures
            r == md_done(*self),
    {
        match self.state {
            MaybeDoneState::Future(_) => false,
            _ => true,
        }
    }

    /// Whether polling this wrapper is still permitted.
    pub fn is_gone(&self) -> (r: bool)
        ensures
            r == (self.state is Gone),
    {
        match self.state {
            MaybeDoneState::Gone => true,
            _ => false,
        }
    }
}

/// A pollable whose holder can ask whether it should still be polled.
pub trait FusedFuture {
    /// The underlying operation should no longer be polled towards
    /// completion.
    spec fn terminated(&self) -> bool;

    /// Returns whether the underlying operation should no longer be polled
    /// towards completion.
    fn is_terminated(&self) -> (r: bool)
        ensures
            r == self.terminated(),
    ;
}

impl FusedFuture for MaybeDone {
    open spec fn terminated(&self) -> bool {
        md_done(*self)
    }

    fn is_terminated(&self) -> (r: bool) {
        self.is_done()
    }
}

/// Polls the wrapper.  While the inner operation runs, this polls it through
/// the given wake handle and memoizes a completion.  Once completed, every
/// further poll returns `Ready(())` immediately without touching the inner
/// operation (some combinator paths poll unconditionally on slots already
/// known complete).  Polling after the output was taken is a contract
/// violation and is excluded by precondition.
pub fn poll_maybe_done(md: MaybeDone, sys: &mut WakeSystem, wk: &ValueGuard) -> (res: (
    MaybeDone,
    Poll<()>,
))
    requires
        old(sys).wf(),
        md_wf(md, *old(sys)),
        !(md.state is Gone),
        old(sys).guards.val_alive(wk.id),
    ensures
        final(sys).wf(),
        md_wf(res.0, *final(sys)),
        forall|c: usize| md_owns_cell(res.0, c) ==> md_owns_cell(md, c),
        md.state matches MaybeDoneState::Future(f) ==> poll_frame(*f, *old(sys), *final(sys)),
        md.state matches MaybeDoneState::Future(f) ==> {
            &&& (res.1 is Pending ==> (res.0.state matches MaybeDoneState::Future(f2)
                && crate::future::poll_op_post(
                    *f,
                    *f2,
                    wk.id,
                    *old(sys),
                    *final(sys),
                    Poll::<Val>::Pending,
                )))
            &&& (res.1 is Ready ==> (res.0.state matches MaybeDoneState::Done(v) && (exists|
                op1: Op,
            |
                crate::future::poll_op_post(
                    *f,
                    op1,
                    wk.id,
                    *old(sys),
                    *final(sys),
                    Poll::<Val>::Ready(v),
                ))))
        },
        md.state is Done ==> *final(sys) == *old(sys) && res.0 == md && res.1
            == Poll::Ready::<()>(()),
        res.1 is Ready <==> md_done(res.0),
        !(res.0.state is Gone),
        md.state matches MaybeDoneState::Done(v) ==> res.0.state == MaybeDoneState::Done(v),
        res.1 is Pending ==> res.0.state is Future,
        md_counter_step(md, res.0, false),
    decreases md,
{
    match md.state {
        MaybeDoneState::Future(op) => {
            proof {
                assert(decreases_to!(md => md.state));
                assert(decreases_to!(md.state => md.state->Future_0));
            }
            let ghost inner_g = *op;
            let (op1, r) = poll_op(*op, sys, wk);
            let ghost op1_g = op1;
            match r {
                Poll::Ready(v) => {
                    let ghost v_g = v;
                    proof {
                        assert(poll_op_post(
                            inner_g,
                            op1_g,
                            wk.id,
                            *old(sys),
                            *sys,
                            Poll::<Val>::Ready(v_g),
                        ));
                    }
                    (MaybeDone { state: MaybeDoneState::Done(v) }, Poll::Ready(()))
                },
                Poll::Pending => {
                    let res0 = MaybeDone { state: MaybeDoneState::Future(Box::new(op1)) };
                    proof {
                        assert forall|c: usize| md_owns_cell(res0, c) implies md_owns_cell(
                            md,
                            c,
                        ) by {
                            assert(op_owns_cell(op1, c));
                            assert(op_owns_cell(inner_g, c));
                        }
                    }
                    (res0, Poll::Pending)
                },
            }
        },
        MaybeDoneState::Done(v) => (MaybeDone { state: MaybeDoneState::Done(v) }, Poll::Ready(())),
        MaybeDoneState::Gone => vstd::pervasive::unreached(),
    }
}

} // verus!
