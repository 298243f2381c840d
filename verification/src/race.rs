//! The N-ary OR-join ("race") combinator.
//!
//! A race owns its children raw (no completion wrapper: a result is
//! produced at most once, and losers are never polled again) plus one wake
//! cell per child.  Each poll registers the supplied parent handle on the
//! bank, scans the slots in declaration order, and returns the first
//! completion, tagged with its slot index, without examining the remaining
//! slots.  If two or more slots are simultaneously ready within one poll
//! call, the lowest-declaration-index slot wins: a defined, deterministic
//! tie-break.  Losers receive no cancellation signal beyond the eventual
//! destruction of the race structure.

use vstd::prelude::*;

use crate::future::{
    lemma_array_wf_preserve, lemma_op_wf_preserve, lemma_poll_frame_trans, lemma_poll_frame_widen,
    op_done, op_owns_cell, op_wf, poll_frame, poll_op, Op,
};
use crate::guard::ValueGuard;
use crate::val::{Poll, Val};
use crate::wake::{WakeArray, WakeStore, WakeSystem};

verus! {

broadcast use vstd::std_specs::vec::axiom_vec_index_decreases, vstd::seq::group_seq_axioms;

/// State of an N-ary OR-join: the raw children and one wake cell per child,
/// declaration-order-indexed.
#[derive(Debug)]
pub struct RaceOp {
    pub children: Vec<Op>,
    pub array: WakeArray,
}

/// One child per wake cell, every child well-formed.
pub open spec fn race_wf(r: RaceOp, sys: WakeSystem) -> bool
    decreases r,
{
    &&& r.array.wf(sys)
    &&& r.children@.len() == r.array.len()
    &&& forall|i: int| 0 <= i < r.children@.len() ==> op_wf(#[trigger] r.children@[i], sys)
    &&& forall|k: int, c: usize|
        0 <= k < r.children@.len() && #[trigger] op_owns_cell(r.children@[k], c)
            ==> !r.array.owns_cell(c)
}

/// Cell `c` belongs to the race's own bank or to one of its children.
pub open spec fn race_owns_cell(r: RaceOp, c: usize) -> bool
    decreases r,
{
    ||| r.array.owns_cell(c)
    ||| exists|i: int| 0 <= i < r.children@.len() && op_owns_cell(#[trigger] r.children@[i], c)
}

/// How one poll steps a race.
///
/// The bank is untouched; the arity is fixed.  On a completion, the output
/// is the winner's output tagged with its declaration index, no slot before
/// the winner has completed (the lowest ready index wins), and no slot after
/// the winner was examined at all.  On `Pending`, no child has completed.
///
/// Progress is owed, not optional: every slot up to the point the scan
/// stopped whose cell was ready at entry is visited, so a leaf counter there
/// advances exactly one count — and had it been at its target, it would have
/// won, so a ready counter at its target below the returned index is
/// impossible: the tie-break is forced.  A never-ready leaf stays exactly
/// what it is, and when every child is a leaf, the bank's parent link ends
/// registered to the supplied handle.
pub open spec fn race_post(
    r0: RaceOp,
    r1: RaceOp,
    wk_id: usize,
    s0: WakeSystem,
    s1: WakeSystem,
    r: Poll<Val>,
) -> bool {
    &&& r1.array == r0.array
    &&& r1.children@.len() == r0.children@.len()
    &&& (r matches Poll::Ready(v) ==> (v matches Val::Tagged(i, out) && i < r0.children@.len()
        && op_done(r1.children@[i as int]) && (forall|k: int|
        0 <= k < i ==> !op_done(#[trigger] r1.children@[k])) && (forall|k: int|
        i < k < r0.children@.len() ==> r1.children@[k] == r0.children@[k]) && (
        r0.children@[i as int] matches Op::Counter { remaining, value, self_wake } ==> *out
            == Val::Int(value))))
    &&& (r is Pending ==> forall|k: int|
        0 <= k < r1.children@.len() ==> !op_done(#[trigger] r1.children@[k]))
    &&& forall|k: int|
        0 <= k < r0.children@.len() ==> crate::future::op_counter_step(
            #[trigger] r0.children@[k],
            r1.children@[k],
        )
    &&& (r is Pending ==> (forall|k: int|
        0 <= k < r0.children@.len() && s0.stores@[r0.array.cells@[k] as int].ready ==> ((
        #[trigger] r0.children@[k]) matches Op::Counter { remaining, value, self_wake }
            ==> remaining > 1 && r1.children@[k] == (Op::Counter {
            remaining: (remaining - 1) as u64,
            value,
            self_wake,
        }))))
    &&& (r matches Poll::Ready(v) ==> (v matches Val::Tagged(i, out) ==> (forall|k: int|
        0 <= k < i && s0.stores@[r0.array.cells@[k] as int].ready ==> ((
        #[trigger] r0.children@[k]) matches Op::Counter { remaining, value, self_wake }
            ==> remaining > 1 && r1.children@[k] == (Op::Counter {
            remaining: (remaining - 1) as u64,
            value,
            self_wake,
        })))))
    &&& forall|k: int|
        0 <= k < r0.children@.len() ==> ((#[trigger] r0.children@[k]) is Never ==> r1.children@[k]
            is Never)
    &&& (r is Pending ==> (forall|k: int|
        0 <= k < r0.children@.len() && s0.stores@[r0.array.cells@[k] as int].ready ==> ((
        #[trigger] r0.children@[k]) matches Op::Counter { remaining, value, self_wake }
            && self_wake ==> s1.stores@[r0.array.cells@[k] as int].ready)))
    &&& ((forall|k: int| 0 <= k < r0.children@.len() ==> crate::future::op_leaf(
        #[trigger] r0.children@[k],
    )) ==> (s1.guards.ref_link(r0.array.parent.id) == Some(wk_id) && s1.guards.val_link(wk_id)
        == Some(r0.array.parent.id)))
}

/// Children well-formedness survives any step that destroys nothing.
proof fn lemma_children_wf_step(children: Seq<Op>, s0: WakeSystem, s1: WakeSystem)
    requires
        forall|k: int| 0 <= k < children.len() ==> op_wf(#[trigger] children[k], s0),
        s1.cell_count() >= s0.cell_count(),
        s1.guards.val_count() >= s0.guards.val_count(),
        s1.guards.ref_count() >= s0.guards.ref_count(),
        forall|v: usize|
            v < s0.guards.val_count() && s0.guards.values@[v as int] is Some ==> (
            #[trigger] s1.guards.values@[v as int]) is Some,
        forall|r: usize|
            r < s0.guards.ref_count() && s0.guards.refs@[r as int].alive ==> (
            #[trigger] s1.guards.refs@[r as int]).alive,
    ensures
        forall|k: int| 0 <= k < children.len() ==> op_wf(#[trigger] children[k], s1),
{
    assert forall|k: int| 0 <= k < children.len() implies op_wf(#[trigger] children[k], s1) by {
        lemma_op_wf_preserve(children[k], s0, s1);
    }
}

/// Polls the race.  Registers `wk` as the parent of every cell in the bank,
/// then scans the slots in declaration order: a slot is polled only when
/// its cell was woken since the last check, and the first completion wins
/// and returns immediately.  Re-polling a race that has produced its output
/// is a contract violation and is excluded by precondition (a produced race
/// holds a completed child).
#[verifier::loop_isolation(false)]
#[verifier::rlimit(80)]
#[verifier::spinoff_prover]
pub fn poll_race(r_in: RaceOp, sys: &mut WakeSystem, wk: &ValueGuard) -> (res: (RaceOp, Poll<Val>))
    requires
        old(sys).wf(),
        race_wf(r_in, *old(sys)),
        forall|i: int| 0 <= i < r_in.children@.len() ==> !op_done(#[trigger] r_in.children@[i]),
        old(sys).guards.val_alive(wk.id),
    ensures
        final(sys).wf(),
        race_wf(res.0, *final(sys)),
        poll_frame(Op::Race(r_in), *old(sys), *final(sys)),
        forall|c: usize| race_owns_cell(res.0, c) ==> race_owns_cell(r_in, c),
        res.1 is Ready <==> (exists|i: int|
            0 <= i < res.0.children@.len() && op_done(#[trigger] res.0.children@[i])),
        race_post(r_in, res.0, wk.id, *old(sys), *final(sys), res.1),
    decreases r_in,
{
    let ghost s0 = *old(sys);
    let mut rc = r_in;
    rc.array.register_parent(sys, wk);
    let ghost s_reg = *sys;
    proof {
        assert(poll_frame(Op::Race(r_in), s0, *sys));
        lemma_children_wf_step(rc.children@, s0, *sys);
    }
    let n = rc.children.len();
    let mut i: usize = 0;
    while i < n
        invariant
            sys.wf(),
            n == r_in.children@.len(),
            rc.children@.len() == n,
            rc.array == r_in.array,
            rc.array.wf(*sys),
            n == r_in.array.len(),
            i <= n,
            forall|k: int| i <= k < n ==> rc.children@[k] == r_in.children@[k],
            forall|k: int| 0 <= k < n ==> op_wf(#[trigger] rc.children@[k], *sys),
            forall|k: int| 0 <= k < n ==> !op_done(#[trigger] rc.children@[k]),
            forall|k: int, c: usize|
                0 <= k < i && #[trigger] op_owns_cell(rc.children@[k], c) ==> op_owns_cell(
                    r_in.children@[k],
                    c,
                ),
            forall|k: int|
                0 <= k < i ==> crate::future::op_counter_step(
                    #[trigger] r_in.children@[k],
                    rc.children@[k],
                ),
            forall|k: int|
                0 <= k < i && s0.stores@[r_in.array.cells@[k] as int].ready ==> ((
                #[trigger] r_in.children@[k]) matches Op::Counter { remaining, value, self_wake }
                    ==> remaining > 1 && rc.children@[k] == (Op::Counter {
                    remaining: (remaining - 1) as u64,
                    value,
                    self_wake,
                })),
            forall|k: int|
                0 <= k < i ==> ((#[trigger] r_in.children@[k]) is Never ==> rc.children@[k]
                    is Never),
            forall|k: int|
                i <= k < n && s0.stores@[(#[trigger] r_in.array.cells@[k]) as int].ready
                    ==> sys.stores@[r_in.array.cells@[k] as int].ready,
            forall|k: int|
                0 <= k < i && s0.stores@[(#[trigger] r_in.array.cells@[k]) as int].ready ==> ((
                r_in.children@[k]) matches Op::Counter { remaining, value, self_wake } && self_wake
                    ==> sys.stores@[r_in.array.cells@[k] as int].ready),
            forall|k: int, c: usize|
                0 <= k < n && #[trigger] op_owns_cell(rc.children@[k], c)
                    ==> !r_in.array.owns_cell(c),
            (forall|k: int| 0 <= k < n ==> crate::future::op_leaf(#[trigger] r_in.children@[k]))
                ==> (sys.guards.refs@ == s_reg.guards.refs@ && sys.guards.val_links@
                == s_reg.guards.val_links@),
            poll_frame(Op::Race(r_in), s0, *sys),
        decreases n - i,
    {
        let ghost sp = *sys;
        let guard_opt = rc.array.child_guard_ptr(sys, i);
        let h = guard_opt.unwrap();
        proof {
            assert(r_in.array.cells@[i as int] < sp.cell_count());
            assert(r_in.array.owns_cell(r_in.array.cells@[i as int]));
            assert(op_owns_cell(Op::Race(r_in), r_in.array.cells@[i as int]));
            assert forall|v: usize| v < sp.guards.val_count() implies ((
            #[trigger] sys.guards.values@[v as int]) is Some == (sp.guards.values@[v as int]
                is Some)) by {
                assert(sp.guards.val_alive(r_in.array.children@[i as int].id));
            }
            assert forall|cc: usize|
                cc < sp.cell_count() && !op_owns_cell(Op::Race(r_in), cc) implies (
            #[trigger] sys.stores@[cc as int]).parent == sp.stores@[cc as int].parent && (
            sp.stores@[cc as int].ready ==> sys.stores@[cc as int].ready) by {
                assert(cc != r_in.array.cells@[i as int]);
            }
            assert(poll_frame(Op::Race(r_in), sp, *sys));
            lemma_poll_frame_trans(Op::Race(r_in), s0, sp, *sys);
            lemma_children_wf_step(rc.children@, sp, *sys);
        }
        let ghost sp2 = *sys;
        let woken_opt = rc.array.take_woken(sys, i);
        let woken = woken_opt.unwrap();
        proof {
            assert(op_owns_cell(Op::Race(r_in), r_in.array.cells@[i as int]));
            assert forall|cc: usize|
                cc < sp2.cell_count() && !op_owns_cell(Op::Race(r_in), cc) implies (
            #[trigger] sys.stores@[cc as int]).parent == sp2.stores@[cc as int].parent && (
            sp2.stores@[cc as int].ready ==> sys.stores@[cc as int].ready) by {
                assert(cc != r_in.array.cells@[i as int]);
            }
            assert(poll_frame(Op::Race(r_in), sp2, *sys));
            lemma_poll_frame_trans(Op::Race(r_in), s0, sp2, *sys);
            lemma_children_wf_step(rc.children@, sp2, *sys);
        }
        if woken {
            let ghost sp3 = *sys;
            let ghost children_before = rc.children@;
            let child = rc.children.remove(i);
            let ghost child_g = child;
            proof {
                assert(decreases_to!(r_in => r_in.children));
                assert(decreases_to!(r_in.children => r_in.children@));
                assert(decreases_to!(r_in.children@ => r_in.children@[i as int]));
                assert(child_g == r_in.children@[i as int]);
            }
            let ghost child1_g;
            let ghost res_g;
            let (child1, res) = poll_op(child, sys, h);
            proof {
                child1_g = child1;
                res_g = res;
            }
            rc.children.insert(i, child1);
            proof {
                assert(rc.children@ =~= children_before.update(i as int, child1));
                assert forall|c: usize| op_owns_cell(child_g, c) implies op_owns_cell(
                    Op::Race(r_in),
                    c,
                ) by {
                    assert(op_owns_cell(r_in.children@[i as int], c));
                }
                lemma_poll_frame_widen(child_g, Op::Race(r_in), sp3, *sys);
                lemma_poll_frame_trans(Op::Race(r_in), s0, sp3, *sys);
                assert forall|k: int| 0 <= k < n implies op_wf(#[trigger] rc.children@[k], *sys) by {
                    if k == i {
                    } else {
                        lemma_op_wf_preserve(children_before[k], sp3, *sys);
                    }
                }
                lemma_array_wf_preserve(r_in.array, sp3, *sys);
                // how the visited child stepped, and what its self-wake left
                let cell_i = r_in.array.cells@[i as int];
                assert(sp3.guards.val_value(h.id) == Some(cell_i));
                match child_g {
                    Op::Counter { remaining, value, self_wake } => {
                        if res_g is Pending {
                            assert(remaining > 1);
                        }
                        if self_wake {
                            assert(sys.stores@[cell_i as int].ready);
                        }
                    },
                    Op::Never => {
                        assert(child1_g is Never);
                    },
                    _ => {},
                }
                // flags of the bank's other cells survive this visit
                assert forall|k: int|
                    0 <= k < n && k != i && sp3.stores@[(r_in.array.cells@[k]) as int].ready
                        implies sys.stores@[(r_in.array.cells@[k]) as int].ready by {
                    assert(r_in.array.owns_cell(r_in.array.cells@[k]));
                    assert(!op_owns_cell(r_in.children@[i as int], r_in.array.cells@[k]));
                }
                // the visited child can only have shed cells
                assert forall|k: int, c: usize|
                    0 <= k < n && #[trigger] op_owns_cell(rc.children@[k], c)
                        implies !r_in.array.owns_cell(c) by {
                    if k == i {
                        assert(op_owns_cell(r_in.children@[i as int], c));
                    }
                }
                // a leaf poll leaves every guard link untouched
                if forall|k: int| 0 <= k < n ==> crate::future::op_leaf(
                    #[trigger] r_in.children@[k],
                ) {
                    assert(crate::future::op_leaf(r_in.children@[i as int]));
                    assert(sys.guards == sp3.guards);
                }
            }
            match res {
                Poll::Ready(v) => {
                    proof {
                        assert(!(r_in.children@[i as int] is Never));
                        assert(op_done(rc.children@[i as int]));
                        assert(exists|k: int|
                            0 <= k < rc.children@.len() && op_done(#[trigger] rc.children@[k]));
                        assert forall|c: usize| race_owns_cell(rc, c) implies race_owns_cell(
                            r_in,
                            c,
                        ) by {
                            if !r_in.array.owns_cell(c) {
                                let k = choose|k: int|
                                    0 <= k < rc.children@.len() && op_owns_cell(
                                        #[trigger] rc.children@[k],
                                        c,
                                    );
                                if k < i {
                                    assert(op_owns_cell(r_in.children@[k], c));
                                } else if k == i {
                                    assert(op_owns_cell(child_g, c));
                                    assert(op_owns_cell(r_in.children@[k], c));
                                } else {
                                    assert(rc.children@[k] == r_in.children@[k]);
                                }
                            }
                        }
                    }
                    let result = (rc, Poll::Ready(Val::Tagged(i, Box::new(v))));
                    proof {
                        assert(result.1 is Ready);
                        assert(0 <= i < result.0.children@.len());
                        assert(op_done(result.0.children@[i as int]));
                        assert(exists|k: int|
                            0 <= k < result.0.children@.len() && op_done(
                                #[trigger] result.0.children@[k],
                            ));
                    }
                    return result;
                },
                Poll::Pending => {},
            }
        } else {
            proof {
                if s0.stores@[(r_in.array.cells@[i as int]) as int].ready {
                    assert(woken);
                    assert(false);
                }
            }
        }
        proof {
            assert forall|k: int|
                0 <= k < n && k != i && sp.stores@[(#[trigger] r_in.array.cells@[k]) as int].ready
                    implies sys.stores@[(r_in.array.cells@[k]) as int].ready by {
                if k < i {
                    assert(r_in.array.cells@[k] != r_in.array.cells@[i as int]);
                } else {
                    assert(r_in.array.cells@[i as int] != r_in.array.cells@[k]);
                }
            }
        }
        i = i + 1;
    }
    proof {
        assert forall|c: usize| race_owns_cell(rc, c) implies race_owns_cell(r_in, c) by {
            if !r_in.array.owns_cell(c) {
                let k = choose|k: int|
                    0 <= k < rc.children@.len() && op_owns_cell(#[trigger] rc.children@[k], c);
                assert(op_owns_cell(r_in.children@[k], c));
            }
        }
    }
    (rc, Poll::Pending)
}

/// Combines pollable operations into one that completes with the first of
/// them to complete, tagged with its declaration index.
pub trait Race: Sized {
    /// The operations being combined, in declaration order.
    spec fn race_children(self) -> Seq<Op>;

    /// Builds the OR-join, allocating its wake bank in `sys`.
    fn race(self, sys: &mut WakeSystem) -> (r: RaceOp)
        requires
            old(sys).wf(),
            forall|i: int|
                0 <= i < self.race_children().len() ==> op_wf(
                    #[trigger] self.race_children()[i],
                    *old(sys),
                ) && !op_done(self.race_children()[i]),
        ensures
            final(sys).wf(),
            race_wf(r, *final(sys)),
            r.children@ == self.race_children(),
            final(sys).cell_count() >= old(sys).cell_count(),
            final(sys).guards.val_count() >= old(sys).guards.val_count(),
            final(sys).guards.ref_count() >= old(sys).guards.ref_count(),
            forall|c: usize|
                c < old(sys).cell_count() ==> final(sys).stores@[c as int] == old(sys).stores@[
                    c as int
                ],
            forall|v: usize|
                v < old(sys).guards.val_count() ==> final(sys).guards.values@[v as int] == old(
                    sys,
                ).guards.values@[v as int],
            forall|r0: usize|
                r0 < old(sys).guards.ref_count() ==> final(sys).guards.refs@[r0 as int] == old(
                    sys,
                ).guards.refs@[r0 as int],
            forall|i: int|
                0 <= i < r.children@.len() ==> final(sys).stores@[(#[trigger] r.array.cells@[
                    i
                ]) as int] == (WakeStore { ready: true, parent: None }),
    ;
}

impl Race for Vec<Op> {
    open spec fn race_children(self) -> Seq<Op> {
        self@
    }

    fn race(self, sys: &mut WakeSystem) -> (r: RaceOp) {
        let ghost s0 = *old(sys);
        let ghost children = self@;
        let n = self.len();
        let array = WakeArray::new(sys, n);
        let ghost s1 = *sys;
        proof {
            assert forall|k: int| 0 <= k < n implies op_wf(#[trigger] children[k], s1) by {
                assert(op_wf(self.race_children()[k], s0));
                assert(op_wf(children[k], s0));
                lemma_op_wf_preserve(children[k], s0, s1);
            }
            assert forall|k: int, c: usize|
                0 <= k < n && #[trigger] op_owns_cell(children[k], c) implies !array.owns_cell(
                c,
            ) by {
                assert(op_wf(self.race_children()[k], s0));
                assert(op_wf(children[k], s0));
                crate::future::lemma_owned_cell_bound(children[k], s0, c);
                if array.owns_cell(c) {
                    let idx = choose|idx: int|
                        0 <= idx < array.cells@.len() && (#[trigger] array.cells@[idx]) == c;
                    assert(false);
                }
            }
        }
        RaceOp { children: self, array }
    }
}

/// Pairs one operation with another into a two-slot race.
pub trait RaceExt: Sized {
    /// This value, seen as a pollable operation.
    spec fn as_race_op(self) -> Op;

    /// Builds the two-slot race of `self` and `other`.
    fn race_with(self, other: Self, sys: &mut WakeSystem) -> (r: RaceOp)
        requires
            old(sys).wf(),
            op_wf(self.as_race_op(), *old(sys)),
            !op_done(self.as_race_op()),
            op_wf(other.as_race_op(), *old(sys)),
            !op_done(other.as_race_op()),
        ensures
            final(sys).wf(),
            race_wf(r, *final(sys)),
            r.children@.len() == 2,
            r.children@[0] == self.as_race_op(),
            r.children@[1] == other.as_race_op(),
            forall|i: int|
                0 <= i < r.children@.len() ==> final(sys).stores@[(#[trigger] r.array.cells@[
                    i
                ]) as int] == (WakeStore { ready: true, parent: None }),
    ;
}

impl RaceExt for Op {
    open spec fn as_race_op(self) -> Op {
        self
    }

    fn race_with(self, other: Op, sys: &mut WakeSystem) -> (r: RaceOp) {
        let mut children: Vec<Op> = Vec::new();
        children.push(self);
        children.push(other);
        children.race(sys)
    }
}

} // verus!
