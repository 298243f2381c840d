//! The N-ary AND-join combinator.
//!
//! A join owns one completion wrapper and one wake cell per child,
//! declaration-order-indexed.  Each poll registers the supplied parent
//! handle on the bank of cells, then visits the slots strictly in
//! declaration order: a slot already complete counts as ready; a slot whose
//! cell was woken since the last check is polled through its own cell
//! (never otherwise: the never-poll-without-a-wake discipline).  The join is
//! ready only when every slot is, and then yields every output in
//! declaration order, independent of completion order.

use vstd::prelude::*;

use crate::future::{
    lemma_array_wf_preserve, lemma_md_wf_preserve, lemma_poll_frame_trans, lemma_poll_frame_widen,
    op_done, op_owns_cell, op_wf, poll_frame, Op,
};
use crate::guard::ValueGuard;
use crate::maybe_done::{maybe_done, md_done, md_owns_cell, md_wf, poll_maybe_done, MaybeDone,
    MaybeDoneState};
use crate::val::{Poll, Val};
use crate::wake::{WakeArray, WakeStore, WakeSystem};

verus! {

broadcast use vstd::std_specs::vec::axiom_vec_index_decreases, vstd::seq::group_seq_axioms;

/// State of an N-ary AND-join: one completion wrapper and one wake cell per
/// child, declaration-order-indexed.
#[derive(Debug)]
pub struct JoinOp {
    pub slots: Vec<MaybeDone>,
    pub array: WakeArray,
}

/// One completion wrapper per wake cell, at least one child, every slot
/// well-formed.
pub open spec fn join_wf(j: JoinOp, sys: WakeSystem) -> bool
    decreases j,
{
    &&& j.array.wf(sys)
    &&& j.slots@.len() == j.array.len()
    &&& j.slots@.len() >= 1
    &&& forall|i: int| 0 <= i < j.slots@.len() ==> md_wf(#[trigger] j.slots@[i], sys)
    &&& forall|k: int, c: usize|
        0 <= k < j.slots@.len() && #[trigger] md_owns_cell(j.slots@[k], c) ==> !j.array.owns_cell(
            c,
        )
}

/// Cell `c` belongs to the join's own bank or to a still-running child.
pub open spec fn join_owns_cell(j: JoinOp, c: usize) -> bool
    decreases j,
{
    ||| j.array.owns_cell(c)
    ||| exists|i: int| 0 <= i < j.slots@.len() && md_owns_cell(#[trigger] j.slots@[i], c)
}

/// How one poll steps a join.
///
/// The bank is untouched; the arity is fixed.  A slot that had already
/// completed keeps its memoized output (the inner operation is never
/// polled again), until the join completes as a whole and every output is
/// taken.  The join is ready exactly when every slot ends complete, and a
/// join all of whose slots had already completed is ready now, yielding the
/// memoized outputs in declaration order, whatever order they completed in.
///
/// Progress is owed, not optional: a slot whose cell was ready at entry is
/// visited, so a leaf counter there advances exactly one count and completes
/// exactly at its target (and re-arms its cell when it self-wakes), while a
/// never-ready leaf stays exactly what it is.  When every slot is a leaf,
/// the bank's parent link ends registered to the supplied handle.
pub open spec fn join_post(
    j0: JoinOp,
    j1: JoinOp,
    wk_id: usize,
    s0: WakeSystem,
    s1: WakeSystem,
    r: Poll<Val>,
) -> bool {
    &&& j1.array == j0.array
    &&& j1.slots@.len() == j0.slots@.len()
    &&& forall|i: int|
        0 <= i < j0.slots@.len() ==> ((#[trigger] j0.slots@[i]).state matches MaybeDoneState::Done(
            v,
        ) ==> (j1.slots@[i].state == MaybeDoneState::Done(v) || (r is Ready && j1.slots@[i].state
            is Gone)))
    &&& (r is Ready <==> (forall|i: int|
        0 <= i < j1.slots@.len() ==> (#[trigger] j1.slots@[i]).state is Gone))
    &&& (r is Pending ==> forall|i: int|
        0 <= i < j1.slots@.len() ==> !((#[trigger] j1.slots@[i]).state is Gone))
    &&& (r matches Poll::Ready(out) ==> (out matches Val::List(outs) && outs@.len()
        == j0.slots@.len() && (forall|i: int|
        0 <= i < j0.slots@.len() ==> ((#[trigger] j0.slots@[i]).state
            matches MaybeDoneState::Done(v) ==> outs@[i] == v)) && (forall|i: int|
        0 <= i < j0.slots@.len() ==> ((#[trigger] j0.slots@[i]).state
            matches MaybeDoneState::Future(f) ==> (*f matches Op::Counter {
            remaining,
            value,
            self_wake,
        } ==> outs@[i] == Val::Int(value))))))
    &&& ((forall|i: int| 0 <= i < j0.slots@.len() ==> (#[trigger] j0.slots@[i]).state is Done)
        ==> r is Ready)
    &&& forall|i: int|
        0 <= i < j0.slots@.len() ==> crate::maybe_done::md_counter_step(
            #[trigger] j0.slots@[i],
            j1.slots@[i],
            r is Ready,
        )
    &&& (r is Ready <==> (forall|i: int|
        0 <= i < j1.slots@.len() ==> md_done(#[trigger] j1.slots@[i])))
    &&& forall|i: int|
        0 <= i < j0.slots@.len() && s0.stores@[j0.array.cells@[i] as int].ready
            ==> crate::maybe_done::md_counter_step_strict(
            #[trigger] j0.slots@[i],
            j1.slots@[i],
            r is Ready,
        )
    &&& forall|i: int|
        0 <= i < j0.slots@.len() ==> ((#[trigger] j0.slots@[i]).state
            matches MaybeDoneState::Future(f) && *f is Never ==> (j1.slots@[i].state
            matches MaybeDoneState::Future(f2) && *f2 is Never))
    &&& forall|i: int|
        0 <= i < j0.slots@.len() && s0.stores@[j0.array.cells@[i] as int].ready ==> ((
        #[trigger] j0.slots@[i]).state matches MaybeDoneState::Future(f) ==> ((*f)
            matches Op::Counter { remaining, value, self_wake } && self_wake
            ==> s1.stores@[j0.array.cells@[i] as int].ready))
    &&& ((forall|i: int| 0 <= i < j0.slots@.len() ==> crate::maybe_done::md_leaf(
        #[trigger] j0.slots@[i],
    )) ==> (s1.guards.ref_link(j0.array.parent.id) == Some(wk_id) && s1.guards.val_link(wk_id)
        == Some(j0.array.parent.id)))
}

/// On the poll that completes the join, every slot still running at entry
/// was completed by one poll of its own operation, through its own wake
/// handle: whatever that operation promises of its output
/// ([`crate::future::poll_op_post`]) holds of the entry at its declaration
/// index.
pub open spec fn join_outputs_pinned(j0: JoinOp, r: Poll<Val>) -> bool {
    r matches Poll::Ready(out) ==> (out matches Val::List(outs) ==> forall|i: int|
        0 <= i < j0.slots@.len() ==> ((#[trigger] j0.slots@[i]).state
            matches MaybeDoneState::Future(f) ==> (exists|op1: Op, sa: WakeSystem, sb: WakeSystem|
            crate::future::poll_op_post(
                *f,
                op1,
                j0.array.children@[i].id,
                sa,
                sb,
                Poll::<Val>::Ready(outs@[i]),
            ))))
}

/// Slot well-formedness mentions only existence and liveness, so it
/// survives any step that destroys nothing.
proof fn lemma_slots_wf_step(slots: Seq<MaybeDone>, s0: WakeSystem, s1: WakeSystem)
    requires
        forall|k: int| 0 <= k < slots.len() ==> md_wf(#[trigger] slots[k], s0),
        s1.cell_count() >= s0.cell_count(),
        s1.guards.val_count() >= s0.guards.val_count(),
        s1.guards.ref_count() >= s0.guards.ref_count(),
        forall|v: usize|
            v < s0.guards.val_count() && s0.guards.values@[v as int] is Some ==> (
            #[trigger] s1.guards.values@[v as int]) is Some,
        forall|r: usize|
            r < s0.guards.ref_count() && s0.guards.refs@[r as int].alive ==> (
            #[trigger] s1.guards.refs@[r as int]).alive,
    ensures
        forall|k: int| 0 <= k < slots.len() ==> md_wf(#[trigger] slots[k], s1),
{
    assert forall|k: int| 0 <= k < slots.len() implies md_wf(#[trigger] slots[k], s1) by {
        lemma_md_wf_preserve(slots[k], s0, s1);
    }
}

/// Polls the join.  Registers `wk` as the parent of every cell in the bank,
/// visits the slots in declaration order, and completes only when every
/// slot has.  Re-polling a join whose output was produced is a contract
/// violation and is excluded by precondition (a produced join has only
/// emptied slots).
#[verifier::loop_isolation(false)]
#[verifier::rlimit(80)]
#[verifier::spinoff_prover]
pub fn poll_join(j_in: JoinOp, sys: &mut WakeSystem, wk: &ValueGuard) -> (res: (JoinOp, Poll<Val>))
    requires
        old(sys).wf(),
        join_wf(j_in, *old(sys)),
        forall|i: int| 0 <= i < j_in.slots@.len() ==> !((#[trigger] j_in.slots@[i]).state is Gone),
        old(sys).guards.val_alive(wk.id),
    ensures
        final(sys).wf(),
        join_wf(res.0, *final(sys)),
        poll_frame(Op::Join(j_in), *old(sys), *final(sys)),
        forall|c: usize| join_owns_cell(res.0, c) ==> join_owns_cell(j_in, c),
        res.1 is Ready <==> (exists|i: int|
            0 <= i < res.0.slots@.len() && (#[trigger] res.0.slots@[i]).state is Gone),
        join_post(j_in, res.0, wk.id, *old(sys), *final(sys), res.1),
        join_outputs_pinned(j_in, res.1),
    decreases j_in,
{
    let ghost s0 = *old(sys);
    let mut j = j_in;
    j.array.register_parent(sys, wk);
    let ghost s_reg = *sys;
    proof {
        assert(poll_frame(Op::Join(j_in), s0, *sys));
        lemma_slots_wf_step(j.slots@, s0, *sys);
    }
    let n = j.slots.len();
    let mut ready = true;
    let mut i: usize = 0;
    while i < n
        invariant
            sys.wf(),
            n == j_in.slots@.len(),
            j.slots@.len() == n,
            j.array == j_in.array,
            j.array.wf(*sys),
            n == j_in.array.len(),
            n >= 1,
            i <= n,
            forall|k: int| i <= k < n ==> j.slots@[k] == j_in.slots@[k],
            forall|k: int| 0 <= k < n ==> md_wf(#[trigger] j.slots@[k], *sys),
            forall|k: int| 0 <= k < n ==> !((#[trigger] j.slots@[k]).state is Gone),
            forall|k: int|
                0 <= k < i ==> ((#[trigger] j_in.slots@[k]).state matches MaybeDoneState::Done(v)
                    ==> j.slots@[k].state == MaybeDoneState::Done(v)),
            forall|k: int, c: usize|
                0 <= k < i && #[trigger] md_owns_cell(j.slots@[k], c) ==> md_owns_cell(
                    j_in.slots@[k],
                    c,
                ),
            ready == (forall|k: int| 0 <= k < i ==> md_done(#[trigger] j.slots@[k])),
            forall|k: int|
                0 <= k < i ==> crate::maybe_done::md_counter_step(
                    #[trigger] j_in.slots@[k],
                    j.slots@[k],
                    false,
                ),
            forall|k: int|
                0 <= k < i && s0.stores@[j_in.array.cells@[k] as int].ready
                    ==> crate::maybe_done::md_counter_step_strict(
                    #[trigger] j_in.slots@[k],
                    j.slots@[k],
                    false,
                ),
            forall|k: int|
                0 <= k < i ==> ((#[trigger] j_in.slots@[k]).state
                    matches MaybeDoneState::Future(f) && *f is Never ==> (j.slots@[k].state
                    matches MaybeDoneState::Future(f2) && *f2 is Never)),
            forall|k: int|
                i <= k < n && s0.stores@[(#[trigger] j_in.array.cells@[k]) as int].ready
                    ==> sys.stores@[j_in.array.cells@[k] as int].ready,
            forall|k: int|
                0 <= k < i && s0.stores@[(#[trigger] j_in.array.cells@[k]) as int].ready ==> ((
                j_in.slots@[k]).state matches MaybeDoneState::Future(f) ==> ((*f)
                    matches Op::Counter { remaining, value, self_wake } && self_wake
                    ==> sys.stores@[j_in.array.cells@[k] as int].ready)),
            forall|k: int, c: usize|
                0 <= k < n && #[trigger] md_owns_cell(j.slots@[k], c) ==> !j_in.array.owns_cell(c),
            (forall|k: int| 0 <= k < n ==> crate::maybe_done::md_leaf(#[trigger] j_in.slots@[k]))
                ==> (sys.guards.refs@ == s_reg.guards.refs@ && sys.guards.val_links@
                == s_reg.guards.val_links@),
            forall|k: int|
                0 <= k < i ==> ((#[trigger] j_in.slots@[k]).state matches MaybeDoneState::Future(f)
                    ==> (md_done(j.slots@[k]) ==> (j.slots@[k].state
                    matches MaybeDoneState::Done(v) && (exists|
                    op1: Op,
                    sa: WakeSystem,
                    sb: WakeSystem,
                |
                    crate::future::poll_op_post(
                        *f,
                        op1,
                        j_in.array.children@[k].id,
                        sa,
                        sb,
                        Poll::<Val>::Ready(v),
                    ))))),
            poll_frame(Op::Join(j_in), s0, *sys),
        decreases n - i,
    {
        let ghost slots_top = j.slots@;
        let ghost sp = *sys;
        let guard_opt = j.array.child_guard_ptr(sys, i);
        let h = guard_opt.unwrap();
        proof {
            assert(j_in.array.cells@[i as int] < sp.cell_count());
            assert(j_in.array.owns_cell(j_in.array.cells@[i as int]));
            assert(op_owns_cell(Op::Join(j_in), j_in.array.cells@[i as int]));
            assert forall|v: usize| v < sp.guards.val_count() implies ((
            #[trigger] sys.guards.values@[v as int]) is Some == (sp.guards.values@[v as int]
                is Some)) by {
                assert(sp.guards.val_alive(j_in.array.children@[i as int].id));
            }
            assert forall|cc: usize|
                cc < sp.cell_count() && !op_owns_cell(Op::Join(j_in), cc) implies (
            #[trigger] sys.stores@[cc as int]).parent == sp.stores@[cc as int].parent && (
            sp.stores@[cc as int].ready ==> sys.stores@[cc as int].ready) by {
                assert(cc != j_in.array.cells@[i as int]);
            }
            assert(poll_frame(Op::Join(j_in), sp, *sys));
            lemma_poll_frame_trans(Op::Join(j_in), s0, sp, *sys);
            lemma_slots_wf_step(j.slots@, sp, *sys);
        }
        let ghost sp2 = *sys;
        let woken_opt = j.array.take_woken(sys, i);
        let woken = woken_opt.unwrap();
        proof {
            assert(op_owns_cell(Op::Join(j_in), j_in.array.cells@[i as int]));
            assert forall|cc: usize|
                cc < sp2.cell_count() && !op_owns_cell(Op::Join(j_in), cc) implies (
            #[trigger] sys.stores@[cc as int]).parent == sp2.stores@[cc as int].parent && (
            sp2.stores@[cc as int].ready ==> sys.stores@[cc as int].ready) by {
                assert(cc != j_in.array.cells@[i as int]);
            }
            assert(poll_frame(Op::Join(j_in), sp2, *sys));
            lemma_poll_frame_trans(Op::Join(j_in), s0, sp2, *sys);
            lemma_slots_wf_step(j.slots@, sp2, *sys);
        }
        let slot_done: bool;
        if woken {
            let ghost sp3 = *sys;
            let ghost slots_before = j.slots@;
            let slot = j.slots.remove(i);
            let ghost slot_g = slot;
            proof {
                assert(decreases_to!(j_in => j_in.slots));
                assert(decreases_to!(j_in.slots => j_in.slots@));
                assert(decreases_to!(j_in.slots@ => j_in.slots@[i as int]));
                assert(slot_g == j_in.slots@[i as int]);
            }
            let ghost slot1_g;
            let (slot1, r) = poll_maybe_done(slot, sys, h);
            proof {
                slot1_g = slot1;
            }
            slot_done = r.is_ready();
            j.slots.insert(i, slot1);
            proof {
                assert(j.slots@ =~= slots_before.update(i as int, slot1));
                // the child's step lies within the join's frame
                match slot_g.state {
                    MaybeDoneState::Future(f) => {
                        assert forall|c: usize| op_owns_cell(*f, c) implies op_owns_cell(
                            Op::Join(j_in),
                            c,
                        ) by {
                            assert(md_owns_cell(j_in.slots@[i as int], c));
                        }
                        lemma_poll_frame_widen(*f, Op::Join(j_in), sp3, *sys);
                    },
                    _ => {
                        assert(*sys == sp3);
                    },
                }
                assert(poll_frame(Op::Join(j_in), sp3, *sys));
                lemma_poll_frame_trans(Op::Join(j_in), s0, sp3, *sys);
                // other slots stay well-formed
                assert forall|k: int| 0 <= k < n implies md_wf(#[trigger] j.slots@[k], *sys) by {
                    if k == i {
                    } else {
                        lemma_md_wf_preserve(slots_before[k], sp3, *sys);
                    }
                }
                lemma_array_wf_preserve(j_in.array, sp3, *sys);
                // how the visited slot stepped, and what its self-wake left
                let cell_i = j_in.array.cells@[i as int];
                assert(sp3.guards.val_value(h.id) == Some(cell_i));
                match slot_g.state {
                    MaybeDoneState::Future(f) => {
                        if r is Ready {
                            let v = slot1_g.state->Done_0;
                            let op1 = choose|op1: Op|
                                crate::future::poll_op_post(
                                    *f,
                                    op1,
                                    h.id,
                                    sp3,
                                    *sys,
                                    Poll::<Val>::Ready(v),
                                );
                            match *f {
                                Op::Counter { remaining, value, self_wake } => {
                                    assert(remaining == 1);
                                    assert(v == Val::Int(value));
                                    if self_wake {
                                        assert(sys.stores@[cell_i as int].ready);
                                    }
                                },
                                _ => {},
                            }
                            assert(!(*f is Never));
                        } else {
                            let f2 = slot1_g.state->Future_0;
                            assert(crate::future::poll_op_post(
                                *f,
                                *f2,
                                h.id,
                                sp3,
                                *sys,
                                Poll::<Val>::Pending,
                            ));
                            match *f {
                                Op::Counter { remaining, value, self_wake } => {
                                    assert(remaining > 1);
                                    assert(*f2 == (Op::Counter {
                                        remaining: (remaining - 1) as u64,
                                        value,
                                        self_wake,
                                    }));
                                    if self_wake {
                                        assert(sys.stores@[cell_i as int].ready);
                                    }
                                },
                                _ => {},
                            }
                        }
                        assert(crate::maybe_done::md_counter_step_strict(slot_g, slot1_g, false));
                    },
                    _ => {},
                }
                // flags of the bank's other cells survive this visit
                assert forall|k: int|
                    0 <= k < n && k != i && sp3.stores@[(j_in.array.cells@[k]) as int].ready
                        implies sys.stores@[(j_in.array.cells@[k]) as int].ready by {
                    assert(j_in.array.owns_cell(j_in.array.cells@[k]));
                    assert(!md_owns_cell(j_in.slots@[i as int], j_in.array.cells@[k]));
                    match slot_g.state {
                        MaybeDoneState::Future(f) => {
                            assert(!op_owns_cell(*f, j_in.array.cells@[k]));
                        },
                        _ => {},
                    }
                }
                // the visited slot can only have shed cells, so the bank's
                // cells stay outside every slot
                assert forall|k: int, c: usize|
                    0 <= k < n && #[trigger] md_owns_cell(j.slots@[k], c)
                        implies !j_in.array.owns_cell(c) by {
                    if k == i {
                        assert(md_owns_cell(j_in.slots@[i as int], c));
                    }
                }
                // a slot completing now is pinned by its own poll
                match slot_g.state {
                    MaybeDoneState::Future(f) => {
                        if r is Ready {
                            let v = slot1_g.state->Done_0;
                            let op1 = choose|op1: Op|
                                crate::future::poll_op_post(
                                    *f,
                                    op1,
                                    h.id,
                                    sp3,
                                    *sys,
                                    Poll::<Val>::Ready(v),
                                );
                            assert(h.id == j_in.array.children@[i as int].id);
                            assert(crate::future::poll_op_post(
                                *f,
                                op1,
                                j_in.array.children@[i as int].id,
                                sp3,
                                *sys,
                                Poll::<Val>::Ready(v),
                            ));
                        }
                    },
                    _ => {},
                }
                // a leaf poll leaves every guard link untouched
                if forall|k: int| 0 <= k < n ==> crate::maybe_done::md_leaf(
                    #[trigger] j_in.slots@[k],
                ) {
                    assert(crate::maybe_done::md_leaf(j_in.slots@[i as int]));
                    match slot_g.state {
                        MaybeDoneState::Future(f) => {
                            if r is Ready {
                                let v = slot1_g.state->Done_0;
                                let op1 = choose|op1: Op|
                                    crate::future::poll_op_post(
                                        *f,
                                        op1,
                                        h.id,
                                        sp3,
                                        *sys,
                                        Poll::<Val>::Ready(v),
                                    );
                                assert(sys.guards == sp3.guards);
                            } else {
                                assert(sys.guards == sp3.guards);
                            }
                        },
                        _ => {
                            assert(*sys == sp3);
                        },
                    }
                }
            }
        } else {
            slot_done = j.slots[i].is_done();
            proof {
                if s0.stores@[(j_in.array.cells@[i as int]) as int].ready {
                    assert(woken);
                    assert(false);
                }
            }
        }
        proof {
            // flags of unvisited cells and of earlier re-armed cells survive
            // this iteration: the bank's cells are pairwise distinct, and the
            // visited slot owns none of them
            assert forall|k: int|
                0 <= k < n && k != i && sp.stores@[(#[trigger] j_in.array.cells@[k]) as int].ready
                    implies sys.stores@[(j_in.array.cells@[k]) as int].ready by {
                if k < i {
                    assert(j_in.array.cells@[k] != j_in.array.cells@[i as int]);
                } else {
                    assert(j_in.array.cells@[i as int] != j_in.array.cells@[k]);
                }
            }
        }
        proof {
            assert(md_done(j.slots@[i as int]) == slot_done);
        }
        let ghost ready_old = ready;
        ready = ready && slot_done;
        proof {
            assert forall|k: int| 0 <= k < i implies j.slots@[k] == slots_top[k] by {}
            if ready {
                assert forall|k: int| 0 <= k < i + 1 implies md_done(#[trigger] j.slots@[k]) by {
                    if k < i {
                        assert(md_done(slots_top[k]));
                    }
                }
            } else {
                if !ready_old {
                    let k = choose|k: int| 0 <= k < i && !(#[trigger] md_done(slots_top[k]));
                    assert(!md_done(j.slots@[k]));
                } else {
                    assert(!md_done(j.slots@[i as int]));
                }
            }
        }
        i = i + 1;
    }
    if ready {
        proof {
            assert forall|k: int| 0 <= k < n implies (#[trigger] j.slots@[k]).state is Done by {
                assert(md_done(j.slots@[k]));
            }
        }
        let ghost jmid = j;
        let ghost smid = *sys;
        let mut outs: Vec<Val> = Vec::new();
        let mut k2: usize = 0;
        while k2 < n
            invariant
                k2 <= n,
                j.slots@.len() == n,
                n == jmid.slots@.len(),
                outs@.len() == k2,
                j.array == jmid.array,
                *sys == smid,
                forall|m: int| k2 <= m < n ==> j.slots@[m] == jmid.slots@[m],
                forall|m: int| 0 <= m < n ==> (#[trigger] jmid.slots@[m]).state is Done,
                forall|m: int| 0 <= m < k2 ==> (#[trigger] j.slots@[m]).state is Gone,
                forall|m: int|
                    0 <= m < k2 ==> (#[trigger] outs@[m]) == jmid.slots@[m].state->Done_0,
            decreases n - k2,
        {
            let ghost slots_before = j.slots@;
            let mut slot = j.slots.remove(k2);
            let out_opt = slot.take_output();
            let v = out_opt.unwrap();
            j.slots.insert(k2, slot);
            outs.push(v);
            proof {
                assert(j.slots@ =~= slots_before.update(k2 as int, slot));
            }
            k2 = k2 + 1;
        }
        proof {
            assert(j.slots@[0].state is Gone);
            assert forall|m: int|
                0 <= m < n implies crate::maybe_done::md_counter_step(
                #[trigger] j_in.slots@[m],
                j.slots@[m],
                true,
            ) by {
                assert(crate::maybe_done::md_counter_step(j_in.slots@[m], jmid.slots@[m], false));
                assert(jmid.slots@[m].state is Done);
                assert(j.slots@[m].state is Gone);
            }
            assert forall|m: int|
                0 <= m < n implies ((#[trigger] j_in.slots@[m]).state
                matches MaybeDoneState::Future(f) ==> (*f matches Op::Counter {
                remaining,
                value,
                self_wake,
            } ==> outs@[m] == Val::Int(value))) by {
                match j_in.slots@[m].state {
                    MaybeDoneState::Future(f) => {
                        assert(crate::maybe_done::md_counter_step(
                            j_in.slots@[m],
                            jmid.slots@[m],
                            false,
                        ));
                        assert(jmid.slots@[m].state is Done);
                        assert(outs@[m] == jmid.slots@[m].state->Done_0);
                    },
                    _ => {},
                }
            }
            assert forall|m: int|
                0 <= m < n implies ((#[trigger] j_in.slots@[m]).state
                matches MaybeDoneState::Done(v) ==> outs@[m] == v) by {
                if j_in.slots@[m].state is Done {
                    assert(jmid.slots@[m].state == j_in.slots@[m].state);
                    assert(outs@[m] == jmid.slots@[m].state->Done_0);
                }
            }
            assert forall|c: usize| join_owns_cell(j, c) implies join_owns_cell(j_in, c) by {
                if !j_in.array.owns_cell(c) {
                    let k = choose|k: int|
                        0 <= k < j.slots@.len() && md_owns_cell(#[trigger] j.slots@[k], c);
                    assert(!md_owns_cell(j.slots@[k], c));
                }
            }
        }
        let result = (j, Poll::Ready(Val::List(outs)));
        proof {
            assert(result.1 matches Poll::Ready(out) && out == Val::List(outs));
            assert forall|m: int|
                0 <= m < n implies ((#[trigger] j_in.slots@[m]).state
                matches MaybeDoneState::Future(f) ==> (exists|op1: Op, sa: WakeSystem, sb: WakeSystem|
                crate::future::poll_op_post(
                    *f,
                    op1,
                    j_in.array.children@[m].id,
                    sa,
                    sb,
                    Poll::<Val>::Ready(outs@[m]),
                ))) by {
                match j_in.slots@[m].state {
                    MaybeDoneState::Future(f) => {
                        assert(md_done(jmid.slots@[m]));
                    },
                    _ => {},
                }
            }
            assert forall|m: int|
                0 <= m < n && s0.stores@[j_in.array.cells@[m] as int].ready
                    implies crate::maybe_done::md_counter_step_strict(
                #[trigger] j_in.slots@[m],
                j.slots@[m],
                true,
            ) by {
                assert(crate::maybe_done::md_counter_step_strict(
                    j_in.slots@[m],
                    jmid.slots@[m],
                    false,
                ));
                assert(md_done(jmid.slots@[m]));
                assert(j.slots@[m].state is Gone);
            }
            assert forall|m: int|
                0 <= m < n implies ((#[trigger] j_in.slots@[m]).state
                matches MaybeDoneState::Future(f) ==> !(*f is Never)) by {
                match j_in.slots@[m].state {
                    MaybeDoneState::Future(f) => {
                        if *f is Never {
                            assert(jmid.slots@[m].state matches MaybeDoneState::Future(f2) && *f2
                                is Never);
                            assert(!md_done(jmid.slots@[m]));
                            assert(false);
                        }
                    },
                    _ => {},
                }
            }
            assert forall|m: int| 0 <= m < n implies md_done(#[trigger] j.slots@[m]) by {
                assert(j.slots@[m].state is Gone);
            }
            if forall|k: int| 0 <= k < n ==> crate::maybe_done::md_leaf(
                #[trigger] j_in.slots@[k],
            ) {
                assert(sys.guards.refs@ == s_reg.guards.refs@);
                assert(sys.guards.val_links@ == s_reg.guards.val_links@);
                assert(sys.guards.ref_link(j_in.array.parent.id) == Some(wk.id));
                assert(sys.guards.val_link(wk.id) == Some(j_in.array.parent.id));
            }
            assert(join_post(j_in, result.0, wk.id, s0, *sys, result.1));
        }
        result
    } else {
        proof {
            if forall|k: int| 0 <= k < n ==> (#[trigger] j_in.slots@[k]).state is Done {
                assert forall|k: int| 0 <= k < n implies md_done(#[trigger] j.slots@[k]) by {
                    assert(j_in.slots@[k].state is Done);
                    assert(j.slots@[k].state == j_in.slots@[k].state);
                }
                assert(ready);
            }
            assert forall|c: usize| join_owns_cell(j, c) implies join_owns_cell(j_in, c) by {
                if !j_in.array.owns_cell(c) {
                    let k = choose|k: int|
                        0 <= k < j.slots@.len() && md_owns_cell(#[trigger] j.slots@[k], c);
                    if k < i {
                        assert(md_owns_cell(j_in.slots@[k], c));
                    } else {
                        assert(j.slots@[k] == j_in.slots@[k]);
                    }
                }
            }
        }
        (j, Poll::Pending)
    }
}

/// Combines pollable operations into one that completes when all of them
/// have, yielding their outputs in declaration order.
pub trait Join: Sized {
    /// The operations being combined, in declaration order.
    spec fn join_children(self) -> Seq<Op>;

    /// Builds the AND-join, allocating its wake bank in `sys`.
    fn join(self, sys: &mut WakeSystem) -> (j: JoinOp)
        requires
            old(sys).wf(),
            self.join_children().len() >= 1,
            forall|i: int|
                0 <= i < self.join_children().len() ==> op_wf(
                    #[trigger] self.join_children()[i],
                    *old(sys),
                ) && !op_done(self.join_children()[i]),
        ensures
            final(sys).wf(),
            join_wf(j, *final(sys)),
            j.slots@.len() == self.join_children().len(),
            forall|i: int|
                0 <= i < j.slots@.len() ==> ((#[trigger] j.slots@[i]).state
                    matches MaybeDoneState::Future(f) && *f == self.join_children()[i]),
            final(sys).cell_count() >= old(sys).cell_count(),
            final(sys).guards.val_count() >= old(sys).guards.val_count(),
            final(sys).guards.ref_count() >= old(sys).guards.ref_count(),
            forall|c: usize|
                c < old(sys).cell_count() ==> final(sys).stores@[c as int] == old(sys).stores@[
                    c as int
                ],
            forall|v: usize|
                v < old(sys).guards.val_count() ==> final(sys).guards.values@[v as int] == old(
                    sys,
                ).guards.values@[v as int],
            forall|r: usize|
                r < old(sys).guards.ref_count() ==> final(sys).guards.refs@[r as int] == old(
                    sys,
                ).guards.refs@[r as int],
            forall|i: int|
                0 <= i < j.slots@.len() ==> final(sys).stores@[(#[trigger] j.array.cells@[i]) as int]
                    == (WakeStore { ready: true, parent: None }),
    ;
}

impl Join for Vec<Op> {
    open spec fn join_children(self) -> Seq<Op> {
        self@
    }

    #[verifier::loop_isolation(false)]
    fn join(self, sys: &mut WakeSystem) -> (j: JoinOp) {
        let ghost s0 = *old(sys);
        let ghost self_g = self;
        let ghost children = self@;
        let n = self.len();
        let array = WakeArray::new(sys, n);
        let ghost s1 = *sys;
        let mut ops = self;
        let mut slots: Vec<MaybeDone> = Vec::new();
        while ops.len() > 0
            invariant
                *sys == s1,
                slots@.len() + ops@.len() == n,
                ops@ == children.subrange(slots@.len() as int, n as int),
                forall|k: int|
                    0 <= k < slots@.len() ==> ((#[trigger] slots@[k]).state
                        matches MaybeDoneState::Future(f) && *f == children[k]),
            decreases ops@.len(),
        {
            let ghost k0 = slots@.len() as int;
            let ghost ops_top = ops@;
            let op = ops.remove(0);
            proof {
                assert(0 <= k0 <= n as int <= children.len());
                assert(ops_top.len() == n - k0);
                vstd::seq::axiom_seq_subrange_index::<Op>(children, k0, n as int, 0);
                assert(op == ops_top[0]);
                assert(ops_top[0] == children.subrange(k0, n as int)[0]);
                assert(children.subrange(k0, n as int)[0] == children[0 + k0]);
                assert(op == children[k0]);
            }
            slots.push(maybe_done(op));
            proof {
                assert(ops@ == ops_top.remove(0));
                assert forall|m: int| 0 <= m < ops@.len() implies ops@[m] == children.subrange(
                    k0 + 1,
                    n as int,
                )[m] by {
                    assert(ops_top.remove(0)[m] == ops_top[m + 1]);
                    assert(ops_top[m + 1] == children.subrange(k0, n as int)[m + 1]);
                    assert(children.subrange(k0, n as int)[m + 1] == children[m + 1 + k0]);
                    assert(children.subrange(k0 + 1, n as int)[m] == children[m + (k0 + 1)]);
                }
                assert(ops@ =~= children.subrange(k0 + 1, n as int));
            }
        }
        proof {
            assert forall|k: int| 0 <= k < n implies md_wf(#[trigger] slots@[k], s1) by {
                assert(op_wf(self_g.join_children()[k], s0));
                assert(op_wf(children[k], s0));
                crate::future::lemma_op_wf_preserve(children[k], s0, s1);
            }
            assert forall|k: int, c: usize|
                0 <= k < n && #[trigger] md_owns_cell(slots@[k], c) implies !array.owns_cell(
                c,
            ) by {
                assert(op_wf(children[k], s0));
                assert(op_owns_cell(children[k], c));
                crate::future::lemma_owned_cell_bound(children[k], s0, c);
                if array.owns_cell(c) {
                    let idx = choose|idx: int|
                        0 <= idx < array.cells@.len() && (#[trigger] array.cells@[idx]) == c;
                    assert(false);
                }
            }
        }
        JoinOp { slots, array }
    }
}

/// Pairs one operation with another into a two-slot AND-join.
pub trait JoinExt: Sized {
    /// This value, seen as a pollable operation.
    spec fn as_join_op(self) -> Op;

    /// Builds the two-slot AND-join of `self` and `other`.
    fn along_with(self, other: Self, sys: &mut WakeSystem) -> (j: JoinOp)
        requires
            old(sys).wf(),
            op_wf(self.as_join_op(), *old(sys)),
            !op_done(self.as_join_op()),
            op_wf(other.as_join_op(), *old(sys)),
            !op_done(other.as_join_op()),
        ensures
            final(sys).wf(),
            join_wf(j, *final(sys)),
            j.slots@.len() == 2,
            j.slots@[0].state matches MaybeDoneState::Future(f) && *f == self.as_join_op(),
            j.slots@[1].state matches MaybeDoneState::Future(f) && *f == other.as_join_op(),
            forall|i: int|
                0 <= i < j.slots@.len() ==> final(sys).stores@[(#[trigger] j.array.cells@[i]) as int]
                    == (WakeStore { ready: true, parent: None }),
    ;
}

impl JoinExt for Op {
    open spec fn as_join_op(self) -> Op {
        self
    }

    fn along_with(self, other: Op, sys: &mut WakeSystem) -> (j: JoinOp) {
        let mut children: Vec<Op> = Vec::new();
        children.push(self);
        children.push(other);
        children.join(sys)
    }
}

} // verus!
