//! Wake cells and the fan-in wake topology.
//!
//! A wake cell ([`WakeStore`]) owns a readiness flag (initially true, so a
//! first poll is never skipped) and an optional registered parent: a
//! reference handle of the guard space through which a wake notification is
//! forwarded.  Calling [`WakeSystem::wake`] on a cell sets its flag and
//! immediately forwards the notification up the registered parent chain, so
//! a leaf's readiness bubbles to the root driver however deep the nesting.
//! Forwarding stops at a link the guard pair has invalidated, never at a
//! dangling pointer.
//!
//! A [`WakeArray`] is a bank of N wake cells sharing one parent registration,
//! held via a guard pair so the parent link cannot dangle past either side's
//! destruction.

use vstd::prelude::*;

use crate::guard::{GuardSpace, RefGuard, ValueGuard};

verus! {

/// One wake cell: a readiness flag and the reference handle through which
/// `wake` forwards to the registered parent wake handle.
#[derive(Clone, Copy)]
pub struct WakeStore {
    pub ready: bool,
    /// Identifier of a reference handle in the owning system's guard space.
    pub parent: Option<usize>,
}

impl WakeStore {
    /// A fresh cell: ready (so the first poll is never skipped), no parent.
    pub fn new() -> (s: WakeStore)
        ensures
            s.ready,
            s.parent is None,
    {
        WakeStore { ready: true, parent: None }
    }

    /// Rebinds the parent for the next notification.
    pub fn set_parent(&mut self, parent: &RefGuard)
        ensures
            final(self).ready == old(self).ready,
            final(self).parent == Some(parent.id),
    {
        self.parent = Some(parent.id);
    }

    /// Atomically reads and clears the readiness flag.
    pub fn take_woken(&mut self) -> (woken: bool)
        ensures
            woken == old(self).ready,
            !final(self).ready,
            final(self).parent == old(self).parent,
    {
        let woken = self.ready;
        self.ready = false;
        woken
    }
}

/// The space that owns every wake cell and every wake-handle guard.
///
/// A wake handle is a [`ValueGuard`] whose value names the cell to wake, or
/// `None` for a no-op handle.
pub struct WakeSystem {
    pub guards: GuardSpace<Option<usize>>,
    pub stores: Vec<WakeStore>,
}

impl WakeSystem {
    pub open spec fn cell_count(self) -> nat {
        self.stores@.len()
    }

    /// Well-formedness: the guard space is well-formed, every registered
    /// parent names an existing reference handle, and every wake handle in
    /// the guard space names an existing cell.
    pub open spec fn wf(self) -> bool {
        &&& self.guards.wf()
        &&& forall|c: usize|
            c < self.cell_count() && (#[trigger] self.stores@[c as int]).parent is Some
                ==> self.stores@[c as int].parent->0 < self.guards.ref_count()
        &&& forall|v: usize|
            v < self.guards.val_count() ==> ((#[trigger] self.guards.values@[v as int]) matches
                Some(wp) ==> (wp matches Some(t) ==> t < self.cell_count()))
    }

    /// The cell a wake of cell `c` forwards to: the target of the wake
    /// handle that cell `c`'s parent reference handle currently reads, if
    /// every link on the way is still valid.
    pub open spec fn parent_of(self, c: int) -> Option<usize> {
        match self.stores@[c].parent {
            Some(r) => if self.guards.ref_alive(r) {
                match self.guards.read_of(r) {
                    Some(wp) => wp,
                    None => None,
                }
            } else {
                None
            },
            None => None,
        }
    }

    /// Cell `to` lies within `fuel` forwarding steps above cell `from`.
    pub open spec fn reaches(self, from: int, to: int, fuel: nat) -> bool
        decreases fuel,
    {
        ||| from == to
        ||| (fuel > 0 && (self.parent_of(from) matches Some(p) && self.reaches(
            p as int,
            to,
            (fuel - 1) as nat,
        )))
    }

    /// Creates an empty system.
    pub fn new() -> (sys: WakeSystem)
        ensures
            sys.wf(),
            sys.cell_count() == 0,
            sys.guards.val_count() == 0,
            sys.guards.ref_count() == 0,
    {
        WakeSystem { guards: GuardSpace::new(), stores: Vec::new() }
    }

    /// Adds a fresh wake cell (ready, no parent) and returns its identifier.
    pub fn new_store(&mut self) -> (c: usize)
        requires
            old(self).wf(),
        ensures
            final(self).wf(),
            c == old(self).cell_count(),
            final(self).stores@ == old(self).stores@.push(
                WakeStore { ready: true, parent: None },
            ),
            final(self).guards == old(self).guards,
    {
        let c = self.stores.len();
        self.stores.push(WakeStore::new());
        c
    }

    /// Creates a wake handle: a value cell of the guard space whose value
    /// names the cell to wake (or nothing, for a no-op handle).
    pub fn new_waker(&mut self, target: Option<usize>) -> (g: ValueGuard)
        requires
            old(self).wf(),
            target matches Some(t) ==> t < old(self).cell_count(),
        ensures
            final(self).wf(),
            g.id == old(self).guards.val_count(),
            final(self).guards.values@ == old(self).guards.values@.push(Some(target)),
            final(self).guards.val_links@ == old(self).guards.val_links@.push(None::<usize>),
            final(self).guards.refs@ == old(self).guards.refs@,
            final(self).stores@ == old(self).stores@,
            final(self).guards.val_alive(g.id),
            final(self).guards.val_value(g.id) == target,
    {
        ValueGuard::new(&mut self.guards, target)
    }

    /// Creates an unlinked reference handle in the system's guard space.
    pub fn new_ref(&mut self) -> (g: RefGuard)
        requires
            old(self).wf(),
        ensures
            final(self).wf(),
            g.id == old(self).guards.ref_count(),
            final(self).guards.refs@ == old(self).guards.refs@.push(
                crate::guard::RefSlot { alive: true, linked_value: None },
            ),
            final(self).guards.values@ == old(self).guards.values@,
            final(self).guards.val_links@ == old(self).guards.val_links@,
            final(self).stores@ == old(self).stores@,
            final(self).guards.ref_alive(g.id),
    {
        RefGuard::new(&mut self.guards)
    }

    /// Sets the readiness flag of one cell, leaving its parent as it is.
    fn mark_ready(&mut self, c: usize)
        requires
            old(self).wf(),
            c < old(self).cell_count(),
        ensures
            final(self).wf(),
            final(self).guards == old(self).guards,
            final(self).stores@ == old(self).stores@.update(
                c as int,
                WakeStore { ready: true, parent: old(self).stores@[c as int].parent },
            ),
    {
        let p = self.stores[c].parent;
        self.stores[c] = WakeStore { ready: true, parent: p };
    }

    /// Reads which cell a wake of cell `c` forwards to right now.
    fn next_cell(&self, c: usize) -> (n: Option<usize>)
        requires
            self.wf(),
            c < self.cell_count(),
        ensures
            n == self.parent_of(c as int),
            n matches Some(p) ==> p < self.cell_count(),
    {
        match self.stores[c].parent {
            None => None,
            Some(r) => {
                if self.guards.refs[r].alive {
                    match self.guards.refs[r].linked_value {
                        Some(v) => match &self.guards.values[v] {
                            Some(wp) => *wp,
                            None => vstd::pervasive::unreached(),
                        },
                        None => None,
                    }
                } else {
                    None
                }
            },
        }
    }

    /// Wakes cell `c`: sets its readiness flag and unconditionally forwards
    /// the notification up the chain of registered parents (redundant
    /// forwarding is safe; a link the guard pair has invalidated stops the
    /// chain).  Only readiness flags change, they only go from false to
    /// true, and only on cells the forwarding chain reaches.
    pub fn wake(&mut self, c: usize)
        requires
            old(self).wf(),
            c < old(self).cell_count(),
        ensures
            final(self).wf(),
            final(self).guards == old(self).guards,
            final(self).stores@.len() == old(self).stores@.len(),
            forall|j: usize|
                j < old(self).cell_count() ==> (#[trigger] final(self).stores@[j as int]).parent
                    == old(self).stores@[j as int].parent,
            forall|j: usize|
                j < old(self).cell_count() && old(self).stores@[j as int].ready ==> (
                #[trigger] final(self).stores@[j as int]).ready,
            forall|j: usize|
                j < old(self).cell_count() && (#[trigger] final(self).stores@[j as int]).ready
                    ==> old(self).stores@[j as int].ready || old(self).reaches(
                    c as int,
                    j as int,
                    old(self).cell_count(),
                ),
            final(self).stores@[c as int].ready,
            old(self).parent_of(c as int) matches Some(p) ==> final(self).stores@[p as int].ready,
            forall|j: usize|
                j < old(self).cell_count() && old(self).reaches(
                    c as int,
                    j as int,
                    old(self).cell_count(),
                ) ==> (#[trigger] final(self).stores@[j as int]).ready,
    {
        let ghost s0 = *self;
        self.mark_ready(c);
        let mut cur = c;
        let mut fuel = self.stores.len();
        let ghost mut steps: nat = 0;
        loop
            invariant
                self.wf(),
                self.guards == s0.guards,
                self.stores@.len() == s0.stores@.len(),
                c < s0.cell_count(),
                cur < s0.cell_count(),
                fuel <= s0.cell_count(),
                steps == s0.cell_count() - fuel,
                s0.reaches(c as int, cur as int, steps),
                forall|j: usize|
                    j < s0.cell_count() ==> (#[trigger] self.stores@[j as int]).parent
                        == s0.stores@[j as int].parent,
                forall|j: usize|
                    j < s0.cell_count() && s0.stores@[j as int].ready ==> (
                    #[trigger] self.stores@[j as int]).ready,
                forall|j: usize|
                    j < s0.cell_count() && (#[trigger] self.stores@[j as int]).ready
                        ==> s0.stores@[j as int].ready || s0.reaches(
                        c as int,
                        j as int,
                        s0.cell_count(),
                    ),
                self.stores@[c as int].ready,
                self.stores@[cur as int].ready,
                s0.parent_of(c as int) matches Some(p) ==> steps == 0 || self.stores@[
                    p as int
                ].ready,
                forall|j: usize|
                    j < s0.cell_count() && s0.reaches(c as int, j as int, s0.cell_count()) ==> (
                    #[trigger] self.stores@[j as int]).ready || s0.reaches(
                        cur as int,
                        j as int,
                        fuel as nat,
                    ),
            ensures
                self.wf(),
                self.guards == s0.guards,
                self.stores@.len() == s0.stores@.len(),
                forall|j: usize|
                    j < s0.cell_count() ==> (#[trigger] self.stores@[j as int]).parent
                        == s0.stores@[j as int].parent,
                forall|j: usize|
                    j < s0.cell_count() && s0.stores@[j as int].ready ==> (
                    #[trigger] self.stores@[j as int]).ready,
                forall|j: usize|
                    j < s0.cell_count() && (#[trigger] self.stores@[j as int]).ready
                        ==> s0.stores@[j as int].ready || s0.reaches(
                        c as int,
                        j as int,
                        s0.cell_count(),
                    ),
                self.stores@[c as int].ready,
                s0.parent_of(c as int) matches Some(p) ==> self.stores@[p as int].ready,
                forall|j: usize|
                    j < s0.cell_count() && s0.reaches(c as int, j as int, s0.cell_count()) ==> (
                    #[trigger] self.stores@[j as int]).ready,
            decreases fuel,
        {
            proof {
                assert forall|x: usize| x < s0.cell_count() implies self.parent_of(x as int)
                    == s0.parent_of(x as int) by {
                    assert(self.stores@[x as int].parent == s0.stores@[x as int].parent);
                }
            }
            let n = self.next_cell(cur);
            match n {
                None => {
                    break ;
                },
                Some(p) => {
                    if fuel == 0 {
                        break ;
                    }
                    proof {
                        lemma_reaches_extend(s0, c as int, cur as int, steps);
                        steps = steps + 1;
                        lemma_reaches_mono(s0, c as int, p as int, steps, s0.cell_count());
                    }
                    self.mark_ready(p);
                    cur = p;
                    fuel = fuel - 1;
                },
            }
        }
    }

    /// Wakes through a wake handle: a no-op when the handle holds no target.
    /// This is how a pollable operation signals renewed readiness through
    /// the handle it was given.
    pub fn local_wake(&mut self, g: &ValueGuard)
        requires
            old(self).wf(),
            old(self).guards.val_alive(g.id),
        ensures
            final(self).wf(),
            final(self).guards == old(self).guards,
            final(self).stores@.len() == old(self).stores@.len(),
            forall|j: usize|
                j < old(self).cell_count() ==> (#[trigger] final(self).stores@[j as int]).parent
                    == old(self).stores@[j as int].parent,
            forall|j: usize|
                j < old(self).cell_count() && old(self).stores@[j as int].ready ==> (
                #[trigger] final(self).stores@[j as int]).ready,
            old(self).guards.val_value(g.id) matches Some(t) ==> {
                &&& final(self).stores@[t as int].ready
                &&& forall|j: usize|
                    j < old(self).cell_count() && (#[trigger] final(self).stores@[j as int]).ready
                        ==> old(self).stores@[j as int].ready || old(self).reaches(
                        t as int,
                        j as int,
                        old(self).cell_count(),
                    )
                &&& forall|j: usize|
                    j < old(self).cell_count() && old(self).reaches(
                        t as int,
                        j as int,
                        old(self).cell_count(),
                    ) ==> (#[trigger] final(self).stores@[j as int]).ready
            },
            old(self).guards.val_value(g.id) is None ==> final(self).stores@ == old(
                self,
            ).stores@,
    {
        let target = g.get(&self.guards);
        proof {
            assert(self.guards.values@[g.id as int] matches Some(wp) ==> (wp matches Some(t)
                ==> t < self.cell_count()));
        }
        match target {
            Some(t) => self.wake(t),
            None => (),
        }
    }
}

/// A wake capability: something that can be woken to report renewed
/// readiness, any number of times, from any call depth.
pub trait Wake {
    /// The capability is usable in this wake system.
    spec fn wake_ok(&self, sys: WakeSystem) -> bool;

    /// Reports renewed readiness.  Safe to call after the logical owner has
    /// stopped observing it: at worst some readiness flags are set.
    fn wake(&self, sys: &mut WakeSystem)
        requires
            old(sys).wf(),
            self.wake_ok(*old(sys)),
        ensures
            final(sys).wf(),
            final(sys).guards == old(sys).guards,
            final(sys).stores@.len() == old(sys).stores@.len(),
            forall|j: usize|
                j < old(sys).cell_count() ==> (#[trigger] final(sys).stores@[j as int]).parent
                    == old(sys).stores@[j as int].parent,
            forall|j: usize|
                j < old(sys).cell_count() && old(sys).stores@[j as int].ready ==> (
                #[trigger] final(sys).stores@[j as int]).ready,
    ;
}

/// A wake handle is a wake capability: it wakes the cell it names, with the
/// notification forwarded up the registered parent chain.
impl Wake for ValueGuard {
    open spec fn wake_ok(&self, sys: WakeSystem) -> bool {
        sys.guards.val_alive(self.id)
    }

    fn wake(&self, sys: &mut WakeSystem) {
        sys.local_wake(self)
    }
}

/// A fixed-size bank of wake cells sharing one parent registration, held via
/// a guard pair.
#[derive(Debug)]
pub struct WakeArray {
    /// The shared reference handle through which every cell of the bank
    /// forwards its notifications.
    pub parent: RefGuard,
    /// Per-index wake handles handed to the children when they are polled;
    /// each names the cell of the same index.
    pub children: Vec<ValueGuard>,
    /// Identifiers of the bank's wake cells.
    pub cells: Vec<usize>,
}

impl WakeArray {
    pub open spec fn len(self) -> nat {
        self.cells@.len()
    }

    /// The array's handles and cells all exist in `sys`, and the cells are
    /// pairwise distinct (each slot has a cell of its own).
    pub open spec fn wf(self, sys: WakeSystem) -> bool {
        &&& sys.guards.ref_alive(self.parent.id)
        &&& self.children@.len() == self.cells@.len()
        &&& forall|i: int|
            0 <= i < self.children@.len() ==> sys.guards.val_alive(
                (#[trigger] self.children@[i]).id,
            )
        &&& forall|i: int| 0 <= i < self.cells@.len() ==> (#[trigger] self.cells@[i]) < sys.cell_count()
        &&& forall|i: int, j: int|
            0 <= i < j < self.cells@.len() ==> (#[trigger] self.cells@[i]) != (
            #[trigger] self.cells@[j])
    }

    /// Cell `c` is one of this array's cells.
    pub open spec fn owns_cell(self, c: usize) -> bool {
        exists|i: int| 0 <= i < self.cells@.len() && (#[trigger] self.cells@[i]) == c
    }

    /// Creates a bank of `n` fresh wake cells, `n` fresh wake handles (one
    /// per cell), and one fresh shared parent reference handle.
    pub fn new(sys: &mut WakeSystem, n: usize) -> (a: WakeArray)
        requires
            old(sys).wf(),
        ensures
            final(sys).wf(),
            a.wf(*final(sys)),
            a.len() == n,
            final(sys).cell_count() == old(sys).cell_count() + n,
            final(sys).guards.val_count() == old(sys).guards.val_count() + n,
            final(sys).guards.ref_count() == old(sys).guards.ref_count() + 1,
            forall|j: usize|
                j < old(sys).cell_count() ==> final(sys).stores@[j as int] == old(sys).stores@[
                    j as int
                ],
            forall|v: usize|
                v < old(sys).guards.val_count() ==> final(sys).guards.values@[v as int] == old(
                    sys,
                ).guards.values@[v as int] && final(sys).guards.val_links@[v as int] == old(
                    sys,
                ).guards.val_links@[v as int],
            forall|r: usize|
                r < old(sys).guards.ref_count() ==> final(sys).guards.refs@[r as int] == old(
                    sys,
                ).guards.refs@[r as int],
            forall|i: int| 0 <= i < n ==> (#[trigger] a.cells@[i]) == old(sys).cell_count() + i,
            forall|i: int|
                0 <= i < n ==> (#[trigger] a.children@[i]).id == old(sys).guards.val_count() + i,
            a.parent.id == old(sys).guards.ref_count(),
            forall|i: int|
                0 <= i < n ==> final(sys).stores@[(#[trigger] a.cells@[i]) as int] == (WakeStore {
                    ready: true,
                    parent: None,
                }),
            forall|i: int|
                0 <= i < n ==> final(sys).guards.val_value((#[trigger] a.children@[i]).id)
                    is None,
            forall|i: int|
                0 <= i < n ==> final(sys).guards.val_link((#[trigger] a.children@[i]).id)
                    is None,
            final(sys).guards.ref_link(a.parent.id) is None,
    {
        let ghost sys0 = *sys;
        let mut children: Vec<ValueGuard> = Vec::new();
        let mut cells: Vec<usize> = Vec::new();
        let mut i: usize = 0;
        while i < n
            invariant
                sys.wf(),
                i <= n,
                children@.len() == i,
                cells@.len() == i,
                sys.cell_count() == sys0.cell_count() + i,
                sys.guards.val_count() == sys0.guards.val_count() + i,
                sys.guards.refs@ == sys0.guards.refs@,
                forall|j: usize|
                    j < sys0.cell_count() ==> sys.stores@[j as int] == sys0.stores@[j as int],
                forall|v: usize|
                    v < sys0.guards.val_count() ==> sys.guards.values@[v as int]
                        == sys0.guards.values@[v as int] && sys.guards.val_links@[v as int]
                        == sys0.guards.val_links@[v as int],
                forall|k: int| 0 <= k < i ==> (#[trigger] cells@[k]) == sys0.cell_count() + k,
                forall|k: int|
                    0 <= k < i ==> (#[trigger] children@[k]).id == sys0.guards.val_count() + k,
                forall|k: int|
                    0 <= k < i ==> sys.stores@[(#[trigger] cells@[k]) as int] == (WakeStore {
                        ready: true,
                        parent: None,
                    }),
                forall|k: int|
                    0 <= k < i ==> sys.guards.values@[(#[trigger] children@[k]).id as int] == Some(
                        None::<usize>,
                    ),
                forall|k: int|
                    0 <= k < i ==> sys.guards.val_links@[(#[trigger] children@[k]).id as int]
                        is None,
            decreases n - i,
        {
            let c = sys.new_store();
            let g = sys.new_waker(None);
            cells.push(c);
            children.push(g);
            i = i + 1;
        }
        let parent = sys.new_ref();
        WakeArray { parent, children, cells }
    }

    /// Re-registers the parent wake handle for the whole bank: every later
    /// notification from any of the bank's cells forwards to `parent`.
    /// Invoked on every poll of the owning combinator, because the supplied
    /// handle can legitimately differ from call to call (the newest
    /// registration wins).
    pub fn register_parent(&self, sys: &mut WakeSystem, parent: &ValueGuard)
        requires
            old(sys).wf(),
            self.wf(*old(sys)),
            old(sys).guards.val_alive(parent.id),
        ensures
            final(sys).wf(),
            self.wf(*final(sys)),
            final(sys).stores@ == old(sys).stores@,
            final(sys).guards.values@ == old(sys).guards.values@,
            final(sys).guards.val_count() == old(sys).guards.val_count(),
            final(sys).guards.ref_count() == old(sys).guards.ref_count(),
            forall|r: usize|
                r < old(sys).guards.ref_count() ==> final(sys).guards.refs@[r as int].alive == old(
                    sys,
                ).guards.refs@[r as int].alive,
            final(sys).guards.ref_link(self.parent.id) == Some(parent.id),
            final(sys).guards.val_link(parent.id) == Some(self.parent.id),
    {
        self.parent.register(&mut sys.guards, parent);
        proof {
            assert forall|c: usize|
                c < sys.cell_count() && (#[trigger] sys.stores@[c as int]).parent is Some
                    implies sys.stores@[c as int].parent->0 < sys.guards.ref_count() by {
                assert(old(sys).stores@[c as int].parent is Some);
            }
        }
    }

    /// Prepares and returns the wake handle for slot `index`: points slot
    /// `index`'s cell at the bank's shared parent reference handle and makes
    /// the handle name that cell.  Returns `None` when `index` is out of
    /// bounds.
    pub fn child_guard_ptr(&self, sys: &mut WakeSystem, index: usize) -> (r: Option<&ValueGuard>)
        requires
            old(sys).wf(),
            self.wf(*old(sys)),
        ensures
            final(sys).wf(),
            self.wf(*final(sys)),
            r is Some <==> index < self.len(),
            final(sys).cell_count() == old(sys).cell_count(),
            final(sys).guards.val_count() == old(sys).guards.val_count(),
            final(sys).guards.ref_count() == old(sys).guards.ref_count(),
            final(sys).guards.val_links@ == old(sys).guards.val_links@,
            final(sys).guards.refs@ == old(sys).guards.refs@,
            index >= self.len() ==> *final(sys) == *old(sys),
            r matches Some(g) ==> {
                &&& g.id == self.children@[index as int].id
                &&& final(sys).guards.val_alive(g.id)
                &&& final(sys).guards.val_value(g.id) == Some(self.cells@[index as int])
                &&& final(sys).guards.values@ == old(sys).guards.values@.update(
                    g.id as int,
                    Some(Some(self.cells@[index as int])),
                )
                &&& final(sys).stores@ == old(sys).stores@.update(
                    self.cells@[index as int] as int,
                    WakeStore {
                        ready: old(sys).stores@[self.cells@[index as int] as int].ready,
                        parent: Some(self.parent.id),
                    },
                )
            },
    {
        if index >= self.cells.len() {
            return None;
        }
        let c = self.cells[index];
        let mut st = sys.stores[c];
        st.set_parent(&self.parent);
        sys.stores[c] = st;
        self.children[index].set(&mut sys.guards, Some(c));
        proof {
            assert forall|cc: usize|
                cc < sys.cell_count() && (#[trigger] sys.stores@[cc as int]).parent is Some
                    implies sys.stores@[cc as int].parent->0 < sys.guards.ref_count() by {
                if cc != c {
                    assert(old(sys).stores@[cc as int].parent is Some);
                }
            }
        }
        Some(&self.children[index])
    }

    /// Atomically reads and clears slot `index`'s readiness flag; `None`
    /// when `index` is out of bounds.
    pub fn take_woken(&self, sys: &mut WakeSystem, index: usize) -> (r: Option<bool>)
        requires
            old(sys).wf(),
            self.wf(*old(sys)),
        ensures
            final(sys).wf(),
            self.wf(*final(sys)),
            final(sys).guards == old(sys).guards,
            r is Some <==> index < self.len(),
            index >= self.len() ==> *final(sys) == *old(sys),
            r matches Some(w) ==> {
                &&& w == old(sys).stores@[self.cells@[index as int] as int].ready
                &&& final(sys).stores@ == old(sys).stores@.update(
                    self.cells@[index as int] as int,
                    WakeStore {
                        ready: false,
                        parent: old(sys).stores@[self.cells@[index as int] as int].parent,
                    },
                )
            },
    {
        if index >= self.cells.len() {
            return None;
        }
        let c = self.cells[index];
        let mut st = sys.stores[c];
        let woken = st.take_woken();
        sys.stores[c] = st;
        Some(woken)
    }
}

/// A wake handle that notifies nobody: the driver's root handle in tests and
/// simple drivers.
pub fn dummy_guard(sys: &mut WakeSystem) -> (g: ValueGuard)
    requires
        old(sys).wf(),
    ensures
        final(sys).wf(),
        g.id == old(sys).guards.val_count(),
        final(sys).guards.val_alive(g.id),
        final(sys).guards.val_value(g.id) is None,
        final(sys).stores@ == old(sys).stores@,
        final(sys).guards.values@ == old(sys).guards.values@.push(Some(None::<usize>)),
        final(sys).guards.val_links@ == old(sys).guards.val_links@.push(None::<usize>),
        final(sys).guards.refs@ == old(sys).guards.refs@,
{
    sys.new_waker(None)
}

/// Proof that one forwarding step extends a reachability chain.
proof fn lemma_reaches_extend(sys: WakeSystem, from: int, mid: int, fuel: nat)
    requires
        sys.reaches(from, mid, fuel),
        sys.parent_of(mid) is Some,
    ensures
        sys.reaches(from, sys.parent_of(mid)->0 as int, fuel + 1),
    decreases fuel,
{
    if from == mid {
        assert(sys.reaches(sys.parent_of(mid)->0 as int, sys.parent_of(mid)->0 as int, fuel));
    } else {
        lemma_reaches_extend(sys, sys.parent_of(from)->0 as int, mid, (fuel - 1) as nat);
    }
}

/// Proof that reachability is monotone in the fuel bound.
proof fn lemma_reaches_mono(sys: WakeSystem, from: int, to: int, fuel1: nat, fuel2: nat)
    requires
        sys.reaches(from, to, fuel1),
        fuel1 <= fuel2,
    ensures
        sys.reaches(from, to, fuel2),
    decreases fuel1,
{
    if from != to {
        lemma_reaches_mono(sys, sys.parent_of(from)->0 as int, to, (fuel1 - 1) as nat, (fuel2
            - 1) as nat);
    }
}

} // verus!
