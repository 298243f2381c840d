//! Output values of pollable operations, and the poll result type.
//!
//! Combinators of any arity are built over one closed value union: a leaf
//! completes with an integer, an AND-join with the list of its children's
//! outputs in declaration order, and a race with the winning child's output
//! tagged by its declaration index.

use vstd::prelude::*;

verus! {

broadcast use vstd::std_specs::vec::axiom_vec_index_decreases;

/// What a pollable operation completes with.
#[derive(Debug)]
pub enum Val {
    /// A leaf operation's output.
    Int(u64),
    /// An AND-join's outputs, in declaration order.
    List(Vec<Val>),
    /// A race's output: the winning slot's declaration index and its output.
    Tagged(usize, Box<Val>),
}

/// The result of polling: completed with a value, or not yet.
#[derive(Debug, PartialEq, Eq)]
pub enum Poll<T> {
    Ready(T),
    Pending,
}

impl<T> Poll<T> {
    pub fn is_ready(&self) -> (r: bool)
        ensures
            r == (self is Ready),
    {
        match self {
            Poll::Ready(_) => true,
            Poll::Pending => false,
        }
    }

    pub fn is_pending(&self) -> (r: bool)
        ensures
            r == (self is Pending),
    {
        match self {
            Poll::Ready(_) => false,
            Poll::Pending => true,
        }
    }
}

/// Structural equality of two values: equal integers, lists of equal length
/// that agree element by element, or equally-tagged equal values.
pub open spec fn vals_equal(a: Val, b: Val) -> bool
    decreases a,
{
    match (a, b) {
        (Val::Int(x), Val::Int(y)) => x == y,
        (Val::List(xs), Val::List(ys)) => xs@.len() == ys@.len() && (forall|i: int|
            0 <= i < xs@.len() ==> vals_equal(#[trigger] xs@[i], ys@[i])),
        (Val::Tagged(i, x), Val::Tagged(j, y)) => i == j && vals_equal(*x, *y),
        _ => false,
    }
}

impl Val {
    /// Decides structural equality.
    pub fn eq_val(&self, other: &Val) -> (r: bool)
        ensures
            r == vals_equal(*self, *other),
        decreases self,
    {
        match (self, other) {
            (Val::Int(a), Val::Int(b)) => a == b,
            (Val::List(xs), Val::List(ys)) => {
                if xs.len() != ys.len() {
                    return false;
                }
                let n = xs.len();
                let mut i: usize = 0;
                while i < n
                    invariant
                        i <= n,
                        n == xs@.len(),
                        n == ys@.len(),
                        *self == Val::List(*xs),
                        *other == Val::List(*ys),
                        forall|k: int| 0 <= k < i ==> vals_equal(#[trigger] xs@[k], ys@[k]),
                    decreases n - i,
                {
                    proof {
                        assert(decreases_to!(*self => (*self)->List_0));
                        assert(decreases_to!(*xs => xs@));
                        assert(decreases_to!(xs@ => xs@[i as int]));
                        assert(decreases_to!(*self => xs@[i as int]));
                    }
                    let same = xs[i].eq_val(&ys[i]);
                    if !same {
                        return false;
                    }
                    i = i + 1;
                }
                true
            },
            (Val::Tagged(i, a), Val::Tagged(j, b)) => {
                if i != j {
                    return false;
                }
                (&**a).eq_val(&**b)
            },
            _ => false,
        }
    }
}

impl PartialEq for Val {
    fn eq(&self, other: &Val) -> (r: bool) {
        self.eq_val(other)
    }
}

impl Eq for Val {

}

impl vstd::std_specs::cmp::PartialEqSpecImpl for Val {
    open spec fn obeys_eq_spec() -> bool {
        true
    }

    open spec fn eq_spec(&self, other: &Val) -> bool {
        vals_equal(*self, *other)
    }
}

} // verus!
