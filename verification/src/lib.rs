//! A no-allocation-style model of composable pollable operations.
//!
//! Pollable operations are combined into larger pollable operations
//! (an N-ary AND-join and an N-ary OR-join, "race") on top of an
//! edge-triggered wake-notification mechanism.  Wake notifications travel
//! through a mutual weak-reference primitive, the guard pair, whose links
//! are invalidated the instant either end is destroyed or superseded.
//!
//! All objects that point at each other live in explicit spaces
//! ([`guard::GuardSpace`], [`wake::WakeSystem`]) and refer to each other by
//! slot index, so a stale link fails a validity check instead of
//! dereferencing freed memory.

pub mod guard;
pub mod atomic_guard;
pub mod wake;
pub mod val;
pub mod future;
pub mod maybe_done;
pub mod join;
pub mod race;
