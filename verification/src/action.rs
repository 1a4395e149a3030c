//! Snapshot of one tick's worth of input for one entity.

use vstd::prelude::*;

verus! {

/// Immutable snapshot of a generic input payload `A` for exactly one tick.
/// `value == None` means "no input pressed", which is distinct from a tick
/// for which no snapshot was ever received.
#[derive(Clone, Copy, Debug, PartialEq, Eq)]
pub struct ActionState<A> {
    pub value: Option<A>,
}

impl<A> ActionState<A> {
    /// The "no input" snapshot.
    pub fn none() -> (r: Self)
        ensures
            r.value is None,
    {
        ActionState { value: None }
    }
}

impl<A> Default for ActionState<A> {
    /// Defaults to "no input".
    fn default() -> (r: Self)
        ensures
            r.value is None,
    {
        ActionState { value: None }
    }
}

} // verus!
