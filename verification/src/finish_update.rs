//! What is left to do once an update of a bucket sorted set was started.

use vstd::prelude::*;

verus! {

/// The function that finishes an update once it was started, for an item
/// that was unsorted (the first) or sorted (the second).
#[allow(non_camel_case_types)]
pub enum FinishUpdateFuncs<F: Fn()> {
    finish_update_first(F),
    finish_update_second(F),
}

/// The function an update is finished with: nothing is left to do.
pub fn finish_nothing() {
}

impl<F: Fn()> FinishUpdateFuncs<F> {
    /// Whether the update was of an item that was unsorted.
    pub open spec fn was_unsorted(&self) -> bool {
        self is finish_update_first
    }

    /// Whether the function held may be called.
    pub open spec fn can_finish(&self) -> bool {
        match self {
            FinishUpdateFuncs::finish_update_first(func) => call_requires(*func, ()),
            FinishUpdateFuncs::finish_update_second(func) => call_requires(*func, ()),
        }
    }

    /// Finishes the update by calling the function held.
    pub fn finish(&self)
        requires
            self.can_finish(),
    {
        match self {
            FinishUpdateFuncs::finish_update_first(func) => func(),
            FinishUpdateFuncs::finish_update_second(func) => func(),
        }
    }
}

} // verus!
