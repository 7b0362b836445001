//! A validated request body: a value that passed extraction, carried
//! with proof of nothing more than its presence.

use vstd::prelude::*;

verus! {

/// A request body that was successfully read into a `T`.  The host's
/// extraction layer builds one per request; handlers take the value
/// out again.
pub struct ValidatedJson<T>(pub T);

impl<T> ValidatedJson<T> {
    /// Borrows the validated value.
    pub fn deref(&self) -> (r: &T)
        ensures
            *r == self.0,
    {
        &self.0
    }

    /// Takes the validated value.
    pub fn into_inner(self) -> (r: T)
        ensures
            r == self.0,
    {
        self.0
    }
}

} // verus!
