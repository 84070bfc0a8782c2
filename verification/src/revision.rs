//! The monotonic revision counter that gates cache freshness.

use vstd::prelude::*;

verus! {

/// A monotonically increasing revision counter.
///
/// Revisions start at 0 and advance by 1 on every input mutation; a cache
/// load may set the counter directly.
#[derive(Copy, Clone, Eq, PartialEq, Ord, PartialOrd, Hash, Debug, Structural)]
pub struct Revision(pub u64);

impl Revision {
    /// The next revision after this one.
    pub fn next(self) -> (r: Revision)
        requires
            self.0 < u64::MAX,
        ensures
            r.0 == self.0 + 1,
    {
        Revision(self.0 + 1)
    }
}

} // verus!
