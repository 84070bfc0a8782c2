//! The engine's error taxonomy.

use vstd::prelude::*;
use crate::key::{DynKey, QueryKindId};

verus! {

/// Every failure the engine can surface.
#[derive(Clone, Debug)]
pub enum PicanteError {
    /// A query synchronously re-entered itself within one task. Never cached.
    Cycle {
        /// The identity whose re-entry closed the cycle.
        requested: DynKey,
        /// The task's active frames at detection time, root first.
        stack: Vec<DynKey>,
    },
    /// A compute function panicked.
    Panic {
        /// Best-effort text of the panic payload.
        message: String,
    },
    /// A value or record could not be encoded.
    Encode {
        /// What was being encoded.
        what: &'static str,
        /// Details.
        message: String,
    },
    /// A value or record could not be decoded.
    Decode {
        /// What was being decoded.
        what: &'static str,
        /// Details.
        message: String,
    },
    /// I/O, versioning, duplication, or schema mismatch during persistence.
    Cache {
        /// Details.
        message: String,
    },
    /// Lookup of an intern id that is not present.
    MissingInternedValue {
        /// The interned ingredient's kind id.
        kind: QueryKindId,
        /// The id that was looked up.
        id: u32,
    },
    /// A computing task was dropped before it finalized its cell.
    Cancelled,
}

/// The engine's result type.
pub type PicanteResult<T> = Result<T, PicanteError>;

} // verus!
