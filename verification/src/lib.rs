//! Picante: the memoization core of an asynchronous incremental query runtime.
//!
//! The library holds the engine's decision logic: the revision clock, key
//! identity and hashing, the per-task frame stack that records dependencies
//! and detects cycles, the per-cell state machine with its single-flight
//! transitions, the input and interned stores, and the byte-exact cache
//! format. The asynchronous shell (locks, notifications, file I/O) drives
//! these functions from outside.

pub mod cell;
pub mod codec;
pub mod error;
pub mod frame;
pub mod input;
pub mod interned;
pub mod key;
pub mod persist;
pub mod revision;
pub mod runtime;

pub use error::{PicanteError, PicanteResult};
pub use input::InputIngredient;
pub use interned::{InternId, InternedIngredient};
pub use key::{Dep, DynKey, Key, QueryKindId};
pub use revision::Revision;
pub use runtime::{HasRuntime, Runtime, RuntimeEvent};
