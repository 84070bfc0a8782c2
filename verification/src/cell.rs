//! The per-(ingredient, key) cell state machine.
//!
//! A cell's state is guarded by the shell's asynchronous lock; under that
//! lock the shell calls these functions to classify the state against the
//! current revision, to claim the right to compute, and to finalize the
//! outcome. Every transition out of `Running` is paired by the shell with a
//! wake of all waiters.

use vstd::prelude::*;
use vstd::string::StringExecFns;
use crate::error::PicanteError;
use crate::key::Dep;
use crate::revision::Revision;

verus! {

/// The state of one cell.
#[derive(Debug)]
pub enum CellState<V> {
    /// No value has been computed yet.
    Vacant,
    /// A task is computing under `started_at`.
    Running {
        /// The revision observed when the computing task took the job.
        started_at: Revision,
    },
    /// A value is cached, valid as of `verified_at`.
    Ready {
        /// The cached value.
        value: V,
        /// The revision the value was computed under.
        verified_at: Revision,
        /// The dependency edges recorded by the producing computation,
        /// in insertion order.
        deps: Vec<Dep>,
    },
    /// The computation failed or panicked at `verified_at`.
    Poisoned {
        /// The shared failure, returned to every observer at `verified_at`.
        error: PicanteError,
        /// The revision the failing computation started under.
        verified_at: Revision,
    },
}

/// What an observer holding the cell lock concludes at a given revision.
#[derive(Copy, Clone, Eq, PartialEq, Debug, Structural)]
pub enum Observation {
    /// Ready at the observed revision: the cached value answers the query.
    Fresh,
    /// Poisoned at the observed revision: the cached error answers the query.
    Failed,
    /// Another task is computing: wait on the cell's notification.
    Running,
    /// Vacant, or verified at a different revision: try to take the job.
    Stale,
}

/// The classification `observe` computes.
pub open spec fn spec_observe<V>(s: CellState<V>, rev: Revision) -> Observation {
    match s {
        CellState::Vacant => Observation::Stale,
        CellState::Running { .. } => Observation::Running,
        CellState::Ready { verified_at, .. } => if verified_at == rev {
            Observation::Fresh
        } else {
            Observation::Stale
        },
        CellState::Poisoned { verified_at, .. } => if verified_at == rev {
            Observation::Failed
        } else {
            Observation::Stale
        },
    }
}

/// Whether a task may claim the right to compute at `rev`: the cell is
/// neither being computed nor verified (as a value or a failure) at `rev`.
pub open spec fn spec_can_start<V>(s: CellState<V>, rev: Revision) -> bool {
    spec_observe(s, rev) is Stale
}

/// Classify the cell's state against the revision read just before the
/// lock was taken. `Fresh` holds exactly when the cell is `Ready` with
/// `verified_at == rev`, and `Failed` exactly when it is `Poisoned` there.
pub fn observe<V>(state: &CellState<V>, rev: Revision) -> (r: Observation)
    ensures
        r == spec_observe(*state, rev),
{
    match state {
        CellState::Vacant => Observation::Stale,
        CellState::Running { .. } => Observation::Running,
        CellState::Ready { verified_at, .. } => {
            if verified_at.0 == rev.0 {
                Observation::Fresh
            } else {
                Observation::Stale
            }
        },
        CellState::Poisoned { verified_at, .. } => {
            if verified_at.0 == rev.0 {
                Observation::Failed
            } else {
                Observation::Stale
            }
        },
    }
}

/// The take-the-job step: claim the right to compute at `rev` when the
/// state is still stale there, and leave it untouched otherwise. At most
/// one claim can succeed until the claimant transitions the cell again.
pub fn try_start<V>(state: &mut CellState<V>, rev: Revision) -> (r: bool)
    ensures
        r == spec_can_start(*old(state), rev),
        r ==> *final(state) == (CellState::<V>::Running { started_at: rev }),
        !r ==> *final(state) == *old(state),
{
    let start = match &*state {
        CellState::Vacant => true,
        CellState::Running { .. } => false,
        CellState::Ready { verified_at, .. } => verified_at.0 != rev.0,
        CellState::Poisoned { verified_at, .. } => verified_at.0 != rev.0,
    };
    if start {
        *state = CellState::Running { started_at: rev };
    }
    start
}

/// Record a successful computation: the cell becomes `Ready` with the
/// produced value, the revision the computation started at, and exactly
/// the dependency edges its frame recorded.
pub fn finalize_success<V>(state: &mut CellState<V>, value: V, verified_at: Revision, deps: Vec<Dep>)
    ensures
        *final(state) == (CellState::Ready { value, verified_at, deps }),
{
    *state = CellState::Ready { value, verified_at, deps };
}

/// Record a computation that returned an error: the cell becomes
/// `Poisoned` at the revision the computation started at.
pub fn finalize_failure<V>(state: &mut CellState<V>, error: PicanteError, verified_at: Revision)
    ensures
        *final(state) == (CellState::<V>::Poisoned { error, verified_at }),
{
    *state = CellState::Poisoned { error, verified_at };
}

/// Record a computation that panicked: the cell becomes `Poisoned` with a
/// `Panic` error carrying the payload's text, at the start revision.
pub fn finalize_panic<V>(state: &mut CellState<V>, message: String, verified_at: Revision)
    ensures
        *final(state) == (CellState::<V>::Poisoned {
            error: PicanteError::Panic { message },
            verified_at,
        }),
{
    *state = CellState::Poisoned { error: PicanteError::Panic { message }, verified_at };
}

/// Record a computing task that was dropped before it finished: the cell
/// becomes `Poisoned` with `Cancelled` at the start revision, so waiters
/// are answered rather than left on a `Running` cell forever.
pub fn finalize_cancelled<V>(state: &mut CellState<V>, verified_at: Revision)
    ensures
        *final(state) == (CellState::<V>::Poisoned {
            error: PicanteError::Cancelled,
            verified_at,
        }),
{
    *state = CellState::Poisoned { error: PicanteError::Cancelled, verified_at };
}

/// The best-effort text of a panic payload: the payload's string when it
/// carried one, and a fixed fallback otherwise.
pub fn panic_message(payload: Option<String>) -> (r: String)
    ensures
        match payload {
            Some(s) => r@ == s@,
            None => r@ == "non-string panic payload"@,
        },
{
    match payload {
        Some(s) => s,
        None => String::from_str("non-string panic payload"),
    }
}

/// Freshness: a `Ready` cell answers observers at exactly the revision it
/// was verified at, and at no other.
pub proof fn lemma_freshness<V>(value: V, verified_at: Revision, deps: Vec<Dep>, rev: Revision)
    ensures
        (spec_observe((CellState::Ready { value, verified_at, deps }), rev)
            is Fresh) <==> verified_at == rev,
{
}

/// One whole compute round: a claimant that takes the job at `rev` holds
/// it against every peer, and finalizing a value leaves the cell
/// answering observers at `rev` with exactly that value.
pub proof fn lemma_compute_round<V>(s: CellState<V>, rev: Revision, value: V, deps: Vec<Dep>)
    requires
        spec_can_start(s, rev),
    ensures
        forall|rev2: Revision|
            !spec_can_start((CellState::<V>::Running { started_at: rev }), rev2),
        spec_observe((CellState::Ready { value, verified_at: rev, deps }), rev) is Fresh,
{
}

/// Single-flight: once a claimant has moved a cell to `Running`, no other
/// observer can claim the job — at any revision — until the claimant
/// transitions the cell out of `Running` again.
pub proof fn lemma_single_flight<V>(s: CellState<V>, rev: Revision, rev2: Revision)
    requires
        spec_can_start(s, rev),
    ensures
        !spec_can_start((CellState::<V>::Running { started_at: rev }), rev2),
{
}

/// Panic containment: a cell poisoned at `rev` answers every observer at
/// `rev` with the failure, while at any other revision it is stale, so a
/// later call may claim the job and retry.
pub proof fn lemma_poisoned_retry<V>(error: PicanteError, rev: Revision, rev2: Revision)
    ensures
        spec_observe((CellState::<V>::Poisoned { error, verified_at: rev }), rev) is Failed,
        rev2 != rev ==> spec_observe(
            (CellState::<V>::Poisoned { error, verified_at: rev }),
            rev2,
        ) is Stale,
        rev2 != rev ==> spec_can_start(
            (CellState::<V>::Poisoned { error, verified_at: rev }),
            rev2,
        ),
{
}

} // verus!
