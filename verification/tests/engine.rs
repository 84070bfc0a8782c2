use picante::cell::{
    finalize_cancelled, finalize_failure, finalize_panic, finalize_success, observe, try_start,
    CellState, Observation,
};
use picante::error::PicanteError;
use picante::frame::{Frame, FrameStack};
use picante::key::{Dep, DynKey, Key, QueryKindId};
use picante::revision::Revision;

fn key(bytes: &[u8]) -> Key {
    Key::from_bytes(bytes.to_vec())
}

fn dyn_key(kind: u32, bytes: &[u8]) -> DynKey {
    DynKey { kind: QueryKindId(kind), key: key(bytes) }
}

/// One protocol round: claim the job, run `compute`, finalize.
fn run_compute(
    cell: &mut CellState<u64>,
    rev: Revision,
    computed: &mut u32,
    compute: impl Fn() -> Result<u64, PicanteError>,
) -> Result<u64, PicanteError> {
    assert!(try_start(cell, rev));
    *computed += 1;
    match compute() {
        Ok(v) => {
            finalize_success(cell, v, rev, Vec::new());
            Ok(v)
        }
        Err(e) => {
            finalize_failure(cell, e.clone(), rev);
            Err(e)
        }
    }
}

#[test]
fn trivial_memoization_runs_compute_once() {
    let rev = Revision(0);
    let mut cell: CellState<u64> = CellState::Vacant;
    let mut computed = 0u32;

    // First call: the cell is stale, so the caller takes the job.
    assert_eq!(observe(&cell, rev), Observation::Stale);
    let v = run_compute(&mut cell, rev, &mut computed, || Ok(3 * 2)).unwrap();
    assert_eq!(v, 6);

    // Second call: the cell is fresh, no compute runs.
    assert_eq!(observe(&cell, rev), Observation::Fresh);
    match &cell {
        CellState::Ready { value, verified_at, .. } => {
            assert_eq!(*value, 6);
            assert_eq!(*verified_at, Revision(0));
        }
        _ => panic!("expected a ready cell"),
    }
    assert_eq!(computed, 1);
}

#[test]
fn invalidation_recomputes_at_new_revision() {
    let mut cell: CellState<u64> = CellState::Vacant;
    let mut computed = 0u32;

    // Input x = 5 at revision 1; xx computes x * 2.
    let v = run_compute(&mut cell, Revision(1), &mut computed, || Ok(5 * 2)).unwrap();
    assert_eq!(v, 10);
    assert_eq!(observe(&cell, Revision(1)), Observation::Fresh);

    // Input x = 7 at revision 2: the cached value is stale there.
    assert_eq!(observe(&cell, Revision(2)), Observation::Stale);
    let v = run_compute(&mut cell, Revision(2), &mut computed, || Ok(7 * 2)).unwrap();
    assert_eq!(v, 14);
    assert_eq!(computed, 2);
}

#[test]
fn single_flight_second_claim_fails() {
    let rev = Revision(3);
    let mut cell: CellState<u64> = CellState::Vacant;
    assert!(try_start(&mut cell, rev));
    // A racing peer cannot take the job, at this or any other revision.
    assert!(!try_start(&mut cell, rev));
    assert!(!try_start(&mut cell, Revision(4)));
    assert_eq!(observe(&cell, rev), Observation::Running);
    assert_eq!(observe(&cell, Revision(4)), Observation::Running);
}

#[test]
fn freshness_needs_matching_revision() {
    let mut cell: CellState<u64> = CellState::Vacant;
    finalize_success(&mut cell, 42, Revision(1), Vec::new());
    assert_eq!(observe(&cell, Revision(1)), Observation::Fresh);
    assert_eq!(observe(&cell, Revision(0)), Observation::Stale);
    assert_eq!(observe(&cell, Revision(2)), Observation::Stale);
}

#[test]
fn cycle_detected_on_self_reentry() {
    let mut frames = FrameStack::new();
    let a = dyn_key(1, b"a");
    frames.push_frame(Frame::new(a.clone(), Revision(0)));

    match frames.prepare_query(&a) {
        Err(PicanteError::Cycle { requested, stack }) => {
            assert_eq!(requested, a);
            assert_eq!(stack, vec![a]);
        }
        other => panic!("expected a cycle, got {other:?}"),
    }
}

#[test]
fn cycle_stack_is_root_first() {
    let mut frames = FrameStack::new();
    let a = dyn_key(1, b"a");
    let b = dyn_key(2, b"b");

    frames.push_frame(Frame::new(a.clone(), Revision(0)));
    // Entering b from a records the edge and pushes b's frame.
    assert!(frames.prepare_query(&b).is_ok());
    frames.push_frame(Frame::new(b.clone(), Revision(0)));

    match frames.prepare_query(&a) {
        Err(PicanteError::Cycle { requested, stack }) => {
            assert_eq!(requested, a);
            assert_eq!(stack, vec![a.clone(), b.clone()]);
        }
        other => panic!("expected a cycle, got {other:?}"),
    }
}

#[test]
fn deps_are_recorded_in_insertion_order() {
    let mut frames = FrameStack::new();
    let root = dyn_key(1, b"root");
    frames.push_frame(Frame::new(root, Revision(0)));

    frames.record_dep(Dep { kind: QueryKindId(2), key: key(b"x") });
    frames.record_dep(Dep { kind: QueryKindId(3), key: key(b"y") });
    frames.record_dep(Dep { kind: QueryKindId(2), key: key(b"x") });

    let frame = frames.pop_frame().unwrap();
    let deps = frame.take_deps();
    assert_eq!(deps.len(), 3);
    assert_eq!(deps[0], Dep { kind: QueryKindId(2), key: key(b"x") });
    assert_eq!(deps[1], Dep { kind: QueryKindId(3), key: key(b"y") });
    assert_eq!(deps[2], Dep { kind: QueryKindId(2), key: key(b"x") });
    assert!(!frames.has_active_frame());
}

#[test]
fn record_dep_without_frame_is_a_no_op() {
    let mut frames = FrameStack::new();
    frames.record_dep(Dep { kind: QueryKindId(1), key: key(b"x") });
    assert!(!frames.has_active_frame());
    assert_eq!(frames.frames.len(), 0);
}

#[test]
fn panic_poisons_then_later_revision_retries() {
    let mut cell: CellState<u64> = CellState::Vacant;

    // The compute panics with "boom" at revision 0.
    assert!(try_start(&mut cell, Revision(0)));
    finalize_panic(&mut cell, "boom".to_string(), Revision(0));

    // Observers at revision 0 see the cached failure.
    assert_eq!(observe(&cell, Revision(0)), Observation::Failed);
    match &cell {
        CellState::Poisoned { error: PicanteError::Panic { message }, verified_at } => {
            assert_eq!(message, "boom");
            assert_eq!(*verified_at, Revision(0));
        }
        _ => panic!("expected a poisoned cell"),
    }

    // After a bump the cell is stale, and a retry can take the job.
    assert_eq!(observe(&cell, Revision(1)), Observation::Stale);
    let mut computed = 0u32;
    let v = run_compute(&mut cell, Revision(1), &mut computed, || Ok(1)).unwrap();
    assert_eq!(v, 1);
    assert_eq!(observe(&cell, Revision(1)), Observation::Fresh);
}

#[test]
fn returned_error_poisons_at_start_revision() {
    let mut cell: CellState<u64> = CellState::Vacant;
    assert!(try_start(&mut cell, Revision(2)));
    finalize_failure(
        &mut cell,
        PicanteError::Cache { message: "broken".to_string() },
        Revision(2),
    );
    assert_eq!(observe(&cell, Revision(2)), Observation::Failed);
    assert_eq!(observe(&cell, Revision(3)), Observation::Stale);
}

#[test]
fn cancelled_compute_poisons_the_cell() {
    let mut cell: CellState<u64> = CellState::Vacant;
    assert!(try_start(&mut cell, Revision(0)));
    finalize_cancelled(&mut cell, Revision(0));
    assert_eq!(observe(&cell, Revision(0)), Observation::Failed);
    match &cell {
        CellState::Poisoned { error: PicanteError::Cancelled, .. } => {}
        _ => panic!("expected a cancelled poisoning"),
    }
}

#[test]
fn panic_message_prefers_the_payload() {
    assert_eq!(picante::cell::panic_message(Some("boom".to_string())), "boom");
    assert_eq!(picante::cell::panic_message(None), "non-string panic payload");
}

#[test]
fn key_hash_is_stable_fnv1a() {
    // FNV-1a 64-bit test vectors.
    assert_eq!(key(b"").hash(), 0xcbf2_9ce4_8422_2325);
    assert_eq!(key(b"a").hash(), 0xaf63_dc4c_8601_ec8c);
    assert_eq!(key(b"foobar").hash(), 0x85944171f73967e8);
}
