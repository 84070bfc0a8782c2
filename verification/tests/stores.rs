use picante::error::PicanteError;
use picante::frame::{Frame, FrameStack};
use picante::input::InputIngredient;
use picante::interned::{InternId, InternedIngredient};
use picante::key::{DynKey, Key, QueryKindId};
use picante::revision::Revision;
use picante::runtime::Runtime;

fn key(bytes: &[u8]) -> Key {
    Key::from_bytes(bytes.to_vec())
}

#[test]
fn intern_is_a_bijection() {
    let mut table = InternedIngredient::new(QueryKindId(4), "names");

    let alice = table.intern(key(b"alice"));
    let bob = table.intern(key(b"bob"));
    let alice_again = table.intern(key(b"alice"));

    assert_eq!(alice, InternId(0));
    assert_eq!(bob, InternId(1));
    assert_eq!(alice_again, alice);
    assert_ne!(alice, bob);

    let mut frames = FrameStack::new();
    assert_eq!(table.get(&mut frames, alice).unwrap(), key(b"alice"));
    assert_eq!(table.get(&mut frames, bob).unwrap(), key(b"bob"));
}

#[test]
fn interned_get_records_a_dependency() {
    let mut table = InternedIngredient::new(QueryKindId(4), "names");
    let id = table.intern(key(b"alice"));

    let mut frames = FrameStack::new();
    frames.push_frame(Frame::new(
        DynKey { kind: QueryKindId(9), key: key(b"root") },
        Revision(0),
    ));
    table.get(&mut frames, id).unwrap();

    let frame = frames.pop_frame().unwrap();
    let deps = frame.take_deps();
    assert_eq!(deps.len(), 1);
    assert_eq!(deps[0].kind, QueryKindId(4));
    // The dependency key is the id's four little-endian bytes.
    assert_eq!(deps[0].key, key(&[0, 0, 0, 0]));
}

#[test]
fn interned_get_of_unknown_id_fails() {
    let table = InternedIngredient::new(QueryKindId(4), "names");
    let mut frames = FrameStack::new();
    match table.get(&mut frames, InternId(7)) {
        Err(PicanteError::MissingInternedValue { kind, id }) => {
            assert_eq!(kind, QueryKindId(4));
            assert_eq!(id, 7);
        }
        other => panic!("expected MissingInternedValue, got {other:?}"),
    }
}

#[test]
fn interned_touch_reports_revision_zero() {
    let mut table = InternedIngredient::new(QueryKindId(4), "names");
    let id = table.intern(key(b"alice"));
    assert_eq!(id, InternId(0));

    assert_eq!(table.touch(&key(&[0, 0, 0, 0])).unwrap(), Revision(0));
    match table.touch(&key(&[9, 0, 0, 0])) {
        Err(PicanteError::MissingInternedValue { id, .. }) => assert_eq!(id, 9),
        other => panic!("expected MissingInternedValue, got {other:?}"),
    }
    match table.touch(&key(b"too long to be an id")) {
        Err(PicanteError::Decode { .. }) => {}
        other => panic!("expected Decode, got {other:?}"),
    }
}

#[test]
fn interned_save_load_restores_entries_and_counter() {
    let mut table = InternedIngredient::new(QueryKindId(4), "names");
    table.intern(key(b"alice"));
    table.intern(key(b"bob"));

    let records = table.save_records();
    let mut fresh = InternedIngredient::new(QueryKindId(4), "names");
    fresh.load_records(&records).unwrap();

    let mut frames = FrameStack::new();
    assert_eq!(fresh.get(&mut frames, InternId(0)).unwrap(), key(b"alice"));
    assert_eq!(fresh.get(&mut frames, InternId(1)).unwrap(), key(b"bob"));
    // The counter resumes one past the largest id.
    assert_eq!(fresh.intern(key(b"carol")), InternId(2));
}

#[test]
fn interned_load_rejects_duplicate_ids() {
    let mut table = InternedIngredient::new(QueryKindId(4), "names");
    table.intern(key(b"alice"));
    let mut records = table.save_records();
    let duplicate = records[0].clone();
    records.push(duplicate);

    let mut fresh = InternedIngredient::new(QueryKindId(4), "names");
    match fresh.load_records(&records) {
        Err(PicanteError::Cache { .. }) => {}
        other => panic!("expected Cache, got {other:?}"),
    }
}

#[test]
fn input_set_get_remove() {
    let mut runtime = Runtime::new();
    let mut input = InputIngredient::new(QueryKindId(2), "x");
    let mut frames = FrameStack::new();

    let r1 = input.set(&mut runtime, key(b"x"), vec![5]);
    assert_eq!(r1, Revision(1));
    assert_eq!(input.get(&mut frames, &key(b"x")), Some(vec![5]));

    let r2 = input.set(&mut runtime, key(b"x"), vec![7]);
    assert_eq!(r2, Revision(2));
    assert_eq!(input.get(&mut frames, &key(b"x")), Some(vec![7]));

    let r3 = input.remove(&mut runtime, &key(b"x"));
    assert_eq!(r3, Revision(3));
    assert_eq!(input.get(&mut frames, &key(b"x")), None);
    assert_eq!(runtime.current_revision(), Revision(3));
}

#[test]
fn input_get_records_a_dependency() {
    let mut runtime = Runtime::new();
    let mut input = InputIngredient::new(QueryKindId(2), "x");
    input.set(&mut runtime, key(b"x"), vec![5]);

    let mut frames = FrameStack::new();
    frames.push_frame(Frame::new(
        DynKey { kind: QueryKindId(9), key: key(b"root") },
        Revision(1),
    ));
    input.get(&mut frames, &key(b"x"));
    // A read of an absent key records its edge too.
    input.get(&mut frames, &key(b"missing"));

    let frame = frames.pop_frame().unwrap();
    let deps = frame.take_deps();
    assert_eq!(deps.len(), 2);
    assert_eq!(deps[0].kind, QueryKindId(2));
    assert_eq!(deps[0].key, key(b"x"));
    assert_eq!(deps[1].key, key(b"missing"));
}

#[test]
fn input_save_load_restores_entries() {
    let mut runtime = Runtime::new();
    let mut input = InputIngredient::new(QueryKindId(2), "x");
    input.set(&mut runtime, key(b"x"), vec![5]);
    input.set(&mut runtime, key(b"y"), vec![6]);

    let records = input.save_records();
    let mut fresh = InputIngredient::new(QueryKindId(2), "x");
    fresh.load_records(&records).unwrap();

    let mut frames = FrameStack::new();
    assert_eq!(fresh.get(&mut frames, &key(b"x")), Some(vec![5]));
    assert_eq!(fresh.get(&mut frames, &key(b"y")), Some(vec![6]));
    assert_eq!(fresh.get(&mut frames, &key(b"z")), None);
}

#[test]
fn input_load_rejects_duplicate_keys() {
    let mut runtime = Runtime::new();
    let mut input = InputIngredient::new(QueryKindId(2), "x");
    input.set(&mut runtime, key(b"x"), vec![5]);
    let mut records = input.save_records();
    let duplicate = records[0].clone();
    records.push(duplicate);

    let mut fresh = InputIngredient::new(QueryKindId(2), "x");
    match fresh.load_records(&records) {
        Err(PicanteError::Cache { .. }) => {}
        other => panic!("expected Cache, got {other:?}"),
    }
}

#[test]
fn revision_bump_and_set() {
    let mut runtime = Runtime::new();
    assert_eq!(runtime.current_revision(), Revision(0));
    assert_eq!(runtime.bump_revision(), Revision(1));
    assert_eq!(runtime.bump_revision(), Revision(2));
    runtime.set_current_revision(Revision(9));
    assert_eq!(runtime.current_revision(), Revision(9));
    assert_eq!(runtime.bump_revision(), Revision(10));
}

#[test]
fn interned_load_rejects_garbage_records() {
    let mut fresh = InternedIngredient::new(QueryKindId(4), "names");
    match fresh.load_records(&vec![vec![1, 2, 3]]) {
        Err(PicanteError::Decode { .. }) => {}
        other => panic!("expected Decode, got {other:?}"),
    }
}

#[test]
fn input_load_rejects_garbage_records() {
    let mut fresh = InputIngredient::new(QueryKindId(2), "x");
    match fresh.load_records(&vec![vec![1, 2, 3]]) {
        Err(PicanteError::Decode { .. }) => {}
        other => panic!("expected Decode, got {other:?}"),
    }
}
