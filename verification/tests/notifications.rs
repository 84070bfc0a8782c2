use picante::key::QueryKindId;
use picante::input::InputIngredient;
use picante::revision::Revision;
use picante::runtime::{Runtime, RuntimeEvent};

fn rt() -> tokio::runtime::Runtime {
    tokio::runtime::Builder::new_current_thread().build().unwrap()
}

fn encode_string_key(s: &str) -> picante::key::Key {
    picante::key::Key::from_bytes(facet_postcard::to_vec(&s.to_string()).unwrap())
}

#[test]
fn revision_watch_updates_on_input_set() {
    let mut runtime = Runtime::new();
    let mut revisions = runtime.subscribe_revisions();

    assert_eq!(*revisions.borrow(), Revision(0));

    let mut input = InputIngredient::new(QueryKindId(1), "Text");
    input.set(
        &mut runtime,
        encode_string_key("a"),
        facet_postcard::to_vec(&"hello".to_string()).unwrap(),
    );

    rt().block_on(async {
        revisions.changed().await.unwrap();
    });
    assert_eq!(*revisions.borrow(), Revision(1));
}

#[test]
fn input_set_and_remove_emit_events() {
    let mut runtime = Runtime::new();
    let mut events = runtime.subscribe_events();

    let mut input = InputIngredient::new(QueryKindId(1), "Text");

    input.set(
        &mut runtime,
        encode_string_key("a"),
        facet_postcard::to_vec(&"hello".to_string()).unwrap(),
    );

    let runner = rt();
    match runner.block_on(async { events.recv().await }).unwrap() {
        RuntimeEvent::RevisionBumped { revision } => assert_eq!(revision, Revision(1)),
        other => panic!("expected RevisionBumped, got {other:?}"),
    }

    match runner.block_on(async { events.recv().await }).unwrap() {
        RuntimeEvent::InputSet { revision, kind, key, .. } => {
            assert_eq!(revision, Revision(1));
            assert_eq!(kind, QueryKindId(1));
            assert_eq!(facet_postcard::from_slice::<String>(key.bytes()).unwrap(), "a");
        }
        other => panic!("expected InputSet, got {other:?}"),
    }

    input.remove(&mut runtime, &encode_string_key("a"));

    match runner.block_on(async { events.recv().await }).unwrap() {
        RuntimeEvent::RevisionBumped { revision } => assert_eq!(revision, Revision(2)),
        other => panic!("expected RevisionBumped, got {other:?}"),
    }

    match runner.block_on(async { events.recv().await }).unwrap() {
        RuntimeEvent::InputRemoved { revision, kind, key, .. } => {
            assert_eq!(revision, Revision(2));
            assert_eq!(kind, QueryKindId(1));
            assert_eq!(facet_postcard::from_slice::<String>(key.bytes()).unwrap(), "a");
        }
        other => panic!("expected InputRemoved, got {other:?}"),
    }
}
