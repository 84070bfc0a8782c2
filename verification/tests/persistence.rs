use picante::error::PicanteError;
use picante::frame::FrameStack;
use picante::input::InputIngredient;
use picante::interned::{InternId, InternedIngredient};
use picante::key::{Dep, Key, QueryKindId};
use picante::persist::{
    decode_cache_file, decode_derived_record, decode_section_blob, encode_cache_file,
    encode_derived_record, encode_section, ensure_unique_kinds, plan_load, CacheFile,
    IngredientDesc, Section, SectionType,
};
use picante::revision::Revision;
use picante::runtime::Runtime;

fn key(bytes: &[u8]) -> Key {
    Key::from_bytes(bytes.to_vec())
}

#[test]
fn empty_cache_file_has_exact_bytes() {
    let cache = CacheFile { format_version: 1, current_revision: 5, sections: Vec::new() };
    let bytes = encode_cache_file(&cache);
    assert_eq!(
        bytes,
        vec![
            1, 0, 0, 0, // format_version
            5, 0, 0, 0, 0, 0, 0, 0, // current_revision
            0, 0, 0, 0, 0, 0, 0, 0, // section count
        ]
    );
}

#[test]
fn cache_file_round_trips() {
    let cache = CacheFile {
        format_version: 1,
        current_revision: 3,
        sections: vec![
            Section {
                kind_id: 2,
                kind_name: "x".to_string(),
                section_type: SectionType::Input,
                records: vec![vec![1, 2, 3], vec![]],
            },
            Section {
                kind_id: 3,
                kind_name: "xx".to_string(),
                section_type: SectionType::Derived,
                records: vec![vec![9]],
            },
            Section {
                kind_id: 4,
                kind_name: "names".to_string(),
                section_type: SectionType::Interned,
                records: Vec::new(),
            },
        ],
    };
    let bytes = encode_cache_file(&cache);
    let decoded = decode_cache_file(&bytes).unwrap();

    assert_eq!(decoded.format_version, 1);
    assert_eq!(decoded.current_revision, 3);
    assert_eq!(decoded.sections.len(), 3);
    assert_eq!(decoded.sections[0].kind_id, 2);
    assert_eq!(decoded.sections[0].kind_name, "x");
    assert_eq!(decoded.sections[0].section_type, SectionType::Input);
    assert_eq!(decoded.sections[0].records, vec![vec![1, 2, 3], vec![]]);
    assert_eq!(decoded.sections[1].section_type, SectionType::Derived);
    assert_eq!(decoded.sections[2].section_type, SectionType::Interned);
    assert_eq!(decoded.sections[2].kind_name, "names");
}

#[test]
fn cache_decode_rejects_trailing_bytes() {
    let cache = CacheFile { format_version: 1, current_revision: 0, sections: Vec::new() };
    let mut bytes = encode_cache_file(&cache);
    bytes.push(0);
    assert!(decode_cache_file(&bytes).is_none());
}

#[test]
fn section_blob_round_trips() {
    let section = Section {
        kind_id: 7,
        kind_name: "résumé".to_string(),
        section_type: SectionType::Interned,
        records: vec![vec![0, 255], vec![42]],
    };
    let blob = encode_section(&section);
    let decoded = decode_section_blob(&blob).unwrap();
    assert_eq!(decoded.kind_id, 7);
    assert_eq!(decoded.kind_name, "résumé");
    assert_eq!(decoded.section_type, SectionType::Interned);
    assert_eq!(decoded.records, vec![vec![0, 255], vec![42]]);
}

#[test]
fn derived_record_round_trips() {
    let deps = vec![
        Dep { kind: QueryKindId(2), key: key(b"x") },
        Dep { kind: QueryKindId(4), key: key(&[0, 0, 0, 0]) },
    ];
    let blob = encode_derived_record(&key(b"greeting"), &vec![104, 105], 1, &deps);
    let (k, v, at, d) = decode_derived_record(&blob).unwrap();
    assert_eq!(k, key(b"greeting"));
    assert_eq!(v, vec![104, 105]);
    assert_eq!(at, 1);
    assert_eq!(d, deps);
}

#[test]
fn unique_kinds_are_enforced() {
    let ok = vec![
        IngredientDesc { kind_id: 1, kind_name: "a".to_string(), section_type: SectionType::Input },
        IngredientDesc {
            kind_id: 2,
            kind_name: "b".to_string(),
            section_type: SectionType::Derived,
        },
    ];
    assert!(ensure_unique_kinds(&ok).is_ok());

    let dup = vec![
        IngredientDesc { kind_id: 1, kind_name: "a".to_string(), section_type: SectionType::Input },
        IngredientDesc { kind_id: 1, kind_name: "b".to_string(), section_type: SectionType::Input },
    ];
    match ensure_unique_kinds(&dup) {
        Err(PicanteError::Cache { .. }) => {}
        other => panic!("expected Cache, got {other:?}"),
    }
}

fn sample_cache() -> CacheFile {
    CacheFile {
        format_version: 1,
        current_revision: 1,
        sections: vec![
            Section {
                kind_id: 2,
                kind_name: "x".to_string(),
                section_type: SectionType::Input,
                records: Vec::new(),
            },
            Section {
                kind_id: 99,
                kind_name: "from the future".to_string(),
                section_type: SectionType::Derived,
                records: Vec::new(),
            },
        ],
    }
}

fn sample_descs() -> Vec<IngredientDesc> {
    vec![IngredientDesc {
        kind_id: 2,
        kind_name: "x".to_string(),
        section_type: SectionType::Input,
    }]
}

#[test]
fn plan_load_skips_unknown_kinds() {
    let plan = plan_load(&sample_cache(), &sample_descs()).unwrap();
    assert_eq!(plan, vec![Some(0), None]);
}

#[test]
fn plan_load_rejects_version_mismatch() {
    let mut cache = sample_cache();
    cache.format_version = 2;
    match plan_load(&cache, &sample_descs()) {
        Err(PicanteError::Cache { .. }) => {}
        other => panic!("expected Cache, got {other:?}"),
    }
}

#[test]
fn plan_load_rejects_name_mismatch() {
    let mut cache = sample_cache();
    cache.sections[0].kind_name = "y".to_string();
    match plan_load(&cache, &sample_descs()) {
        Err(PicanteError::Cache { .. }) => {}
        other => panic!("expected Cache, got {other:?}"),
    }
}

#[test]
fn plan_load_rejects_type_mismatch() {
    let mut cache = sample_cache();
    cache.sections[0].section_type = SectionType::Derived;
    match plan_load(&cache, &sample_descs()) {
        Err(PicanteError::Cache { .. }) => {}
        other => panic!("expected Cache, got {other:?}"),
    }
}

/// A whole save/load pass over the three ingredient types, ending at the
/// saved revision with the saved state.
#[test]
fn persistence_round_trip_restores_state() {
    // Build up state: an input "name" -> "alice" at revision 1, an
    // interned "alice" with id 0, and a derived "greeting" cell.
    let mut runtime = Runtime::new();
    let mut input = InputIngredient::new(QueryKindId(2), "name");
    let mut interned = InternedIngredient::new(QueryKindId(4), "names");

    input.set(&mut runtime, key(b"name"), b"alice".to_vec());
    assert_eq!(interned.intern(key(b"alice")), InternId(0));

    let greeting_deps = vec![Dep { kind: QueryKindId(2), key: key(b"name") }];
    let greeting = encode_derived_record(&key(b"unit"), &b"hello alice".to_vec(), 1, &greeting_deps);

    let cache = CacheFile {
        format_version: 1,
        current_revision: runtime.current_revision().0,
        sections: vec![
            Section {
                kind_id: 2,
                kind_name: "name".to_string(),
                section_type: SectionType::Input,
                records: input.save_records(),
            },
            Section {
                kind_id: 3,
                kind_name: "greeting".to_string(),
                section_type: SectionType::Derived,
                records: vec![greeting],
            },
            Section {
                kind_id: 4,
                kind_name: "names".to_string(),
                section_type: SectionType::Interned,
                records: interned.save_records(),
            },
        ],
    };
    let bytes = encode_cache_file(&cache);

    // Load into fresh ingredients.
    let decoded = decode_cache_file(&bytes).unwrap();
    let descs = vec![
        IngredientDesc {
            kind_id: 2,
            kind_name: "name".to_string(),
            section_type: SectionType::Input,
        },
        IngredientDesc {
            kind_id: 3,
            kind_name: "greeting".to_string(),
            section_type: SectionType::Derived,
        },
        IngredientDesc {
            kind_id: 4,
            kind_name: "names".to_string(),
            section_type: SectionType::Interned,
        },
    ];
    ensure_unique_kinds(&descs).unwrap();
    let plan = plan_load(&decoded, &descs).unwrap();
    assert_eq!(plan, vec![Some(0), Some(1), Some(2)]);

    let mut fresh_runtime = Runtime::new();
    let mut fresh_input = InputIngredient::new(QueryKindId(2), "name");
    let mut fresh_interned = InternedIngredient::new(QueryKindId(4), "names");

    fresh_input.load_records(&decoded.sections[0].records).unwrap();
    fresh_interned.load_records(&decoded.sections[2].records).unwrap();
    let (gk, gv, gat, gdeps) = decode_derived_record(&decoded.sections[1].records[0]).unwrap();
    fresh_runtime.set_current_revision(Revision(decoded.current_revision));

    assert_eq!(fresh_runtime.current_revision(), Revision(1));
    let mut frames = FrameStack::new();
    assert_eq!(fresh_input.get(&mut frames, &key(b"name")), Some(b"alice".to_vec()));
    assert_eq!(fresh_interned.intern(key(b"alice")), InternId(0));
    assert_eq!(gk, key(b"unit"));
    assert_eq!(gv, b"hello alice".to_vec());
    assert_eq!(gat, 1);
    assert_eq!(gdeps, greeting_deps);
}
