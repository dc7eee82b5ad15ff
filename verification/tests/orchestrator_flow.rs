use bms::delta::DeltaEngine;
use bms::orchestrator::Orchestrator;
use bms::types::CoordId;
use bms::value::Value;
use sha3::Digest;

fn num2(s: &str) -> Value {
    Value::Num(s.to_string())
}

fn obj2(pairs: Vec<(&str, Value)>) -> Value {
    Value::object(pairs.into_iter().map(|(k, v)| (k.to_string(), v)).collect())
}

const FIXED_TIME: &str = "2025-10-28T12:00:00+00:00";

#[test]
fn scenario_fixed_time_append() {
    let mut orch = Orchestrator::new(128);
    let state = obj2(vec![("a", num2("1")), ("b", num2("2"))]);
    let outcome = orch.append(&state, None, None, None, FIXED_TIME).unwrap();

    let mut input: Vec<u8> = Vec::new();
    input.extend_from_slice(br#"{"a":1,"b":2}"#);
    input.push(b'|');
    input.extend_from_slice(FIXED_TIME.as_bytes());
    let digest = sha3::Sha3_256::digest(&input);
    let expected = base32::encode(base32::Alphabet::Rfc4648 { padding: false }, &digest[..16]);
    assert_eq!(outcome.coord_id.0, expected);
    assert_eq!(outcome.coord_id.0.len(), 26);

    let recalled = orch.recall(&outcome.coord_id.0).unwrap();
    assert_eq!(recalled.state, state);
    assert_eq!(recalled.delta_count, 1);
}

#[test]
fn scenario_two_appends_under_hint() {
    let mut orch = Orchestrator::new(128);
    let hint = "COORD1".to_string();
    let s1 = obj2(vec![("a", num2("1"))]);
    let s2 = obj2(vec![("a", num2("1")), ("b", num2("2"))]);
    let o1 = orch.append(&s1, Some(&hint), None, None, FIXED_TIME).unwrap();
    let o2 = orch.append(&s2, Some(&hint), None, None, FIXED_TIME).unwrap();
    assert_eq!(o1.coord_id.0, "COORD1");
    assert_eq!(o2.coord_id.0, "COORD1");

    let recalled = orch.recall("COORD1").unwrap();
    assert_eq!(recalled.state, s2);
    assert_eq!(recalled.delta_count, 2);

    let report = orch.verify("COORD1");
    assert_eq!(report.verified_deltas, 2);
    assert_eq!(report.total_deltas, 2);
    assert!(report.chain_valid);
    assert_eq!(report.first_break, None);
}

#[test]
fn scenario_tamper_detection() {
    let mut orch = Orchestrator::new(128);
    let hint = "COORD1".to_string();
    let s1 = obj2(vec![("a", num2("1"))]);
    let s2 = obj2(vec![("a", num2("1")), ("b", num2("2"))]);
    orch.append(&s1, Some(&hint), None, None, FIXED_TIME).unwrap();
    orch.append(&s2, Some(&hint), None, None, FIXED_TIME).unwrap();

    orch.repo.deltas[1].chain_hash = bms::types::Hash("00".repeat(32));

    let report = orch.verify("COORD1");
    assert_eq!(report.verified_deltas, 1);
    assert_eq!(report.total_deltas, 2);
    assert!(!report.chain_valid);
    assert_eq!(report.first_break, Some(1));
}

#[test]
fn scenario_snapshot_cadence() {
    let mut orch = Orchestrator::new(128);
    let hint = "SNAPCOORD".to_string();
    let mut last_state = Value::empty_object();
    for n in 1..=128u32 {
        let state = obj2(vec![("i", num2(&n.to_string()))]);
        let outcome = orch
            .append(&state, Some(&hint), None, None, FIXED_TIME)
            .unwrap();
        if n < 128 {
            assert!(!outcome.snapshot_created);
        } else {
            assert!(outcome.snapshot_created);
        }
        last_state = state;
    }
    let snapshot = orch
        .repo
        .get_latest_snapshot(&CoordId(hint.clone()))
        .unwrap();
    assert_eq!(snapshot.state, last_state);
    assert!(orch.manager.verify_snapshot(&snapshot).is_ok());
}

#[test]
fn scenario_delta_ops_digest() {
    let prev = obj2(vec![("a", num2("1")), ("b", num2("2"))]);
    let cur = obj2(vec![("a", num2("1")), ("b", num2("3")), ("c", num2("4"))]);
    let ops = DeltaEngine::compute_delta(&prev, &cur).unwrap();

    let mut applied = prev.clone();
    DeltaEngine::apply_delta(&mut applied, &ops).unwrap();
    assert_eq!(applied, cur);

    let canonical_ops =
        r#"[{"op":"replace","path":"/b","value":3},{"op":"add","path":"/c","value":4}]"#;
    let expected_hash = hex::encode(sha3::Sha3_256::digest(canonical_ops.as_bytes()));
    let id = DeltaEngine::generate_delta_id(&ops).unwrap();
    assert_eq!(id.0, expected_hash[..32]);
}

#[test]
fn scenario_tampered_delta_hash() {
    let mut orch = Orchestrator::new(128);
    let hint = "COORD1".to_string();
    orch.append(&obj2(vec![("a", num2("1"))]), Some(&hint), None, None, FIXED_TIME)
        .unwrap();
    orch.append(&obj2(vec![("a", num2("2"))]), Some(&hint), None, None, FIXED_TIME)
        .unwrap();
    orch.repo.deltas[1].delta_hash = bms::types::Hash("11".repeat(32));
    let report = orch.verify("COORD1");
    assert!(!report.chain_valid);
    assert_eq!(report.first_break, Some(1));
}

#[test]
fn scenario_tampered_parent_hash() {
    let mut orch = Orchestrator::new(128);
    let hint = "COORD1".to_string();
    orch.append(&obj2(vec![("a", num2("1"))]), Some(&hint), None, None, FIXED_TIME)
        .unwrap();
    orch.append(&obj2(vec![("a", num2("2"))]), Some(&hint), None, None, FIXED_TIME)
        .unwrap();
    orch.repo.deltas[1].parent_hash = Some(bms::types::Hash("22".repeat(32)));
    let report = orch.verify("COORD1");
    assert!(!report.chain_valid);
    assert_eq!(report.first_break, Some(1));
}

#[test]
fn scenario_tampered_ops() {
    // chain links do not rehash the operations; the per-delta digest
    // check is what catches a rewritten patch
    let mut orch = Orchestrator::new(128);
    let hint = "COORD1".to_string();
    orch.append(&obj2(vec![("a", num2("1"))]), Some(&hint), None, None, FIXED_TIME)
        .unwrap();
    orch.repo.deltas[0].ops = vec![bms::patch::PatchOp::Remove {
        path: vec![bms::patch::PathToken::Key("a".to_string())],
    }];
    let delta = &orch.repo.deltas[0];
    let check = DeltaEngine::verify_delta_hash(&delta.ops, &delta.delta_hash);
    assert!(matches!(check, Err(bms::BmsError::HashMismatch { .. })));
}

#[test]
fn test_append_identical_state_twice() {
    let mut orch = Orchestrator::new(128);
    let hint = "COORD1".to_string();
    let state = obj2(vec![("a", num2("1"))]);
    orch.append(&state, Some(&hint), None, None, FIXED_TIME).unwrap();
    orch.append(&state, Some(&hint), None, None, FIXED_TIME).unwrap();
    let recalled = orch.recall("COORD1").unwrap();
    assert_eq!(recalled.state, state);
    assert_eq!(recalled.delta_count, 2);
    let report = orch.verify("COORD1");
    assert!(report.chain_valid);
}

#[test]
fn test_round_trip_nested() {
    let prev = obj2(vec![
        ("a", obj2(vec![("x", num2("1")), ("y", Value::Arr(vec![num2("1"), num2("2")]))])),
        ("b", Value::Null),
        ("c", Value::Str("keep".to_string())),
    ]);
    let cur = obj2(vec![
        (
            "a",
            obj2(vec![
                ("y", Value::Arr(vec![num2("1"), num2("3"), num2("4")])),
                ("z", Value::Bool(true)),
            ]),
        ),
        ("c", Value::Str("keep".to_string())),
        ("d", Value::Arr(vec![])),
    ]);
    let ops = DeltaEngine::compute_delta(&prev, &cur).unwrap();
    let mut state = prev.clone();
    DeltaEngine::apply_delta(&mut state, &ops).unwrap();
    assert_eq!(state, cur);
}

#[test]
fn test_recall_not_found() {
    let orch = Orchestrator::new(128);
    let result = orch.recall("ABCDEFGHIJKLMNOPQRSTUVW234");
    assert!(matches!(result, Err(bms::BmsError::DeltaNotFound(_))));
}

#[test]
fn test_force_snapshot() {
    let mut orch = Orchestrator::new(128);
    let hint = "FORCESNAP".to_string();
    let state = obj2(vec![("k", num2("7"))]);
    orch.append(&state, Some(&hint), None, None, FIXED_TIME).unwrap();
    let (snapshot_id, state_hash) = orch.force_snapshot(&hint).unwrap();
    assert_eq!(snapshot_id.0.len(), 32);
    assert_eq!(state_hash.0.len(), 64);
    let snapshot = orch
        .repo
        .get_latest_snapshot(&CoordId(hint.clone()))
        .unwrap();
    assert_eq!(snapshot.state, state);
    assert!(orch.manager.verify_snapshot(&snapshot).is_ok());
    assert_eq!(snapshot_id.0, state_hash.0[..32]);
}

#[test]
fn test_force_snapshot_empty_coordinate() {
    let mut orch = Orchestrator::new(128);
    let result = orch.force_snapshot("NOSUCHCOORDINATE");
    assert!(matches!(result, Err(bms::BmsError::DeltaNotFound(_))));
}

#[test]
fn test_reconstruction_agreement() {
    // snapshots every 2 deltas: recall goes through the snapshot path,
    // folding every delta from the empty object must give the same state
    let mut orch = Orchestrator::new(2);
    let hint = "AGREECOORD".to_string();
    for n in 1..=5u32 {
        let state = obj2(vec![("v", num2(&n.to_string())), ("n", num2(&(n * 10).to_string()))]);
        orch.append(&state, Some(&hint), None, None, FIXED_TIME).unwrap();
    }
    let recalled = orch.recall(&hint).unwrap();

    let deltas = orch.repo.get_deltas(&CoordId(hint.clone()));
    assert_eq!(deltas.len(), 5);
    let mut folded = Value::empty_object();
    for d in &deltas {
        DeltaEngine::apply_delta(&mut folded, &d.ops).unwrap();
    }
    assert_eq!(recalled.state, folded);
    assert_eq!(recalled.delta_count, 5);
}

#[test]
fn test_stats_and_listing() {
    let mut orch = Orchestrator::new(2);
    let h1 = "COORDONE".to_string();
    let h2 = "COORDTWO".to_string();
    orch.append(&obj2(vec![("a", num2("1"))]), Some(&h1), None, None, FIXED_TIME)
        .unwrap();
    orch.append(&obj2(vec![("b", num2("2"))]), Some(&h2), None, None, FIXED_TIME)
        .unwrap();
    orch.append(&obj2(vec![("b", num2("3"))]), Some(&h2), None, None, FIXED_TIME)
        .unwrap();
    let stats = orch.repo.get_stats();
    assert_eq!(stats.coordinate_count, 2);
    assert_eq!(stats.delta_count, 3);
    assert_eq!(stats.snapshot_count, 1);
    let coords = orch.repo.list_coordinates(100);
    assert_eq!(coords.len(), 2);
    assert_eq!(coords[0].id.0, "COORDTWO");
    assert_eq!(coords[1].id.0, "COORDONE");
}

#[test]
fn test_filter_matching() {
    let meta = bms::search::VectorMetadata::new(
        CoordId("ABCDEFGHIJKLMNOPQRSTUVW234".to_string()),
        FIXED_TIME.to_string(),
    )
    .with_author("ada".to_string())
    .with_tags(vec!["x".to_string(), "y".to_string()]);
    let filter = bms::search::SearchFilter {
        author: Some("ada".to_string()),
        tags: Some(vec!["y".to_string(), "z".to_string()]),
        created_after: None,
        created_before: None,
    };
    assert!(filter.matches(&meta));
    let filter2 = bms::search::SearchFilter {
        author: Some("bob".to_string()),
        tags: None,
        created_after: None,
        created_before: None,
    };
    assert!(!filter2.matches(&meta));
    let filter3 = bms::search::SearchFilter {
        author: None,
        tags: Some(vec!["q".to_string()]),
        created_after: None,
        created_before: None,
    };
    assert!(!filter3.matches(&meta));
}

#[test]
fn test_append_stores_coordinate_metadata() {
    let mut orch = Orchestrator::new(128);
    let hint = "METACOORD".to_string();
    let meta = vec![("source".to_string(), Value::Str("import".to_string()))];
    orch.append(
        &obj2(vec![("a", num2("1"))]),
        Some(&hint),
        Some(meta),
        Some("ada".to_string()),
        FIXED_TIME,
    )
    .unwrap();
    assert_eq!(orch.repo.coords.len(), 1);
    let coord = &orch.repo.coords[0];
    assert_eq!(coord.id.0, "METACOORD");
    match &coord.metadata {
        Some(entries) => {
            assert_eq!(entries.len(), 1);
            assert_eq!(entries[0].0, "source");
            assert_eq!(entries[0].1, Value::Str("import".to_string()));
        }
        None => panic!("metadata was not stored"),
    }
    let deltas = orch.repo.get_deltas(&CoordId(hint.clone()));
    assert_eq!(deltas[0].author.as_deref(), Some("ada"));
}

#[test]
fn test_append_binds_parent_and_digests() {
    let mut orch = Orchestrator::new(128);
    let hint = "LINKCOORD".to_string();
    orch.append(&obj2(vec![("a", num2("1"))]), Some(&hint), None, None, FIXED_TIME)
        .unwrap();
    orch.append(&obj2(vec![("a", num2("2"))]), Some(&hint), None, None, FIXED_TIME)
        .unwrap();
    let deltas = orch.repo.get_deltas(&CoordId(hint.clone()));
    assert_eq!(deltas.len(), 2);

    let first = &deltas[0];
    assert!(first.parent_id.is_none());
    assert!(first.parent_hash.is_none());
    assert_eq!(first.chain_hash.0, first.delta_hash.0);
    assert_eq!(first.delta_hash.0, DeltaEngine::hash_delta(&first.ops).unwrap().0);
    assert_eq!(first.id.0, first.delta_hash.0[..32]);

    let second = &deltas[1];
    assert_eq!(second.parent_id.as_ref().unwrap().0, first.id.0);
    assert_eq!(second.parent_hash.as_ref().unwrap().0, first.chain_hash.0);
    let rebound = bms::MerkleChain::compute_chain_hash(
        second.parent_hash.as_ref().unwrap(),
        &second.delta_hash,
    );
    assert_eq!(second.chain_hash.0, rebound.0);
}
