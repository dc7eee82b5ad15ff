use bms::canonical::Canonicalizer;
use bms::coordinate::CoordinateGenerator;
use bms::delta::DeltaEngine;
use bms::merkle::MerkleChain;
use bms::patch::{PatchOp, PathToken};
use bms::snapshot::SnapshotManager;
use bms::types::{CoordId, Delta, DeltaId};
use bms::value::Value;
use chrono::TimeZone;
use sha3::Digest;

fn num(s: &str) -> Value {
    Value::Num(s.to_string())
}

fn string(s: &str) -> Value {
    Value::Str(s.to_string())
}

fn obj(pairs: Vec<(&str, Value)>) -> Value {
    Value::object(pairs.into_iter().map(|(k, v)| (k.to_string(), v)).collect())
}

fn fixed_time() -> String {
    chrono::Utc
        .with_ymd_and_hms(2025, 10, 28, 12, 0, 0)
        .unwrap()
        .to_rfc3339()
}

#[test]
fn test_canonical_ordering() {
    let value = obj(vec![("z", num("1")), ("a", num("2")), ("m", num("3"))]);
    let canonical = Canonicalizer::canonicalize_str(&value).unwrap();
    assert_eq!(canonical, r#"{"a":2,"m":3,"z":1}"#);
}

#[test]
fn test_nested_canonical() {
    let value = obj(vec![
        ("outer", obj(vec![("z", num("1")), ("a", num("2"))])),
        ("array", Value::Arr(vec![num("3"), num("2"), num("1")])),
    ]);
    let canonical = Canonicalizer::canonicalize_str(&value).unwrap();
    assert_eq!(canonical, r#"{"array":[3,2,1],"outer":{"a":2,"z":1}}"#);
}

#[test]
fn test_deterministic_serialization() {
    let value1 = obj(vec![("a", num("1")), ("b", num("2"))]);
    let value2 = obj(vec![("b", num("2")), ("a", num("1"))]);
    let canon1 = Canonicalizer::canonicalize(&value1).unwrap();
    let canon2 = Canonicalizer::canonicalize(&value2).unwrap();
    assert_eq!(canon1, canon2);
}

#[test]
fn test_canonical_escapes() {
    let value = obj(vec![("s", string("a\"b\\c\nd"))]);
    let canonical = Canonicalizer::canonicalize_str(&value).unwrap();
    assert_eq!(canonical, "{\"s\":\"a\\\"b\\\\c\\u000ad\"}");
}

#[test]
fn test_object_permutation_same_object() {
    let v1 = obj(vec![("x", num("1")), ("y", num("2")), ("z", num("3"))]);
    let v2 = obj(vec![("z", num("3")), ("x", num("1")), ("y", num("2"))]);
    assert_eq!(v1, v2);
    assert_eq!(
        Canonicalizer::canonicalize(&v1).unwrap(),
        Canonicalizer::canonicalize(&v2).unwrap()
    );
}

#[test]
fn test_generate_coordinate() {
    let state = obj(vec![("key", string("value")), ("number", num("42"))]);
    let timestamp = fixed_time();
    let coord = CoordinateGenerator::generate(&state, &timestamp).unwrap();
    assert_eq!(coord.0.len(), 26);
    assert!(CoordinateGenerator::validate(&coord.0).is_ok());
}

#[test]
fn test_deterministic_generation() {
    let state = obj(vec![("a", num("1")), ("b", num("2"))]);
    let timestamp = fixed_time();
    let coord1 = CoordinateGenerator::generate(&state, &timestamp).unwrap();
    let coord2 = CoordinateGenerator::generate(&state, &timestamp).unwrap();
    assert_eq!(coord1.0, coord2.0);
}

#[test]
fn test_different_states_different_coords() {
    let state1 = obj(vec![("key", string("value1"))]);
    let state2 = obj(vec![("key", string("value2"))]);
    let timestamp = fixed_time();
    let coord1 = CoordinateGenerator::generate(&state1, &timestamp).unwrap();
    let coord2 = CoordinateGenerator::generate(&state2, &timestamp).unwrap();
    assert_ne!(coord1.0, coord2.0);
}

#[test]
fn test_nonce_collision_resolution() {
    let state = obj(vec![("key", string("value"))]);
    let timestamp = fixed_time();
    let coord0 = CoordinateGenerator::generate(&state, &timestamp).unwrap();
    let coord1 = CoordinateGenerator::generate_with_nonce(&state, &timestamp, 1).unwrap();
    let coord2 = CoordinateGenerator::generate_with_nonce(&state, &timestamp, 2).unwrap();
    assert_ne!(coord0.0, coord1.0);
    assert_ne!(coord1.0, coord2.0);
    assert_ne!(coord0.0, coord2.0);
}

#[test]
fn test_validate_invalid_length() {
    let result = CoordinateGenerator::validate("TOOSHORT");
    assert!(result.is_err());
}

#[test]
fn test_validate_invalid_chars() {
    let result = CoordinateGenerator::validate("ABCDEFGH12345678901234!!!!");
    assert!(result.is_err());
}

#[test]
fn test_validate_accepts_wellformed() {
    assert!(CoordinateGenerator::validate("ABCDEFGHIJKLMNOPQRSTUVW234").is_ok());
    assert!(CoordinateGenerator::validate("abcdefghijklmnopqrstuvw234").is_err());
}

#[test]
fn test_compute_delta() {
    let prev = obj(vec![("a", num("1")), ("b", num("2"))]);
    let current = obj(vec![("a", num("1")), ("b", num("3")), ("c", num("4"))]);
    let ops = DeltaEngine::compute_delta(&prev, &current).unwrap();
    assert!(!ops.is_empty());
}

#[test]
fn test_apply_delta() {
    let prev = obj(vec![("a", num("1")), ("b", num("2"))]);
    let current = obj(vec![("a", num("1")), ("b", num("3")), ("c", num("4"))]);
    let ops = DeltaEngine::compute_delta(&prev, &current).unwrap();
    let mut reconstructed = prev.clone();
    DeltaEngine::apply_delta(&mut reconstructed, &ops).unwrap();
    assert_eq!(reconstructed, current);
}

#[test]
fn test_patch_round_trip_arrays() {
    let prev = obj(vec![("arr", Value::Arr(vec![num("1"), num("2"), num("3")]))]);
    let cur = obj(vec![("arr", Value::Arr(vec![num("9"), num("2")]))]);
    let ops = DeltaEngine::compute_delta(&prev, &cur).unwrap();
    let mut s = prev.clone();
    DeltaEngine::apply_delta(&mut s, &ops).unwrap();
    assert_eq!(s, cur);

    let prev2 = obj(vec![("arr", Value::Arr(vec![num("1")]))]);
    let cur2 = obj(vec![("arr", Value::Arr(vec![num("1"), num("2"), num("3")]))]);
    let ops2 = DeltaEngine::compute_delta(&prev2, &cur2).unwrap();
    let mut s2 = prev2.clone();
    DeltaEngine::apply_delta(&mut s2, &ops2).unwrap();
    assert_eq!(s2, cur2);
}

#[test]
fn test_apply_delta_error() {
    let mut state = Value::empty_object();
    let ops = vec![PatchOp::Remove {
        path: vec![PathToken::Key("x".to_string())],
    }];
    let before = state.clone();
    let result = DeltaEngine::apply_delta(&mut state, &ops);
    assert!(matches!(
        result,
        Err(bms::BmsError::DeltaCompression { op_index: 0 })
    ));
    assert_eq!(state, before);
}

#[test]
fn test_hash_delta_deterministic() {
    let ops = vec![PatchOp::Replace {
        path: vec![PathToken::Key("b".to_string())],
        value: num("3"),
    }];
    let hash1 = DeltaEngine::hash_delta(&ops).unwrap();
    let hash2 = DeltaEngine::hash_delta(&ops).unwrap();
    assert_eq!(hash1.0, hash2.0);
}

#[test]
fn test_verify_delta_hash() {
    let ops = vec![PatchOp::Add {
        path: vec![PathToken::Key("c".to_string())],
        value: num("4"),
    }];
    let hash = DeltaEngine::hash_delta(&ops).unwrap();
    assert!(DeltaEngine::verify_delta_hash(&ops, &hash).is_ok());
}

#[test]
fn test_verify_delta_hash_mismatch() {
    let ops = vec![PatchOp::Add {
        path: vec![PathToken::Key("c".to_string())],
        value: num("4"),
    }];
    let wrong = bms::types::Hash("00".repeat(32));
    let result = DeltaEngine::verify_delta_hash(&ops, &wrong);
    assert!(matches!(result, Err(bms::BmsError::HashMismatch { .. })));
}

#[test]
fn test_delta_id_is_hash_prefix() {
    let ops = vec![PatchOp::Add {
        path: vec![PathToken::Key("c".to_string())],
        value: num("4"),
    }];
    let hash = DeltaEngine::hash_delta(&ops).unwrap();
    let id = DeltaEngine::generate_delta_id(&ops).unwrap();
    assert_eq!(id.0.len(), 32);
    assert_eq!(id.0, hash.0[..32]);
}

#[test]
fn test_hash_state_exact() {
    let state = Value::empty_object();
    let got = DeltaEngine::hash_state(&state).unwrap();
    let expected = hex::encode(sha3::Sha3_256::digest(b"{}"));
    assert_eq!(got.0, expected);
}

#[test]
fn test_pointer_escaping_in_patch_digest() {
    let prev = Value::empty_object();
    let cur = obj(vec![("a/b~c", num("1"))]);
    let ops = DeltaEngine::compute_delta(&prev, &cur).unwrap();
    let got = DeltaEngine::hash_delta(&ops).unwrap();
    let canonical_ops = r#"[{"op":"add","path":"/a~1b~0c","value":1}]"#;
    let expected = hex::encode(sha3::Sha3_256::digest(canonical_ops.as_bytes()));
    assert_eq!(got.0, expected);
}

fn mock_delta(
    id: &str,
    coord_id: &str,
    parent_id: Option<&str>,
    parent_hash: Option<&str>,
    delta_hash: &str,
) -> Delta {
    let parent_hash_obj = parent_hash.map(|h| bms::types::Hash(h.to_string()));
    let chain_hash = if let Some(ph) = &parent_hash_obj {
        MerkleChain::compute_chain_hash(ph, &bms::types::Hash(delta_hash.to_string()))
    } else {
        bms::types::Hash(delta_hash.to_string())
    };
    Delta {
        id: DeltaId(id.to_string()),
        coord_id: CoordId(coord_id.to_string()),
        parent_id: parent_id.map(|s| DeltaId(s.to_string())),
        parent_hash: parent_hash_obj,
        delta_hash: bms::types::Hash(delta_hash.to_string()),
        chain_hash,
        ops: vec![],
        created_at: "2025-10-28T12:00:00+00:00".to_string(),
        tags: None,
        author: None,
    }
}

#[test]
fn test_compute_chain_hash() {
    let parent = bms::types::Hash("abc123".to_string());
    let current = bms::types::Hash("def456".to_string());
    let chain_hash = MerkleChain::compute_chain_hash(&parent, &current);
    assert_eq!(chain_hash.0.len(), 64);
}

#[test]
fn test_chain_hash_exact() {
    let parent = bms::types::Hash("abc123".to_string());
    let current = bms::types::Hash("def456".to_string());
    let chain_hash = MerkleChain::compute_chain_hash(&parent, &current);
    let expected = hex::encode(sha3::Sha3_256::digest(b"abc123def456"));
    assert_eq!(chain_hash.0, expected);
}

#[test]
fn test_verify_first_delta() {
    let delta = mock_delta("d1", "c1", None, None, "hash1");
    assert!(MerkleChain::verify_delta(&delta).is_ok());
}

#[test]
fn test_verify_linked_delta() {
    let delta = mock_delta("d2", "c1", Some("d1"), Some("hash1"), "hash2");
    assert!(MerkleChain::verify_delta(&delta).is_ok());
}

#[test]
fn test_verify_broken_chain() {
    let mut delta = mock_delta("d2", "c1", Some("d1"), Some("hash1"), "hash2");
    delta.chain_hash = bms::types::Hash("corrupted".to_string());
    assert!(MerkleChain::verify_delta(&delta).is_err());
}

#[test]
fn test_merkle_chain_broken_variant() {
    let mut delta = mock_delta("d2", "c1", Some("d1"), Some("hash1"), "hash2");
    delta.parent_hash = None;
    let result = MerkleChain::verify_delta(&delta);
    assert!(matches!(
        result,
        Err(bms::BmsError::MerkleChainBroken { .. })
    ));
}

#[test]
fn test_verify_chain() {
    let delta1 = mock_delta("d1", "c1", None, None, "hash1");
    let delta2 = mock_delta("d2", "c1", Some("d1"), Some("hash1"), "hash2");
    let delta3 = mock_delta("d3", "c1", Some("d2"), Some(&delta2.chain_hash.0.clone()), "hash3");
    let deltas = vec![delta1, delta2, delta3];
    assert!(MerkleChain::verify_chain(&deltas).is_ok());
}

#[test]
fn test_find_break_point() {
    let delta1 = mock_delta("d1", "c1", None, None, "hash1");
    let mut delta2 = mock_delta("d2", "c1", Some("d1"), Some("hash1"), "hash2");
    delta2.chain_hash = bms::types::Hash("corrupted".to_string());
    let delta3 = mock_delta("d3", "c1", Some("d2"), Some(&delta2.delta_hash.0.clone()), "hash3");
    let deltas = vec![delta1, delta2, delta3];
    let break_point = MerkleChain::find_break_point(&deltas);
    assert_eq!(break_point, Some(1));
}

#[test]
fn test_should_snapshot() {
    let manager = SnapshotManager::new(10);
    assert!(!manager.should_snapshot(5));
    assert!(manager.should_snapshot(10));
    assert!(!manager.should_snapshot(11));
    assert!(manager.should_snapshot(20));
}

#[test]
fn test_create_snapshot() {
    let manager = SnapshotManager::new(10);
    let state = obj(vec![("key", string("value")), ("number", num("42"))]);
    let snapshot = manager
        .create_snapshot(
            CoordId("test_coord".to_string()),
            DeltaId("test_delta".to_string()),
            state.clone(),
        )
        .unwrap();
    assert_eq!(snapshot.coord_id.0, "test_coord");
    assert_eq!(snapshot.state, state);
}

#[test]
fn test_verify_snapshot() {
    let manager = SnapshotManager::new(10);
    let state = obj(vec![("key", string("value"))]);
    let snapshot = manager
        .create_snapshot(
            CoordId("test".to_string()),
            DeltaId("delta".to_string()),
            state,
        )
        .unwrap();
    assert!(manager.verify_snapshot(&snapshot).is_ok());
}

#[test]
fn test_reconstruct_from_snapshot() {
    let manager = SnapshotManager::new(10);
    let initial_state = obj(vec![("a", num("1")), ("b", num("2"))]);
    let snapshot = manager
        .create_snapshot(
            CoordId("test".to_string()),
            DeltaId("d1".to_string()),
            initial_state.clone(),
        )
        .unwrap();
    let new_state = obj(vec![("a", num("1")), ("b", num("3")), ("c", num("4"))]);
    let ops = DeltaEngine::compute_delta(&initial_state, &new_state).unwrap();
    let delta_hash = DeltaEngine::hash_delta(&ops).unwrap();
    let delta = Delta {
        id: DeltaId("d2".to_string()),
        coord_id: CoordId("test".to_string()),
        parent_id: Some(DeltaId("d1".to_string())),
        parent_hash: Some(snapshot.state_hash.clone()),
        delta_hash: delta_hash.clone(),
        chain_hash: delta_hash,
        ops,
        created_at: "2025-10-28T12:00:00+00:00".to_string(),
        tags: None,
        author: None,
    };
    let reconstructed = SnapshotManager::reconstruct(&snapshot, &vec![delta]).unwrap();
    assert_eq!(reconstructed, new_state);
}

#[test]
fn test_reconstruction_failed_variant() {
    let manager = SnapshotManager::new(10);
    let snapshot = manager
        .create_snapshot(
            CoordId("test".to_string()),
            DeltaId("d1".to_string()),
            Value::empty_object(),
        )
        .unwrap();
    let bad = Delta {
        id: DeltaId("bad".to_string()),
        coord_id: CoordId("test".to_string()),
        parent_id: None,
        parent_hash: None,
        delta_hash: bms::types::Hash("h".to_string()),
        chain_hash: bms::types::Hash("h".to_string()),
        ops: vec![PatchOp::Remove {
            path: vec![PathToken::Key("missing".to_string())],
        }],
        created_at: "2025-10-28T12:00:00+00:00".to_string(),
        tags: None,
        author: None,
    };
    let result = SnapshotManager::reconstruct(&snapshot, &vec![bad]);
    assert!(matches!(
        result,
        Err(bms::BmsError::ReconstructionFailed(ref id)) if id == "bad"
    ));
}
