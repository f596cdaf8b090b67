use transitive_set::definition::ProjectionSpec;
use transitive_set::definition::TransitiveSetDefinition;
use transitive_set::definition::TransitiveSetProjectionKind;
use transitive_set::errors::TransitiveSetError;
use transitive_set::evaluator::IntEvaluator;
use transitive_set::evaluator::IDENTITY_CALLBACK;
use transitive_set::set::ArtifactGroup;
use transitive_set::set::TransitiveSetGen;
use transitive_set::set::TransitiveSetProjectionKey;
use transitive_set::set::TransitiveSetStore;
use transitive_set::traversal::TransitiveSetOrdering;
use transitive_set::value::Value;

fn args_definition(token: u64) -> TransitiveSetDefinition {
    TransitiveSetDefinition::new(
        "ArgsSet".to_string(),
        vec![ProjectionSpec {
            name: "args".to_string(),
            kind: TransitiveSetProjectionKind::Args,
            projection: IDENTITY_CALLBACK,
        }],
        Vec::new(),
    )
    .export(token)
}

#[test]
fn test_sub_inputs_are_additive_and_non_recursive() {
    // The parent's own direct artifact is extracted eagerly; each child
    // contributes exactly one deferred (key, projection) reference, never its
    // own direct artifacts inline.
    let mut store = TransitiveSetStore::new();
    let mut eval = IntEvaluator;
    let c1 = TransitiveSetGen::new(
        &store, 11, args_definition(1), Some(Value::Artifact(100)), Vec::new(), &mut eval)
        .unwrap();
    let c1 = store.insert(c1);
    let c2 = TransitiveSetGen::new(
        &store, 12, args_definition(1), Some(Value::Artifact(200)), Vec::new(), &mut eval)
        .unwrap();
    let c2 = store.insert(c2);
    let parent = TransitiveSetGen::new(
        &store,
        13,
        args_definition(1),
        Some(Value::Artifact(7)),
        vec![Value::SetRef(c1), Value::SetRef(c2)],
        &mut eval,
    )
    .unwrap();
    let p = store.insert(parent);
    let frozen = store.freeze();
    let subs = frozen.get_projection_sub_inputs(p, 0).unwrap();
    assert_eq!(
        subs,
        vec![
            ArtifactGroup::Artifact(7),
            ArtifactGroup::TransitiveSetProjection(TransitiveSetProjectionKey {
                key: 11,
                projection: 0,
            }),
            ArtifactGroup::TransitiveSetProjection(TransitiveSetProjectionKey {
                key: 12,
                projection: 0,
            }),
        ]
    );
    assert!(!subs.contains(&ArtifactGroup::Artifact(100)));
    assert!(!subs.contains(&ArtifactGroup::Artifact(200)));
}

#[test]
fn test_sub_inputs_of_valueless_set() {
    let mut store = TransitiveSetStore::new();
    let mut eval = IntEvaluator;
    let leaf = TransitiveSetGen::new(
        &store, 5, args_definition(1), Some(Value::Artifact(42)), Vec::new(), &mut eval)
        .unwrap();
    let l = store.insert(leaf);
    let connector = TransitiveSetGen::new(
        &store, 6, args_definition(1), None, vec![Value::SetRef(l)], &mut eval)
        .unwrap();
    let conn = store.insert(connector);
    let frozen = store.freeze();
    let subs = frozen.get_projection_sub_inputs(conn, 0).unwrap();
    assert_eq!(
        subs,
        vec![ArtifactGroup::TransitiveSetProjection(TransitiveSetProjectionKey {
            key: 5,
            projection: 0,
        })]
    );
}

#[test]
fn test_sub_inputs_invalid_projection() {
    let mut store = TransitiveSetStore::new();
    let mut eval = IntEvaluator;
    let leaf = TransitiveSetGen::new(
        &store, 5, args_definition(1), Some(Value::Artifact(42)), Vec::new(), &mut eval)
        .unwrap();
    let l = store.insert(leaf);
    let frozen = store.freeze();
    let r = frozen.get_projection_sub_inputs(l, 3);
    assert!(matches!(r, Err(TransitiveSetError::InvalidProjectionId { index: 3 })));
}

#[test]
fn test_iter_projection_values() {
    let mut store = TransitiveSetStore::new();
    let mut eval = IntEvaluator;
    let leaf = TransitiveSetGen::new(
        &store, 1, args_definition(1), Some(Value::Int(10)), Vec::new(), &mut eval)
        .unwrap();
    let l = store.insert(leaf);
    let root = TransitiveSetGen::new(
        &store, 2, args_definition(1), Some(Value::Int(20)), vec![Value::SetRef(l)], &mut eval)
        .unwrap();
    let r = store.insert(root);
    let values = store.iter_projection_values(r, TransitiveSetOrdering::Preorder, 0).unwrap();
    assert_eq!(values.len(), 2);
    assert!(matches!(values[0], Value::Int(20)));
    assert!(matches!(values[1], Value::Int(10)));
    let bad = store.iter_projection_values(r, TransitiveSetOrdering::Preorder, 1);
    assert!(matches!(bad, Err(TransitiveSetError::InvalidProjectionId { index: 1 })));
}

#[test]
fn test_projection_queries() {
    let mut store = TransitiveSetStore::new();
    let mut eval = IntEvaluator;
    let leaf = TransitiveSetGen::new(
        &store, 9, args_definition(4), Some(Value::Str("flag".to_string())), Vec::new(), &mut eval)
        .unwrap();
    assert_eq!(leaf.key(), 9);
    assert_eq!(leaf.projection_name(0).unwrap(), "args");
    assert!(matches!(
        leaf.projection_name(1),
        Err(TransitiveSetError::InvalidProjectionId { index: 1 })
    ));
    match leaf.get_projection_value(0).unwrap() {
        Some(Value::Str(s)) => assert_eq!(s, "flag"),
        other => panic!("expected the projected string, got {:?}", other),
    }
    let key = leaf.get_projection_key(0);
    assert_eq!(key, TransitiveSetProjectionKey { key: 9, projection: 0 });
    let l = store.insert(leaf);
    let handle = store.project_as_args(l, "args", "postorder").unwrap();
    assert_eq!(handle.transitive_set, l);
    assert_eq!(handle.projection, 0);
    assert_eq!(handle.ordering, TransitiveSetOrdering::Postorder);
    let missing = store.project_as_json(l, "args", "preorder");
    assert!(matches!(missing, Err(TransitiveSetError::ProjectionDoesNotExist { .. })));
    let trav = store.traverse(l, "bfs").unwrap();
    assert_eq!(trav.inner, l);
    assert_eq!(trav.ordering, TransitiveSetOrdering::Bfs);
    let bad = store.traverse(l, "sideways");
    assert!(matches!(bad, Err(TransitiveSetError::InvalidOrdering { .. })));
}
