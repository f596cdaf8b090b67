use transitive_set::definition::ProjectionSpec;
use transitive_set::definition::ReductionSpec;
use transitive_set::definition::TransitiveSetDefinition;
use transitive_set::definition::TransitiveSetProjectionKind;
use transitive_set::errors::TransitiveSetError;
use transitive_set::traversal::TransitiveSetOrdering;
use transitive_set::value::collect_artifact_refs;
use transitive_set::value::is_args_like;
use transitive_set::value::is_json_like;
use transitive_set::value::Value;

fn two_kind_definition() -> TransitiveSetDefinition {
    TransitiveSetDefinition::new(
        "Mixed".to_string(),
        vec![
            ProjectionSpec {
                name: "cmd".to_string(),
                kind: TransitiveSetProjectionKind::Args,
                projection: 0,
            },
            ProjectionSpec {
                name: "meta".to_string(),
                kind: TransitiveSetProjectionKind::Json,
                projection: 0,
            },
        ],
        vec![ReductionSpec { name: "sum".to_string(), reduce: 0 }],
    )
    .export(1)
}

#[test]
fn test_get_index_of_projection() {
    let defn = two_kind_definition();
    assert_eq!(
        defn.get_index_of_projection(TransitiveSetProjectionKind::Args, "cmd").unwrap(),
        0
    );
    assert_eq!(
        defn.get_index_of_projection(TransitiveSetProjectionKind::Json, "meta").unwrap(),
        1
    );
    // A name that exists only under the other kind is not found under this
    // one, and the valid list carries only names of the requested kind.
    match defn.get_index_of_projection(TransitiveSetProjectionKind::Json, "cmd") {
        Err(TransitiveSetError::ProjectionDoesNotExist { projection, valid_projections }) => {
            assert_eq!(projection, "cmd");
            assert_eq!(valid_projections, vec!["meta".to_string()]);
        }
        other => panic!("expected an unknown-projection error, got {:?}", other),
    }
}

#[test]
fn test_reduction_index() {
    let defn = two_kind_definition();
    assert_eq!(defn.reduction_index("sum").unwrap(), 0);
    match defn.reduction_index("max") {
        Err(TransitiveSetError::ReductionDoesNotExist { reduction, valid_reductions }) => {
            assert_eq!(reduction, "max");
            assert_eq!(valid_reductions, vec!["sum".to_string()]);
        }
        other => panic!("expected an unknown-reduction error, got {:?}", other),
    }
}

#[test]
fn test_export_assigns_identity() {
    let fresh = TransitiveSetDefinition::new("D".to_string(), Vec::new(), Vec::new());
    assert!(!fresh.has_id());
    let exported = fresh.export(5);
    assert!(exported.has_id());
    assert_eq!(exported.set_type_instance_id, Some(5));
}

#[test]
fn test_ordering_parse() {
    assert_eq!(
        TransitiveSetOrdering::parse("preorder").unwrap(),
        TransitiveSetOrdering::Preorder
    );
    assert_eq!(
        TransitiveSetOrdering::parse("postorder").unwrap(),
        TransitiveSetOrdering::Postorder
    );
    assert_eq!(
        TransitiveSetOrdering::parse("topological").unwrap(),
        TransitiveSetOrdering::Topological
    );
    assert_eq!(TransitiveSetOrdering::parse("bfs").unwrap(), TransitiveSetOrdering::Bfs);
    match TransitiveSetOrdering::parse("sideways") {
        Err(TransitiveSetError::InvalidOrdering { got }) => assert_eq!(got, "sideways"),
        other => panic!("expected an invalid-ordering error, got {:?}", other),
    }
}

#[test]
fn test_value_shapes() {
    assert!(is_args_like(&Value::Str("x".to_string())));
    assert!(is_args_like(&Value::Int(3)));
    assert!(is_args_like(&Value::Artifact(1)));
    assert!(is_args_like(&Value::List(vec![Value::Int(1), Value::Str("y".to_string())])));
    assert!(!is_args_like(&Value::Bool(true)));
    assert!(!is_args_like(&Value::List(vec![Value::Nil])));

    assert!(is_json_like(&Value::Nil));
    assert!(is_json_like(&Value::List(vec![Value::Bool(false), Value::Artifact(2)])));
    assert!(!is_json_like(&Value::SetRef(0)));
    assert!(!is_json_like(&Value::List(vec![Value::SetRef(0)])));
}

#[test]
fn test_collect_artifact_refs() {
    let v = Value::List(vec![
        Value::Artifact(1),
        Value::Str("x".to_string()),
        Value::List(vec![Value::Artifact(2), Value::Int(5)]),
        Value::Artifact(3),
    ]);
    assert_eq!(collect_artifact_refs(&v), vec![1, 2, 3]);
    assert_eq!(collect_artifact_refs(&Value::Nil), Vec::<u64>::new());
    assert_eq!(Value::Artifact(9).kind_name(), "artifact");
}
