use transitive_set::definition::ProjectionSpec;
use transitive_set::definition::ReductionSpec;
use transitive_set::definition::TransitiveSetDefinition;
use transitive_set::definition::TransitiveSetProjectionKind;
use transitive_set::errors::TransitiveSetError;
use transitive_set::evaluator::eval_identity_projection;
use transitive_set::evaluator::eval_sum_reduction;
use transitive_set::evaluator::IntEvaluator;
use transitive_set::evaluator::IDENTITY_CALLBACK;
use transitive_set::evaluator::SUM_CALLBACK;
use transitive_set::set::TransitiveSetGen;
use transitive_set::set::TransitiveSetStore;
use transitive_set::value::Value;

fn sum_definition(token: u64) -> TransitiveSetDefinition {
    TransitiveSetDefinition::new(
        "MySet".to_string(),
        Vec::new(),
        vec![ReductionSpec { name: "sum".to_string(), reduce: SUM_CALLBACK }],
    )
    .export(token)
}

#[test]
fn test_reduction_fold_sum() {
    let mut store = TransitiveSetStore::new();
    let mut eval = IntEvaluator;
    let leaf_a = TransitiveSetGen::new(
        &store,
        1,
        sum_definition(1),
        Some(Value::Int(1)),
        Vec::new(),
        &mut eval,
    )
    .unwrap();
    let a = store.insert(leaf_a);
    let leaf_b = TransitiveSetGen::new(
        &store,
        2,
        sum_definition(1),
        Some(Value::Int(2)),
        Vec::new(),
        &mut eval,
    )
    .unwrap();
    let b = store.insert(leaf_b);
    let parent = TransitiveSetGen::new(
        &store,
        3,
        sum_definition(1),
        Some(Value::Int(3)),
        vec![Value::SetRef(a), Value::SetRef(b)],
        &mut eval,
    )
    .unwrap();
    assert!(matches!(parent.reduce("sum"), Ok(Value::Int(6))));
    assert!(matches!(store.get(a).reduce("sum"), Ok(Value::Int(1))));
    assert!(matches!(store.get(b).reduce("sum"), Ok(Value::Int(2))));
}

#[test]
fn test_reduction_of_valueless_set() {
    let mut store = TransitiveSetStore::new();
    let mut eval = IntEvaluator;
    let leaf =
        TransitiveSetGen::new(&store, 1, sum_definition(1), Some(Value::Int(5)), Vec::new(), &mut eval)
            .unwrap();
    let a = store.insert(leaf);
    let parent = TransitiveSetGen::new(
        &store,
        2,
        sum_definition(1),
        None,
        vec![Value::SetRef(a)],
        &mut eval,
    )
    .unwrap();
    assert!(parent.node.is_none());
    assert!(matches!(parent.reduce("sum"), Ok(Value::Int(5))));
}

#[test]
fn test_wrong_definition_child_fails() {
    // Two definitions with textually identical specs but different identity
    // tokens: a child of one is never a legal child for the other.
    let mut store = TransitiveSetStore::new();
    let mut eval = IntEvaluator;
    let child =
        TransitiveSetGen::new(&store, 1, sum_definition(1), Some(Value::Int(1)), Vec::new(), &mut eval)
            .unwrap();
    let c = store.insert(child);
    let r = TransitiveSetGen::new(
        &store,
        2,
        sum_definition(2),
        None,
        vec![Value::SetRef(c)],
        &mut eval,
    );
    match r {
        Err(TransitiveSetError::TransitiveValueIsOfWrongType { expected, got }) => {
            assert_eq!(expected, "MySet");
            assert_eq!(got, "MySet");
        }
        other => panic!("expected a wrong-type error, got {:?}", other),
    }
}

#[test]
fn test_child_not_a_transitive_set() {
    let store = TransitiveSetStore::new();
    let mut eval = IntEvaluator;
    let r = TransitiveSetGen::new(
        &store,
        1,
        sum_definition(1),
        None,
        vec![Value::Int(5)],
        &mut eval,
    );
    match r {
        Err(TransitiveSetError::TransitiveValueIsNotTransitiveSet { got }) => {
            assert_eq!(got, "int");
        }
        other => panic!("expected a not-a-set error, got {:?}", other),
    }
}

#[test]
fn test_used_before_assignment() {
    let store = TransitiveSetStore::new();
    let mut eval = IntEvaluator;
    let unexported = TransitiveSetDefinition::new("MySet".to_string(), Vec::new(), Vec::new());
    let r = TransitiveSetGen::new(&store, 1, unexported, None, Vec::new(), &mut eval);
    assert!(matches!(r, Err(TransitiveSetError::TransitiveSetUsedBeforeAssignment)));
}

#[test]
fn test_projection_callback_failure() {
    let store = TransitiveSetStore::new();
    let mut eval = IntEvaluator;
    let defn = TransitiveSetDefinition::new(
        "MySet".to_string(),
        vec![ProjectionSpec {
            name: "broken".to_string(),
            kind: TransitiveSetProjectionKind::Args,
            projection: 99,
        }],
        Vec::new(),
    )
    .export(1);
    let r = TransitiveSetGen::new(&store, 1, defn, Some(Value::Int(1)), Vec::new(), &mut eval);
    match r {
        Err(TransitiveSetError::ProjectionError { name, .. }) => assert_eq!(name, "broken"),
        other => panic!("expected a projection error, got {:?}", other),
    }
}

#[test]
fn test_projection_shape_rejected() {
    // The identity projection hands a bool back unchanged, and a bool is not
    // coercible to a command-line fragment.
    let store = TransitiveSetStore::new();
    let mut eval = IntEvaluator;
    let defn = TransitiveSetDefinition::new(
        "MySet".to_string(),
        vec![ProjectionSpec {
            name: "args".to_string(),
            kind: TransitiveSetProjectionKind::Args,
            projection: IDENTITY_CALLBACK,
        }],
        Vec::new(),
    )
    .export(1);
    let r = TransitiveSetGen::new(&store, 1, defn, Some(Value::Bool(true)), Vec::new(), &mut eval);
    assert!(matches!(r, Err(TransitiveSetError::ProjectionError { .. })));
}

#[test]
fn test_reduction_callback_failure() {
    let store = TransitiveSetStore::new();
    let mut eval = IntEvaluator;
    let defn = sum_definition(1);
    let r = TransitiveSetGen::new(
        &store,
        1,
        defn,
        Some(Value::Str("not a number".to_string())),
        Vec::new(),
        &mut eval,
    );
    match r {
        Err(TransitiveSetError::ReductionError { name, .. }) => assert_eq!(name, "sum"),
        other => panic!("expected a reduction error, got {:?}", other),
    }
}

#[test]
fn test_missing_reduction_is_internal_fault() {
    // Two definition instances that wrongly share one identity token but
    // disagree on their reductions: gathering the child's reduction slot
    // fails as an internal-consistency fault.
    let mut store = TransitiveSetStore::new();
    let mut eval = IntEvaluator;
    let bare = TransitiveSetDefinition::new("MySet".to_string(), Vec::new(), Vec::new()).export(1);
    let child = TransitiveSetGen::new(&store, 1, bare, Some(Value::Int(1)), Vec::new(), &mut eval)
        .unwrap();
    let c = store.insert(child);
    let r = TransitiveSetGen::new(
        &store,
        2,
        sum_definition(1),
        None,
        vec![Value::SetRef(c)],
        &mut eval,
    );
    assert!(matches!(r, Err(TransitiveSetError::MissingReduction { index: 0 })));
}

#[test]
fn test_reduction_does_not_exist() {
    let store = TransitiveSetStore::new();
    let mut eval = IntEvaluator;
    let set = TransitiveSetGen::new(&store, 1, sum_definition(1), Some(Value::Int(1)), Vec::new(),
        &mut eval)
        .unwrap();
    match set.reduce("product") {
        Err(TransitiveSetError::ReductionDoesNotExist { reduction, valid_reductions }) => {
            assert_eq!(reduction, "product");
            assert_eq!(valid_reductions, vec!["sum".to_string()]);
        }
        other => panic!("expected an unknown-reduction error, got {:?}", other),
    }
}

#[test]
fn test_new_from_values() {
    let mut store = TransitiveSetStore::new();
    let mut eval = IntEvaluator;
    let leaf =
        TransitiveSetGen::new(&store, 1, sum_definition(1), Some(Value::Int(4)), Vec::new(), &mut eval)
            .unwrap();
    let a = store.insert(leaf);
    let parent = TransitiveSetGen::new_from_values(
        &store,
        2,
        sum_definition(1),
        Some(Value::Int(1)),
        Some(Value::List(vec![Value::SetRef(a)])),
        &mut eval,
    )
    .unwrap();
    assert_eq!(parent.children, vec![a]);
    assert!(matches!(parent.reduce("sum"), Ok(Value::Int(5))));

    let none_children = TransitiveSetGen::new_from_values(
        &store,
        3,
        sum_definition(1),
        None,
        None,
        &mut eval,
    )
    .unwrap();
    assert!(none_children.children.is_empty());

    let bad = TransitiveSetGen::new_from_values(
        &store,
        4,
        sum_definition(1),
        None,
        Some(Value::Int(9)),
        &mut eval,
    );
    assert!(matches!(bad, Err(TransitiveSetError::TransitiveValueIsNotTransitiveSet { .. })));
}

#[test]
fn test_sum_overflow_is_a_callback_failure() {
    let store = TransitiveSetStore::new();
    let mut eval = IntEvaluator;
    let r = TransitiveSetGen::new(
        &store,
        1,
        sum_definition(1),
        Some(Value::Int(i64::MAX)),
        Vec::new(),
        &mut eval,
    );
    assert!(r.is_ok());
    // Overflow arises only when the fold sum leaves the integer range, and
    // then surfaces as a reduction error rather than a wrapped result.
    let mut store2 = TransitiveSetStore::new();
    let big = TransitiveSetGen::new(
        &store2,
        1,
        sum_definition(1),
        Some(Value::Int(i64::MAX)),
        Vec::new(),
        &mut eval,
    )
    .unwrap();
    let b = store2.insert(big);
    let r2 = TransitiveSetGen::new(
        &store2,
        2,
        sum_definition(1),
        Some(Value::Int(1)),
        vec![Value::SetRef(b)],
        &mut eval,
    );
    assert!(matches!(r2, Err(TransitiveSetError::ReductionError { .. })));
}

#[test]
fn test_eval_sum_reduction() {
    let one = Value::Int(1);
    let two = Value::Int(2);
    let three = Value::Int(3);
    let children: Vec<&Value> = vec![&one, &two];
    assert!(matches!(eval_sum_reduction(&children, Some(&three)), Ok(Value::Int(6))));
    assert!(matches!(eval_sum_reduction(&children, Some(&Value::Nil)), Ok(Value::Int(3))));
    assert!(matches!(eval_sum_reduction(&children, None), Ok(Value::Int(3))));
    let text = Value::Str("x".to_string());
    assert!(eval_sum_reduction(&children, Some(&text)).is_err());
    let bad: Vec<&Value> = vec![&one, &text];
    assert!(eval_sum_reduction(&bad, None).is_err());
    let max = Value::Int(i64::MAX);
    let overflowing: Vec<&Value> = vec![&max, &one];
    assert!(eval_sum_reduction(&overflowing, None).is_err());
}

#[test]
fn test_eval_identity_projection() {
    assert!(matches!(eval_identity_projection(&Value::Int(7)), Ok(Value::Int(7))));
    match eval_identity_projection(&Value::Str("a".to_string())) {
        Ok(Value::Str(s)) => assert_eq!(s, "a"),
        other => panic!("expected the string back, got {:?}", other),
    }
    assert!(eval_identity_projection(&Value::List(Vec::new())).is_err());
}
