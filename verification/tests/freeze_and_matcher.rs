use transitive_set::definition::ReductionSpec;
use transitive_set::definition::TransitiveSetDefinition;
use transitive_set::evaluator::IntEvaluator;
use transitive_set::evaluator::SUM_CALLBACK;
use transitive_set::set::TransitiveSetGen;
use transitive_set::set::TransitiveSetMatcher;
use transitive_set::set::TransitiveSetStore;
use transitive_set::traversal::TransitiveSetOrdering;
use transitive_set::value::Value;

fn sum_definition(token: u64) -> TransitiveSetDefinition {
    TransitiveSetDefinition::new(
        "MySet".to_string(),
        Vec::new(),
        vec![ReductionSpec { name: "sum".to_string(), reduce: SUM_CALLBACK }],
    )
    .export(token)
}

#[test]
fn test_freeze_preserves_queries() {
    // Freezing is idempotent on content: reductions, values and traversal
    // orders answer pointwise as they did before the transition.
    let mut store = TransitiveSetStore::new();
    let mut eval = IntEvaluator;
    let leaf = TransitiveSetGen::new(
        &store, 1, sum_definition(1), Some(Value::Int(2)), Vec::new(), &mut eval)
        .unwrap();
    let l = store.insert(leaf);
    let root = TransitiveSetGen::new(
        &store, 2, sum_definition(1), Some(Value::Int(3)), vec![Value::SetRef(l)], &mut eval)
        .unwrap();
    let r = store.insert(root);

    let order_before = store.iter(r, TransitiveSetOrdering::Topological);
    let values_before: Vec<Value> = store
        .iter_values(r, TransitiveSetOrdering::Topological)
        .into_iter()
        .map(|v| match v {
            Value::Int(i) => Value::Int(*i),
            _ => panic!("integer values expected"),
        })
        .collect();
    let sum_before = match store.get(r).reduce("sum").unwrap() {
        Value::Int(i) => *i,
        _ => panic!("integer reduction expected"),
    };

    let frozen = store.freeze();
    let order_after = frozen.as_store().iter(r, TransitiveSetOrdering::Topological);
    assert_eq!(order_before, order_after);
    let values_after = frozen.as_store().iter_values(r, TransitiveSetOrdering::Topological);
    assert_eq!(values_before.len(), values_after.len());
    for (before, after) in values_before.iter().zip(values_after.iter()) {
        match (before, after) {
            (Value::Int(x), Value::Int(y)) => assert_eq!(x, y),
            _ => panic!("integer values expected"),
        }
    }
    let sum_after = match frozen.get(r).reduce("sum").unwrap() {
        Value::Int(i) => *i,
        _ => panic!("integer reduction expected"),
    };
    assert_eq!(sum_before, sum_after);
    assert_eq!(sum_after, 5);
}

#[test]
fn test_matcher_schema_identity() {
    // A value built against one definition never matches a matcher made for
    // another, even when the two definitions have textually identical specs.
    let mut store = TransitiveSetStore::new();
    let mut eval = IntEvaluator;
    let set = TransitiveSetGen::new(
        &store, 1, sum_definition(1), Some(Value::Int(1)), Vec::new(), &mut eval)
        .unwrap();
    let id = store.insert(set);
    let matcher_one = TransitiveSetMatcher { type_instance_id: 1 };
    let matcher_two = TransitiveSetMatcher { type_instance_id: 2 };
    assert!(matcher_one.matches(&store, &Value::SetRef(id)));
    assert!(!matcher_two.matches(&store, &Value::SetRef(id)));
    assert!(!matcher_one.matches(&store, &Value::Int(3)));
    assert!(!matcher_one.matches(&store, &Value::SetRef(99)));
}

#[test]
fn test_matches_definition() {
    let store = TransitiveSetStore::new();
    let mut eval = IntEvaluator;
    let set = TransitiveSetGen::new(
        &store, 1, sum_definition(7), Some(Value::Int(1)), Vec::new(), &mut eval)
        .unwrap();
    assert!(set.matches_definition(&sum_definition(7)));
    assert!(!set.matches_definition(&sum_definition(8)));
}

#[test]
fn test_from_value() {
    let mut store = TransitiveSetStore::new();
    let mut eval = IntEvaluator;
    let set = TransitiveSetGen::new(
        &store, 21, sum_definition(1), Some(Value::Int(8)), Vec::new(), &mut eval)
        .unwrap();
    assert_eq!(set.definition().name, "MySet");
    let id = store.insert(set);
    let found = store.from_value(&Value::SetRef(id)).unwrap();
    assert_eq!(found.key(), 21);
    assert!(store.from_value(&Value::Int(3)).is_none());
    assert!(store.from_value(&Value::SetRef(7)).is_none());
}
