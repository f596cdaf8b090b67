use transitive_set::definition::TransitiveSetDefinition;
use transitive_set::evaluator::IntEvaluator;
use transitive_set::set::TransitiveSetGen;
use transitive_set::set::TransitiveSetStore;
use transitive_set::traversal::TransitiveSetOrdering;
use transitive_set::value::Value;

fn bare_definition(token: u64) -> TransitiveSetDefinition {
    TransitiveSetDefinition::new("S".to_string(), Vec::new(), Vec::new()).export(token)
}

/// Builds the diamond: root R with children [A, B], A with child [C], B with
/// child [C] (shared). Returns (store, c, a, b, r) slots.
fn diamond() -> (TransitiveSetStore, usize, usize, usize, usize) {
    let mut store = TransitiveSetStore::new();
    let mut eval = IntEvaluator;
    let set_c = TransitiveSetGen::new(
        &store, 10, bare_definition(1), Some(Value::Int(100)), Vec::new(), &mut eval)
        .unwrap();
    let c = store.insert(set_c);
    let set_a = TransitiveSetGen::new(
        &store, 11, bare_definition(1), Some(Value::Int(101)), vec![Value::SetRef(c)], &mut eval)
        .unwrap();
    let a = store.insert(set_a);
    let set_b = TransitiveSetGen::new(
        &store, 12, bare_definition(1), Some(Value::Int(102)), vec![Value::SetRef(c)], &mut eval)
        .unwrap();
    let b = store.insert(set_b);
    let set_r = TransitiveSetGen::new(
        &store,
        13,
        bare_definition(1),
        Some(Value::Int(103)),
        vec![Value::SetRef(a), Value::SetRef(b)],
        &mut eval,
    )
    .unwrap();
    let r = store.insert(set_r);
    (store, c, a, b, r)
}

#[test]
fn test_bfs_order() {
    // BFS yields R, A, B, C: the shared C exactly once, at depth two, in
    // order of first discovery via A.
    let (store, c, a, b, r) = diamond();
    let order = store.iter(r, TransitiveSetOrdering::Bfs);
    assert_eq!(order, vec![r, a, b, c]);
    let values = store.iter_values(r, TransitiveSetOrdering::Bfs);
    assert!(matches!(values[0], Value::Int(103)));
    assert!(matches!(values[1], Value::Int(101)));
    assert!(matches!(values[2], Value::Int(102)));
    assert!(matches!(values[3], Value::Int(100)));
}

#[test]
fn test_preorder() {
    let (store, c, a, b, r) = diamond();
    let order = store.iter(r, TransitiveSetOrdering::Preorder);
    assert_eq!(order, vec![r, a, c, b]);
}

#[test]
fn test_postorder() {
    let (store, c, a, b, r) = diamond();
    let order = store.iter(r, TransitiveSetOrdering::Postorder);
    assert_eq!(order, vec![c, a, b, r]);
}

#[test]
fn test_topological_shared_descendant() {
    // The shared descendant C appears exactly once, and only after every set
    // that has it as a (possibly indirect) child.
    let (store, c, a, b, r) = diamond();
    let order = store.iter(r, TransitiveSetOrdering::Topological);
    assert_eq!(order, vec![r, b, a, c]);
    assert_eq!(order.iter().filter(|x| **x == c).count(), 1);
    let pos = |x: usize| order.iter().position(|y| *y == x).unwrap();
    assert!(pos(r) < pos(c));
    assert!(pos(a) < pos(c));
    assert!(pos(b) < pos(c));
}

#[test]
fn test_traversals_are_restartable() {
    let (store, _, _, _, r) = diamond();
    let first = store.iter(r, TransitiveSetOrdering::Bfs);
    let second = store.iter(r, TransitiveSetOrdering::Bfs);
    assert_eq!(first, second);
}

#[test]
fn test_valueless_set_is_traversed_through() {
    // The connector set yields no value of its own, but its children are
    // still visited.
    let mut store = TransitiveSetStore::new();
    let mut eval = IntEvaluator;
    let leaf = TransitiveSetGen::new(
        &store, 1, bare_definition(1), Some(Value::Int(7)), Vec::new(), &mut eval)
        .unwrap();
    let l = store.insert(leaf);
    let connector = TransitiveSetGen::new(
        &store, 2, bare_definition(1), None, vec![Value::SetRef(l)], &mut eval)
        .unwrap();
    let conn = store.insert(connector);
    let order = store.iter(conn, TransitiveSetOrdering::Preorder);
    assert_eq!(order, vec![conn, l]);
    let values = store.iter_values(conn, TransitiveSetOrdering::Preorder);
    assert_eq!(values.len(), 1);
    assert!(matches!(values[0], Value::Int(7)));
}
