use transitive_set::methods::Methods;
use transitive_set::methods::MethodsBuilder;
use transitive_set::methods::NativeAttrFn;
use transitive_set::methods::UnboundValue;
use transitive_set::projection::get_methods;
use transitive_set::projection::transitive_set_methods;
use transitive_set::projection::REDUCE_FN;
use transitive_set::value::Value;

#[test]
fn test_set_attribute() {
    let mut builder = MethodsBuilder::new();
    builder.set_attribute("my_type", Value::Str("magic".to_string()), None);
    builder.set_attribute("my_value", Value::Int(42), None);
    let methods = builder.build();
    match methods.get("my_type") {
        Some(UnboundValue::Attr(_, NativeAttrFn::Constant(Value::Str(s)))) => {
            assert_eq!(s, "magic");
        }
        other => panic!("expected the constant string attribute, got {:?}", other),
    }
    match methods.get("my_value") {
        Some(UnboundValue::Attr(a, NativeAttrFn::Constant(Value::Int(i)))) => {
            assert_eq!(*i, 42);
            assert_eq!(a.typ, "int");
        }
        other => panic!("expected the constant integer attribute, got {:?}", other),
    }
    assert!(methods.get("missing").is_none());
}

#[test]
fn test_set_attribute_replaces() {
    let mut builder = MethodsBuilder::new();
    builder.set_attribute("x", Value::Int(1), None);
    builder.set_attribute("x", Value::Int(2), None);
    let methods = builder.build();
    assert_eq!(methods.members().len(), 1);
    match methods.get("x") {
        Some(UnboundValue::Attr(_, NativeAttrFn::Constant(Value::Int(i)))) => assert_eq!(*i, 2),
        other => panic!("expected the replaced attribute, got {:?}", other),
    }
}

#[test]
fn test_set_method_and_get_ty() {
    let mut builder = MethodsBuilder::new();
    builder.set_method("run", true, "run(thing)".to_string(), 55);
    builder.set_attribute_fn("kind", false, Some("docs".to_string()), "str".to_string(), 56);
    let methods = builder.build();
    assert_eq!(methods.get_ty("run").unwrap(), "run(thing)");
    assert_eq!(methods.get_ty("kind").unwrap(), "str");
    assert!(methods.get_ty("absent").is_none());
    match methods.get("run") {
        Some(UnboundValue::Method(m)) => {
            assert_eq!(m.name, "run");
            assert_eq!(m.function, 55);
            assert!(m.speculative_exec_safe);
        }
        other => panic!("expected the method, got {:?}", other),
    }
}

#[test]
fn test_docstring_and_documentation() {
    let mut builder = MethodsBuilder::new();
    builder.set_docstring("the object");
    builder.set_attribute("a", Value::Int(1), None);
    builder.set_method("b", false, "b()".to_string(), 7);
    let methods = builder.build();
    let doc = methods.documentation("magic".to_string());
    assert_eq!(doc.docs.unwrap(), "the object");
    assert_eq!(doc.members, vec!["a".to_string(), "b".to_string()]);
    assert_eq!(doc.ty, "magic");
    assert_eq!(methods.names(), vec!["a".to_string(), "b".to_string()]);
}

#[test]
fn test_with_and_new() {
    let empty = Methods::new();
    assert!(empty.members().is_empty());
    let built = MethodsBuilder::new()
        .with(|mut b| {
            b.set_attribute("x", Value::Bool(true), None);
            b
        })
        .build();
    assert_eq!(built.members().len(), 1);
    let allocated = MethodsBuilder::new().alloc_value(Value::Int(9));
    assert!(matches!(allocated, Value::Int(9)));
}

#[test]
fn test_transitive_set_methods_registration() {
    let mut builder = MethodsBuilder::new();
    transitive_set_methods(&mut builder);
    let methods = builder.build();
    assert_eq!(
        methods.names(),
        vec![
            "project_as_json".to_string(),
            "project_as_args".to_string(),
            "reduce".to_string(),
            "traverse".to_string(),
            "definition".to_string(),
            "value".to_string(),
            "children".to_string(),
        ]
    );
    match methods.get("reduce") {
        Some(UnboundValue::Method(m)) => assert_eq!(m.function, REDUCE_FN),
        other => panic!("expected the reduce method, got {:?}", other),
    }
    match methods.get("value") {
        Some(UnboundValue::Attr(_, NativeAttrFn::Callback(_))) => {}
        other => panic!("expected the value attribute, got {:?}", other),
    }
}

#[test]
fn test_get_methods() {
    let methods = get_methods();
    assert_eq!(methods.members().len(), 7);
    assert!(methods.get("traverse").is_some());
    assert!(methods.get("definition").is_some());
}
