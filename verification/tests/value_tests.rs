use phlow::value::Value;

fn text(s: &str) -> Value {
    Value::Text(s.to_string())
}

fn obj(pairs: Vec<(&str, Value)>) -> Value {
    Value::Object(pairs.into_iter().map(|(k, v)| (k.to_string(), v)).collect())
}

#[test]
fn get_finds_first_occurrence() {
    let v = obj(vec![("a", Value::Int(1)), ("b", Value::Int(2))]);
    assert!(v.get("a").unwrap().value_eq(&Value::Int(1)));
    assert!(v.get("b").unwrap().value_eq(&Value::Int(2)));
    assert!(v.get("c").is_none());
    assert!(Value::Null.get("a").is_none());
}

#[test]
fn insert_replaces_in_place_or_appends() {
    let v = obj(vec![("a", Value::Int(1)), ("b", Value::Int(2))]);
    let v = v.insert("a".to_string(), Value::Int(9));
    let expected = obj(vec![("a", Value::Int(9)), ("b", Value::Int(2))]);
    assert!(v.value_eq(&expected));

    let v = v.insert("c".to_string(), Value::Int(3));
    let expected = obj(vec![
        ("a", Value::Int(9)),
        ("b", Value::Int(2)),
        ("c", Value::Int(3)),
    ]);
    assert!(v.value_eq(&expected));
}

#[test]
fn remove_deletes_the_key() {
    let v = obj(vec![("a", Value::Int(1)), ("b", Value::Int(2))]);
    let v = v.remove("a");
    assert!(v.value_eq(&obj(vec![("b", Value::Int(2))])));
    let v = v.remove("missing");
    assert!(v.value_eq(&obj(vec![("b", Value::Int(2))])));
}

#[test]
fn path_lookup_walks_nested_objects() {
    let v = obj(vec![(
        "a",
        obj(vec![("b", obj(vec![("c", Value::Int(7))]))]),
    )]);
    assert!(v.get_path("a.b.c").unwrap().value_eq(&Value::Int(7)));
    assert!(v.get_path("a.b").unwrap().value_eq(&obj(vec![("c", Value::Int(7))])));
    assert!(v.get_path("a.x.c").is_none());
    assert!(v.get_path("c").is_none());
}

#[test]
fn value_eq_is_structural() {
    let a = Value::Array(vec![Value::Int(1), text("x"), Value::Bool(true)]);
    let b = Value::Array(vec![Value::Int(1), text("x"), Value::Bool(true)]);
    let c = Value::Array(vec![Value::Int(1), text("y"), Value::Bool(true)]);
    assert!(a.value_eq(&b));
    assert!(!a.value_eq(&c));
    assert!(!a.value_eq(&Value::Null));
    assert!(Value::Float("0.5".to_string()).value_eq(&Value::Float("0.5".to_string())));
    assert!(!Value::Float("0.5".to_string()).value_eq(&Value::Float("0.25".to_string())));
}

#[test]
fn deep_clone_preserves_the_value() {
    let v = obj(vec![
        ("a", Value::Array(vec![Value::Int(1), Value::Null])),
        ("b", text("hello")),
    ]);
    let c = v.deep_clone();
    assert!(v.value_eq(&c));
}
