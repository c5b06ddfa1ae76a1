use phlow::transform::process_raw_steps;
use phlow::value::Value;

fn text(s: &str) -> Value {
    Value::Text(s.to_string())
}

fn float(text: &str) -> Value {
    Value::Float(text.to_string())
}

fn obj(pairs: Vec<(&str, Value)>) -> Value {
    Value::Object(pairs.into_iter().map(|(k, v)| (k.to_string(), v)).collect())
}

fn condition(left: Value, right: Value, operator: &str) -> Value {
    obj(vec![("left", left), ("right", right), ("operator", text(operator))])
}

fn s1_else_steps() -> Vec<Value> {
    vec![
        obj(vec![(
            "condition",
            condition(text("params.score"), float("0.5"), "greater_than"),
        )]),
        obj(vec![
            ("id", text("approved")),
            (
                "payload",
                obj(vec![(
                    "total",
                    text("(params.requested * 0.3) + params.pre-approved"),
                )]),
            ),
        ]),
        obj(vec![
            (
                "condition",
                condition(
                    text("steps.approved.total"),
                    text("params.requested"),
                    "greater_than",
                ),
            ),
            ("then", obj(vec![("return", text("params.requested"))])),
            ("else", obj(vec![("return", text("steps.approved.total"))])),
        ]),
    ]
}

fn s1_document(else_branch: Value) -> Value {
    obj(vec![(
        "steps",
        Value::Array(vec![obj(vec![
            (
                "condition",
                condition(
                    text("params.requested"),
                    text("params.pre-approved"),
                    "less_than",
                ),
            ),
            ("then", obj(vec![("payload", text("params.requested"))])),
            ("else", else_branch),
        ])]),
    )])
}

fn s1_target() -> Value {
    Value::Array(vec![
        Value::Array(vec![obj(vec![("payload", text("params.requested"))])]),
        Value::Array(vec![obj(vec![("return", text("params.requested"))])]),
        Value::Array(vec![obj(vec![("return", text("steps.approved.total"))])]),
        Value::Array(vec![
            obj(vec![(
                "condition",
                condition(text("params.score"), float("0.5"), "greater_than"),
            )]),
            obj(vec![
                ("id", text("approved")),
                (
                    "payload",
                    obj(vec![(
                        "total",
                        text("(params.requested * 0.3) + params.pre-approved"),
                    )]),
                ),
            ]),
            obj(vec![
                (
                    "condition",
                    condition(
                        text("steps.approved.total"),
                        text("params.requested"),
                        "greater_than",
                    ),
                ),
                ("then", Value::Int(1)),
                ("else", Value::Int(2)),
            ]),
        ]),
        Value::Array(vec![obj(vec![
            (
                "condition",
                condition(
                    text("params.requested"),
                    text("params.pre-approved"),
                    "less_than",
                ),
            ),
            ("then", Value::Int(0)),
            ("else", Value::Int(3)),
        ])]),
    ])
}

#[test]
fn test_transform_value() {
    let mut map = Vec::new();
    let original = s1_document(obj(vec![("steps", Value::Array(s1_else_steps()))]));

    let root = process_raw_steps(&original, &mut map);

    assert!(Value::Array(map).value_eq(&s1_target()));
    assert!(root.value_eq(&Value::Int(4)));
}

#[test]
fn test_transform_value_array() {
    let mut map = Vec::new();
    let original = s1_document(Value::Array(s1_else_steps()));

    let root = process_raw_steps(&original, &mut map);

    assert!(Value::Array(map).value_eq(&s1_target()));
    assert!(root.value_eq(&Value::Int(4)));
}

#[test]
fn transform_flat_steps_single_pipeline() {
    // A flat list of leaf steps stays one pipeline, with no branch ids.
    let mut map = Vec::new();
    let doc = obj(vec![(
        "steps",
        Value::Array(vec![
            obj(vec![("payload", Value::Int(1))]),
            obj(vec![("payload", Value::Int(2))]),
            obj(vec![("payload", Value::Int(3))]),
        ]),
    )]);
    let root = process_raw_steps(&doc, &mut map);
    assert_eq!(map.len(), 1);
    assert!(root.value_eq(&Value::Int(0)));
    match &map[0] {
        Value::Array(steps) => assert_eq!(steps.len(), 3),
        _ => panic!("pipeline is not an array"),
    }
}

#[test]
fn transform_branch_ids_are_postorder() {
    // Every then/else id in the output lies strictly below the pipeline
    // that holds it.
    let mut map = Vec::new();
    let original = s1_document(obj(vec![("steps", Value::Array(s1_else_steps()))]));
    process_raw_steps(&original, &mut map);
    for (pid, pipeline) in map.iter().enumerate() {
        let steps = match pipeline {
            Value::Array(steps) => steps,
            _ => panic!("pipeline is not an array"),
        };
        for step in steps {
            for key in ["then", "else"] {
                if let Some(Value::Int(t)) = step.get(key) {
                    assert!(*t >= 0);
                    assert!((*t as usize) < pid);
                }
            }
        }
    }
}

#[test]
fn transform_prelude_keeps_other_fields() {
    // An object with fields beside `steps` keeps them in a prelude step.
    let mut map = Vec::new();
    let doc = obj(vec![
        ("id", text("first")),
        ("payload", Value::Int(9)),
        (
            "steps",
            Value::Array(vec![obj(vec![("payload", Value::Int(10))])]),
        ),
    ]);
    let root = process_raw_steps(&doc, &mut map);
    assert!(root.value_eq(&Value::Int(0)));
    assert_eq!(map.len(), 1);
    let expected = Value::Array(vec![
        obj(vec![("id", text("first")), ("payload", Value::Int(9))]),
        obj(vec![("payload", Value::Int(10))]),
    ]);
    assert!(map[0].value_eq(&expected));
}
