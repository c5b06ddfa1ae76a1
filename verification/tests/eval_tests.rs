use phlow::context::Context;
use phlow::eval::{eval_value, EvalError};
use phlow::executor::{run, value_to_pipelines};
use phlow::host::Modules;
use phlow::value::Value;

fn text(s: &str) -> Value {
    Value::Text(s.to_string())
}

fn obj(pairs: Vec<(&str, Value)>) -> Value {
    Value::Object(pairs.into_iter().map(|(k, v)| (k.to_string(), v)).collect())
}

fn condition(left: Value, right: Value, operator: &str) -> Value {
    obj(vec![("left", left), ("right", right), ("operator", text(operator))])
}

#[test]
fn template_evaluates_through_the_evaluator() {
    let ctx = Context::new(None);
    let result = eval_value(&ctx, &text("{{ 1 + 2 }}")).expect("template evaluates");
    assert!(result.value_eq(&Value::Int(3)));
}

#[test]
fn bare_expression_evaluates_through_the_evaluator() {
    let ctx = Context::new(None);
    let result = eval_value(&ctx, &text("7 * 6")).expect("expression evaluates");
    assert!(result.value_eq(&Value::Int(42)));
}

#[test]
fn expression_reads_the_bindings() {
    let ctx = Context::new(Some(obj(vec![("amount", Value::Int(20))])));
    let result = eval_value(&ctx, &text("params.amount * 2")).expect("expression evaluates");
    assert!(result.value_eq(&Value::Int(40)));
}

#[test]
fn plain_word_stays_a_literal() {
    let ctx = Context::new(None);
    let result = eval_value(&ctx, &text("{{ nonsense( }}"));
    assert!(matches!(result, Err(EvalError::Evaluator)), "a broken template is an error");
    let result = eval_value(&ctx, &text("plain text here")).expect("literals never fail");
    assert!(result.value_eq(&text("plain text here")));
}

#[test]
fn address_resolution_stays_exact() {
    let ctx = Context::new(Some(obj(vec![("pre-approved", Value::Int(9))])));
    // A hyphenated key no expression grammar could reach resolves as a
    // plain dotted address.
    let result = eval_value(&ctx, &text("params.pre-approved")).expect("address resolves");
    assert!(result.value_eq(&Value::Int(9)));
}

#[test]
fn credit_request_with_float_score_returns_the_computed_total() {
    // The S1 document shape with a fractional score and a computed total:
    // the else pipeline records (300 * 0.3) + 100 and returns it, the
    // arithmetic and the float comparisons done by the evaluator.
    let doc = obj(vec![(
        "steps",
        Value::Array(vec![obj(vec![
            (
                "condition",
                condition(text("params.requested"), text("params.preapproved"), "less_than"),
            ),
            ("then", obj(vec![("payload", text("params.requested"))])),
            (
                "else",
                obj(vec![(
                    "steps",
                    Value::Array(vec![
                        obj(vec![(
                            "condition",
                            condition(
                                text("params.score"),
                                Value::Float("0.5".to_string()),
                                "greater_than",
                            ),
                        )]),
                        obj(vec![
                            ("id", text("approved")),
                            (
                                "payload",
                                obj(vec![(
                                    "total",
                                    text("(params.requested * 0.3) + params.preapproved"),
                                )]),
                            ),
                        ]),
                        obj(vec![
                            (
                                "condition",
                                condition(
                                    text("steps.approved.total"),
                                    text("params.requested"),
                                    "greater_than",
                                ),
                            ),
                            ("then", obj(vec![("return", text("params.requested"))])),
                            ("else", obj(vec![("return", text("steps.approved.total"))])),
                        ]),
                    ]),
                )]),
            ),
        ])]),
    )]);
    let names: Vec<String> = Vec::new();
    let pipelines = value_to_pipelines(&doc, &names).expect("document compiles");
    let params = obj(vec![
        ("requested", Value::Int(300)),
        ("preapproved", Value::Int(100)),
        ("score", Value::Float("0.8".to_string())),
    ]);
    let mut ctx = Context::new(Some(params));
    let modules = Modules::new();
    let result = run(&pipelines, pipelines.len() - 1, &mut ctx, &modules).expect("run succeeds");
    let total = match result {
        Value::Float(t) => t.parse::<f64>().expect("a number comes back"),
        Value::Int(i) => i as f64,
        other => panic!("expected a number, got {:?}", other),
    };
    assert!((total - 190.0).abs() < 1e-9);
}

#[test]
fn float_comparison_goes_through_the_evaluator() {
    let doc = obj(vec![(
        "steps",
        Value::Array(vec![
            obj(vec![(
                "condition",
                condition(Value::Float("0.8".to_string()), Value::Float("0.5".to_string()), "greater_than"),
            )]),
            obj(vec![("return", text("{{ 10 }}"))]),
        ]),
    )]);
    let names: Vec<String> = Vec::new();
    let pipelines = value_to_pipelines(&doc, &names).expect("document compiles");
    let mut ctx = Context::new(None);
    let modules = Modules::new();
    let result = run(&pipelines, pipelines.len() - 1, &mut ctx, &modules).expect("run succeeds");
    assert!(result.value_eq(&Value::Int(10)));
}
