use phlow::context::Context;
use phlow::executor::{run, value_to_pipelines, EngineError};
use phlow::host::Modules;
use phlow::step::{ComparisonOp, StepWorker, StepWorkerError};
use phlow::value::Value;

fn text(s: &str) -> Value {
    Value::Text(s.to_string())
}

fn obj(pairs: Vec<(&str, Value)>) -> Value {
    Value::Object(pairs.into_iter().map(|(k, v)| (k.to_string(), v)).collect())
}

fn condition(left: Value, right: Value, operator: &str) -> Value {
    obj(vec![("left", left), ("right", right), ("operator", text(operator))])
}

fn credit_document() -> Value {
    obj(vec![(
        "steps",
        Value::Array(vec![obj(vec![
            (
                "condition",
                condition(
                    text("params.requested"),
                    text("params.pre-approved"),
                    "less_than",
                ),
            ),
            ("then", obj(vec![("payload", text("params.requested"))])),
            (
                "else",
                obj(vec![(
                    "steps",
                    Value::Array(vec![
                        obj(vec![(
                            "condition",
                            condition(text("params.score"), Value::Int(0), "greater_than"),
                        )]),
                        obj(vec![
                            ("id", text("approved")),
                            ("payload", obj(vec![("total", Value::Int(190))])),
                        ]),
                        obj(vec![
                            (
                                "condition",
                                condition(
                                    text("steps.approved.total"),
                                    text("params.requested"),
                                    "greater_than",
                                ),
                            ),
                            ("then", obj(vec![("return", text("params.requested"))])),
                            ("else", obj(vec![("return", text("steps.approved.total"))])),
                        ]),
                    ]),
                )]),
            ),
        ])]),
    )])
}

fn run_with_params(doc: &Value, params: Value) -> Result<Value, EngineError> {
    let names: Vec<String> = Vec::new();
    let pipelines = value_to_pipelines(doc, &names).expect("document compiles");
    let mut ctx = Context::new(Some(params));
    let modules = Modules::new();
    run(&pipelines, pipelines.len() - 1, &mut ctx, &modules)
}

#[test]
fn request_takes_then_branch() {
    // The requested amount is below the pre-approved one: the guard holds
    // and the then pipeline binds the payload to it.
    let params = obj(vec![
        ("requested", Value::Int(100)),
        ("pre-approved", Value::Int(200)),
    ]);
    let result = run_with_params(&credit_document(), params).expect("run succeeds");
    assert!(result.value_eq(&Value::Int(100)));
}

#[test]
fn request_takes_else_branch_and_returns_recorded_total() {
    // The else pipeline records a total under `approved`, compares it to
    // the request, and returns the recorded value.
    let params = obj(vec![
        ("requested", Value::Int(300)),
        ("pre-approved", Value::Int(100)),
        ("score", Value::Int(1)),
    ]);
    let result = run_with_params(&credit_document(), params).expect("run succeeds");
    assert!(result.value_eq(&Value::Int(190)));
}

#[test]
fn false_guard_without_else_falls_through() {
    // A condition step with no else target falls through to the next
    // step of the same pipeline when its guard is false.
    let doc = obj(vec![(
        "steps",
        Value::Array(vec![
            obj(vec![(
                "condition",
                condition(Value::Int(1), Value::Int(2), "greater_than"),
            )]),
            obj(vec![("payload", Value::Int(7))]),
        ]),
    )]);
    let result = run_with_params(&doc, obj(vec![])).expect("run succeeds");
    assert!(result.value_eq(&Value::Int(7)));
}

#[test]
fn return_stops_the_pipeline() {
    // Once a return expression evaluates, later steps never run.
    let doc = obj(vec![(
        "steps",
        Value::Array(vec![
            obj(vec![("payload", Value::Int(1))]),
            obj(vec![("return", Value::Int(42))]),
            obj(vec![("payload", Value::Int(99))]),
        ]),
    )]);
    let result = run_with_params(&doc, obj(vec![])).expect("run succeeds");
    assert!(result.value_eq(&Value::Int(42)));
}

#[test]
fn unconditional_step_ignores_branches() {
    // A step with branch targets but no condition falls through; the
    // hoisted subtree never runs.
    let doc = obj(vec![(
        "steps",
        Value::Array(vec![
            obj(vec![("id", text("x")), ("then", obj(vec![("payload", Value::Int(1))]))]),
            obj(vec![("payload", Value::Int(5))]),
        ]),
    )]);
    let result = run_with_params(&doc, obj(vec![])).expect("run succeeds");
    assert!(result.value_eq(&Value::Int(5)));
}

#[test]
fn effective_output_flows_to_next_step_input() {
    // Each completed step hands its effective output to the next step as
    // `input`.
    let doc = obj(vec![(
        "steps",
        Value::Array(vec![
            obj(vec![("payload", Value::Int(7))]),
            obj(vec![("return", text("input"))]),
        ]),
    )]);
    let result = run_with_params(&doc, obj(vec![])).expect("run succeeds");
    assert!(result.value_eq(&Value::Int(7)));
}

#[test]
fn pipeline_without_return_yields_payload() {
    let doc = obj(vec![(
        "steps",
        Value::Array(vec![obj(vec![("payload", Value::Int(5))])]),
    )]);
    let result = run_with_params(&doc, obj(vec![])).expect("run succeeds");
    assert!(result.value_eq(&Value::Int(5)));
}

#[test]
fn pipeline_without_payload_yields_null() {
    let doc = obj(vec![(
        "steps",
        Value::Array(vec![obj(vec![("id", text("noop"))])]),
    )]);
    let result = run_with_params(&doc, obj(vec![])).expect("run succeeds");
    assert!(result.value_eq(&Value::Null));
}

#[test]
fn guard_records_boolean_when_step_has_id() {
    // A step with only a condition and an id records the guard's boolean.
    let doc = obj(vec![(
        "steps",
        Value::Array(vec![
            obj(vec![
                ("id", text("check")),
                (
                    "condition",
                    condition(Value::Int(3), Value::Int(2), "greater_than"),
                ),
            ]),
            obj(vec![("return", text("steps.check"))]),
        ]),
    )]);
    let result = run_with_params(&doc, obj(vec![])).expect("run succeeds");
    assert!(result.value_eq(&Value::Bool(true)));
}

#[test]
fn missing_binding_is_an_eval_error() {
    let doc = obj(vec![(
        "steps",
        Value::Array(vec![obj(vec![
            ("id", text("bad")),
            ("payload", text("params.absent")),
        ])]),
    )]);
    let err = run_with_params(&doc, obj(vec![])).expect_err("run fails");
    match err {
        EngineError::Eval { step_id } => assert_eq!(step_id, Some("bad".to_string())),
        _ => panic!("expected an evaluator error"),
    }
}

#[test]
fn type_mismatch_is_an_eval_error() {
    let doc = obj(vec![(
        "steps",
        Value::Array(vec![obj(vec![(
            "condition",
            condition(Value::Bool(true), Value::Int(2), "less_than"),
        )])]),
    )]);
    let err = run_with_params(&doc, obj(vec![])).expect_err("run fails");
    assert!(matches!(err, EngineError::Eval { .. }));
}

#[test]
fn unknown_operator_is_a_compile_error() {
    let names: Vec<String> = Vec::new();
    let step = obj(vec![(
        "condition",
        condition(Value::Int(1), Value::Int(2), "almost_equal"),
    )]);
    let err = StepWorker::try_from_value(&step, &names).expect_err("compile fails");
    assert!(matches!(err, StepWorkerError::UnknownOperator));
}

#[test]
fn unknown_module_is_a_compile_error() {
    let names: Vec<String> = Vec::new();
    let step = obj(vec![("use", text("log"))]);
    let err = StepWorker::try_from_value(&step, &names).expect_err("compile fails");
    assert!(matches!(err, StepWorkerError::UnknownModule));
}

#[test]
fn malformed_condition_is_a_compile_error() {
    let names: Vec<String> = Vec::new();
    let step = obj(vec![("condition", obj(vec![("left", Value::Int(1))]))]);
    let err = StepWorker::try_from_value(&step, &names).expect_err("compile fails");
    assert!(matches!(err, StepWorkerError::MalformedStep));
}

#[test]
fn branch_target_must_be_an_integer() {
    let names: Vec<String> = Vec::new();
    let step = obj(vec![("then", text("zero"))]);
    let err = StepWorker::try_from_value(&step, &names).expect_err("compile fails");
    assert!(matches!(err, StepWorkerError::BadBranchTarget));
}

#[test]
fn operator_names_parse_exactly() {
    assert_eq!(ComparisonOp::from_name("equal"), Some(ComparisonOp::Equal));
    assert_eq!(ComparisonOp::from_name("not_equal"), Some(ComparisonOp::NotEqual));
    assert_eq!(ComparisonOp::from_name("less_than"), Some(ComparisonOp::LessThan));
    assert_eq!(
        ComparisonOp::from_name("less_than_or_equal"),
        Some(ComparisonOp::LessThanOrEqual)
    );
    assert_eq!(ComparisonOp::from_name("greater_than"), Some(ComparisonOp::GreaterThan));
    assert_eq!(
        ComparisonOp::from_name("greater_than_or_equal"),
        Some(ComparisonOp::GreaterThanOrEqual)
    );
    assert_eq!(ComparisonOp::from_name("and"), Some(ComparisonOp::And));
    assert_eq!(ComparisonOp::from_name("or"), Some(ComparisonOp::Or));
    assert_eq!(ComparisonOp::from_name("xor"), None);
}
