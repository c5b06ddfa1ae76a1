use phlow::context::Context;
use phlow::value::Value;

fn text(s: &str) -> Value {
    Value::Text(s.to_string())
}

fn obj(pairs: Vec<(&str, Value)>) -> Value {
    Value::Object(pairs.into_iter().map(|(k, v)| (k.to_string(), v)).collect())
}

#[test]
fn new_context_carries_params_only() {
    let ctx = Context::new(Some(obj(vec![("a", Value::Int(1))])));
    assert!(ctx.params.as_ref().unwrap().value_eq(&obj(vec![("a", Value::Int(1))])));
    assert!(ctx.main.is_none());
    assert!(ctx.payload.is_none());
    assert!(ctx.input.is_none());
    assert_eq!(ctx.steps.len(), 0);
}

#[test]
fn from_main_carries_main_only() {
    let ctx = Context::from_main(text("request"));
    assert!(ctx.main.as_ref().unwrap().value_eq(&text("request")));
    assert!(ctx.params.is_none());
}

#[test]
fn add_module_input_and_output_copy_the_context() {
    let ctx = Context::new(Some(Value::Int(1)));
    let with_input = ctx.add_module_input(text("in"));
    assert!(with_input.input.as_ref().unwrap().value_eq(&text("in")));
    assert!(with_input.params.as_ref().unwrap().value_eq(&Value::Int(1)));
    assert!(ctx.input.is_none());

    let with_payload = with_input.add_module_output(text("out"));
    assert!(with_payload.payload.as_ref().unwrap().value_eq(&text("out")));
    assert!(with_payload.input.as_ref().unwrap().value_eq(&text("in")));
}

#[test]
fn step_outputs_record_and_read_back() {
    let mut ctx = Context::new(None);
    assert!(ctx.get_step_output("a").is_none());
    ctx.add_step_output("a".to_string(), Value::Int(1));
    ctx.add_step_output("b".to_string(), Value::Int(2));
    assert!(ctx.get_step_output("a").unwrap().value_eq(&Value::Int(1)));
    assert!(ctx.get_step_output("b").unwrap().value_eq(&Value::Int(2)));
    ctx.add_step_output("a".to_string(), Value::Int(9));
    assert!(ctx.get_step_output("a").unwrap().value_eq(&Value::Int(9)));
    assert_eq!(ctx.steps.len(), 2);
}
