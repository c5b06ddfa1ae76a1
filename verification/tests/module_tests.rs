use phlow::context::Context;
use phlow::executor::{run, value_to_pipelines, EngineError};
use phlow::host::{reply_send, ModulePackage, Modules};
use phlow::logmod::{Log, LogLevel};
use phlow::value::Value;

fn text(s: &str) -> Value {
    Value::Text(s.to_string())
}

fn obj(pairs: Vec<(&str, Value)>) -> Value {
    Value::Object(pairs.into_iter().map(|(k, v)| (k.to_string(), v)).collect())
}

fn log_document() -> Value {
    obj(vec![(
        "steps",
        Value::Array(vec![obj(vec![
            ("id", text("logstep")),
            ("use", text("log")),
            (
                "input",
                obj(vec![("message", text("hi")), ("level", text("info"))]),
            ),
        ])]),
    )])
}

#[test]
fn module_round_trip_replies_null() {
    // One package per invocation; the engine blocks for the single reply
    // and records it as the step input.
    let (tx, rx) = crossbeam::channel::unbounded::<ModulePackage>();
    let mut modules = Modules::new();
    modules.register("log".to_string(), tx);
    let names = vec!["log".to_string()];
    let pipelines = value_to_pipelines(&log_document(), &names).expect("document compiles");

    crossbeam::scope(|scope| {
        scope.spawn(move |_| {
            let package = rx.recv().expect("one package arrives");
            let input = package.context.input.as_ref().expect("input is set");
            let entry = Log::from_value(input);
            assert!(matches!(entry.level, LogLevel::Info));
            assert_eq!(entry.message, "hi".to_string());
            reply_send(package.sender, Value::Null).expect("reply is accepted");
            assert!(rx.try_recv().is_err(), "exactly one package per invocation");
        });

        let mut ctx = Context::new(None);
        let result = run(&pipelines, pipelines.len() - 1, &mut ctx, &modules)
            .expect("run succeeds");
        // The step records the module's reply; nothing set the payload.
        assert!(result.value_eq(&Value::Null));
        assert!(ctx.input.as_ref().expect("input recorded").value_eq(&Value::Null));
    })
    .expect("module thread exits cleanly");
}

#[test]
fn replies_match_their_invocation_not_the_module() {
    // Two invocations of one module: each package carries its own reply
    // channel, so each step records the reply sent for it, in order.
    let doc = obj(vec![(
        "steps",
        Value::Array(vec![
            obj(vec![("id", text("a")), ("use", text("log"))]),
            obj(vec![("id", text("b")), ("use", text("log"))]),
            obj(vec![(
                "return",
                obj(vec![("first", text("steps.a")), ("second", text("steps.b"))]),
            )]),
        ]),
    )]);
    let (tx, rx) = crossbeam::channel::unbounded::<ModulePackage>();
    let mut modules = Modules::new();
    modules.register("log".to_string(), tx);
    let names = vec!["log".to_string()];
    let pipelines = value_to_pipelines(&doc, &names).expect("document compiles");

    crossbeam::scope(|scope| {
        scope.spawn(move |_| {
            let first = rx.recv().expect("first package arrives");
            reply_send(first.sender, Value::Int(1)).expect("first reply is accepted");
            let second = rx.recv().expect("second package arrives");
            reply_send(second.sender, Value::Int(2)).expect("second reply is accepted");
        });

        let mut ctx = Context::new(None);
        let result = run(&pipelines, pipelines.len() - 1, &mut ctx, &modules)
            .expect("run succeeds");
        let expected = obj(vec![("first", Value::Int(1)), ("second", Value::Int(2))]);
        assert!(result.value_eq(&expected));
    })
    .expect("module thread exits cleanly");
}

#[test]
fn dropped_reply_surfaces_module_error() {
    let (tx, rx) = crossbeam::channel::unbounded::<ModulePackage>();
    let mut modules = Modules::new();
    modules.register("log".to_string(), tx);
    let names = vec!["log".to_string()];
    let pipelines = value_to_pipelines(&log_document(), &names).expect("document compiles");

    crossbeam::scope(|scope| {
        scope.spawn(move |_| {
            let package = rx.recv().expect("one package arrives");
            drop(package.sender);
        });

        let mut ctx = Context::new(None);
        let err = run(&pipelines, pipelines.len() - 1, &mut ctx, &modules)
            .expect_err("run fails");
        match err {
            EngineError::ModuleDropped { step_id } => {
                assert_eq!(step_id, Some("logstep".to_string()));
            },
            _ => panic!("expected a dropped-reply error"),
        }
    })
    .expect("module thread exits cleanly");
}

#[test]
fn closed_channel_surfaces_dispatch_error() {
    let (tx, rx) = crossbeam::channel::unbounded::<ModulePackage>();
    drop(rx);
    let mut modules = Modules::new();
    modules.register("log".to_string(), tx);
    let names = vec!["log".to_string()];
    let pipelines = value_to_pipelines(&log_document(), &names).expect("document compiles");

    let mut ctx = Context::new(None);
    let err = run(&pipelines, pipelines.len() - 1, &mut ctx, &modules).expect_err("run fails");
    match err {
        EngineError::Dispatch { module_id } => assert_eq!(module_id, 0),
        _ => panic!("expected a dispatch error"),
    }
}

#[test]
fn root_package_gets_exactly_one_reply() {
    let doc = obj(vec![(
        "steps",
        Value::Array(vec![obj(vec![("return", text("params.amount"))])]),
    )]);
    let names: Vec<String> = Vec::new();
    let pipelines = value_to_pipelines(&doc, &names).expect("document compiles");
    let modules = Modules::new();

    let (reply_tx, reply_rx) = tokio::sync::oneshot::channel::<Value>();
    let mut package = phlow::host::Package::new(
        Some(reply_tx),
        Some(obj(vec![("amount", Value::Int(12))])),
        0,
        None,
        None,
    );
    phlow::executor::handle_root_package(&mut package, &pipelines, &modules);
    assert!(package.send.is_none());
    let result = reply_rx.blocking_recv().expect("one reply arrives");
    assert!(result.value_eq(&Value::Int(12)));
}

#[test]
fn failed_request_replies_with_a_tagged_error() {
    let doc = obj(vec![(
        "steps",
        Value::Array(vec![obj(vec![("return", text("params.absent"))])]),
    )]);
    let names: Vec<String> = Vec::new();
    let pipelines = value_to_pipelines(&doc, &names).expect("document compiles");
    let modules = Modules::new();

    let (reply_tx, reply_rx) = tokio::sync::oneshot::channel::<Value>();
    let mut package = phlow::host::Package::new(Some(reply_tx), None, 0, None, None);
    phlow::executor::handle_root_package(&mut package, &pipelines, &modules);
    let result = reply_rx.blocking_recv().expect("one reply arrives");
    let expected = obj(vec![("error", text("eval"))]);
    assert!(result.value_eq(&expected));
}

#[test]
fn log_entry_defaults() {
    let entry = Log::from_value(&obj(vec![]));
    assert!(matches!(entry.level, LogLevel::Info));
    assert_eq!(entry.message, "null".to_string());

    let entry = Log::from_value(&obj(vec![("message", Value::Int(7))]));
    assert_eq!(entry.message, "7".to_string());

    let entry = Log::from_value(&obj(vec![
        ("level", text("warn")),
        ("message", text("careful")),
    ]));
    assert!(matches!(entry.level, LogLevel::Warn));
    assert_eq!(entry.message, "careful".to_string());

    let entry = Log::from_value(&obj(vec![("level", text("debug"))]));
    assert!(matches!(entry.level, LogLevel::Debug));
    let entry = Log::from_value(&obj(vec![("level", text("error"))]));
    assert!(matches!(entry.level, LogLevel::Error));
    let entry = Log::from_value(&obj(vec![("level", text("loud"))]));
    assert!(matches!(entry.level, LogLevel::Info));
}
