use phlow::loader::{
    default_file_names, module_binary_path, Loader, LoaderError, Module, ModuleExtension,
};
use phlow::value::Value;

fn text(s: &str) -> Value {
    Value::Text(s.to_string())
}

fn obj(pairs: Vec<(&str, Value)>) -> Value {
    Value::Object(pairs.into_iter().map(|(k, v)| (k.to_string(), v)).collect())
}

#[test]
fn extension_selects_parser() {
    assert_eq!(ModuleExtension::from_extension("json"), ModuleExtension::Json);
    assert_eq!(ModuleExtension::from_extension("yaml"), ModuleExtension::Yaml);
    assert_eq!(ModuleExtension::from_extension("yml"), ModuleExtension::Yaml);
    assert_eq!(ModuleExtension::from_extension("toml"), ModuleExtension::Toml);
    assert_eq!(ModuleExtension::from_extension("ini"), ModuleExtension::Json);
}

#[test]
fn default_files_in_search_order() {
    let names = default_file_names();
    let expected = vec!["main.yaml", "main.yml", "main.json", "main.toml"];
    assert_eq!(names.len(), expected.len());
    for (name, want) in names.iter().zip(expected.iter()) {
        assert_eq!(name, want);
    }
}

#[test]
fn binary_path_follows_the_layout() {
    assert_eq!(module_binary_path("log"), "phlow_modules/log/module.so".to_string());
}

#[test]
fn module_entry_reads_name_and_with() {
    let m = Module::try_from_value(&obj(vec![("module", text("log"))])).expect("entry reads");
    assert_eq!(m.module, "log".to_string());
    assert_eq!(m.name, "log".to_string());
    assert!(m.with.value_eq(&Value::Null));

    let m = Module::try_from_value(&obj(vec![
        ("module", text("log")),
        ("name", text("audit")),
        ("with", obj(vec![("level", text("info"))])),
    ]))
    .expect("entry reads");
    assert_eq!(m.name, "audit".to_string());
    assert!(m.with.value_eq(&obj(vec![("level", text("info"))])));

    let err = Module::try_from_value(&obj(vec![("name", text("x"))])).expect_err("entry fails");
    assert!(matches!(err, LoaderError::ModuleLoaderError));
}

#[test]
fn loader_requires_steps() {
    let err = Loader::load(&obj(vec![])).expect_err("load fails");
    assert!(matches!(err, LoaderError::StepsNotDefined));
}

#[test]
fn loader_without_modules_defaults_main_to_zero() {
    let l = Loader::load(&obj(vec![("steps", Value::Array(vec![]))])).expect("load succeeds");
    assert_eq!(l.main, 0);
    assert_eq!(l.modules.len(), 0);
    assert!(l.steps.value_eq(&Value::Array(vec![])));
}

#[test]
fn loader_resolves_main_by_name_last_match_wins() {
    let config = obj(vec![
        ("main", text("server")),
        (
            "modules",
            Value::Array(vec![
                obj(vec![("module", text("log"))]),
                obj(vec![("module", text("http")), ("name", text("server"))]),
                obj(vec![("module", text("grpc")), ("name", text("server"))]),
            ]),
        ),
        ("steps", Value::Array(vec![])),
    ]);
    let l = Loader::load(&config).expect("load succeeds");
    assert_eq!(l.main, 2);
    assert_eq!(l.modules.len(), 3);
    assert_eq!(l.modules[1].name, "server".to_string());
}

#[test]
fn loader_without_main_name_has_no_main() {
    let config = obj(vec![
        (
            "modules",
            Value::Array(vec![obj(vec![("module", text("log"))])]),
        ),
        ("steps", Value::Array(vec![])),
    ]);
    let l = Loader::load(&config).expect("load succeeds");
    assert_eq!(l.main, -1);
}

#[test]
fn loader_rejects_malformed_modules() {
    let config = obj(vec![
        ("modules", Value::Array(vec![obj(vec![])])),
        ("steps", Value::Array(vec![])),
    ]);
    let err = Loader::load(&config).expect_err("load fails");
    assert!(matches!(err, LoaderError::ModuleLoaderError));

    let config = obj(vec![("modules", text("nope")), ("steps", Value::Array(vec![]))]);
    let err = Loader::load(&config).expect_err("load fails");
    assert!(matches!(err, LoaderError::ModuleLoaderError));
}

#[test]
fn get_steps_wraps_the_tree() {
    let l = Loader::load(&obj(vec![("steps", Value::Array(vec![Value::Int(1)]))]))
        .expect("load succeeds");
    let wrapped = l.get_steps();
    let expected = obj(vec![("steps", Value::Array(vec![Value::Int(1)]))]);
    assert!(wrapped.value_eq(&expected));
}

#[test]
fn loader_error_messages() {
    assert_eq!(
        LoaderError::ModuleLoaderError.message(),
        "Module loader error".to_string()
    );
    assert_eq!(LoaderError::StepsNotDefined.message(), "Steps not defined".to_string());
    assert_eq!(
        LoaderError::ModuleNotFound("log".to_string()).message(),
        "Module not found: log".to_string()
    );
}
