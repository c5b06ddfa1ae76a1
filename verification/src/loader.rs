//! The loader's compute half: reading a parsed configuration document into
//! the module list and the raw step tree. File discovery, file reading and
//! dynamic loading stay with the host program; this module decides.

use crate::transform::obj_get;
use crate::value::{str_eq, SpecValue, Value};
use vstd::prelude::*;

verus! {

broadcast use vstd::std_specs::vec::group_vec_axioms, vstd::seq::group_seq_axioms;

/// What can go wrong while loading a configuration.
#[derive(Debug)]
pub enum LoaderError {
    /// A module entry was malformed.
    ModuleLoaderError,
    /// A module, or the configuration file itself, was not found.
    ModuleNotFound(String),
    /// The document has no `steps` key.
    StepsNotDefined,
    /// The host could not load a module binary; the text is its report.
    LibLoadingError(String),
    /// The JSON parser rejected the file; the text is its report.
    LoaderErrorJson(String),
    /// The YAML parser rejected the file; the text is its report.
    LoaderErrorYaml(String),
    /// The TOML parser rejected the file; the text is its report.
    LoaderErrorToml(String),
}

impl LoaderError {
    /// A short description of the error, in place of a formatter.
    pub fn message(&self) -> (r: String)
        ensures
            self matches LoaderError::ModuleLoaderError ==> r@ == "Module loader error"@,
            self matches LoaderError::StepsNotDefined ==> r@ == "Steps not defined"@,
            self matches LoaderError::ModuleNotFound(n) ==> r@ == "Module not found: "@ + n@,
            self matches LoaderError::LibLoadingError(e) ==> r@ == "Lib loading error: "@ + e@,
            self matches LoaderError::LoaderErrorJson(e) ==> r@ == "Json error: "@ + e@,
            self matches LoaderError::LoaderErrorYaml(e) ==> r@ == "Yaml error: "@ + e@,
            self matches LoaderError::LoaderErrorToml(e) ==> r@ == "Toml error: "@ + e@,
    {
        match self {
            LoaderError::ModuleLoaderError => String::from_str("Module loader error"),
            LoaderError::StepsNotDefined => String::from_str("Steps not defined"),
            LoaderError::ModuleNotFound(name) => String::from_str("Module not found: ").concat(
                name.as_str(),
            ),
            LoaderError::LibLoadingError(e) => String::from_str("Lib loading error: ").concat(
                e.as_str(),
            ),
            LoaderError::LoaderErrorJson(e) => String::from_str("Json error: ").concat(e.as_str()),
            LoaderError::LoaderErrorYaml(e) => String::from_str("Yaml error: ").concat(e.as_str()),
            LoaderError::LoaderErrorToml(e) => String::from_str("Toml error: ").concat(e.as_str()),
        }
    }
}

/// Which parser a configuration file calls for.
#[derive(PartialEq, Eq, Structural, Clone, Copy, Debug)]
pub enum ModuleExtension {
    Json,
    Yaml,
    Toml,
}

/// The extension that selects each parser; anything unknown is read as
/// JSON.
pub open spec fn spec_extension(s: Seq<char>) -> ModuleExtension {
    if s == "yaml"@ || s == "yml"@ {
        ModuleExtension::Yaml
    } else if s == "toml"@ {
        ModuleExtension::Toml
    } else {
        ModuleExtension::Json
    }
}

impl ModuleExtension {
    pub fn from_extension(extension: &str) -> (r: ModuleExtension)
        ensures
            r == spec_extension(extension@),
    {
        if str_eq(extension, "yaml") || str_eq(extension, "yml") {
            ModuleExtension::Yaml
        } else if str_eq(extension, "toml") {
            ModuleExtension::Toml
        } else {
            ModuleExtension::Json
        }
    }
}

/// The file names tried, in order, when a directory is given.
pub fn default_file_names() -> (r: Vec<String>)
    ensures
        r@.len() == 4,
        r@[0]@ == "main.yaml"@,
        r@[1]@ == "main.yml"@,
        r@[2]@ == "main.json"@,
        r@[3]@ == "main.toml"@,
{
    let mut v: Vec<String> = Vec::new();
    v.push(String::from_str("main.yaml"));
    v.push(String::from_str("main.yml"));
    v.push(String::from_str("main.json"));
    v.push(String::from_str("main.toml"));
    v
}

/// The path at which a module's binary is expected.
pub fn module_binary_path(module: &str) -> (r: String)
    ensures
        r@ == "phlow_modules/"@ + module@ + "/module.so"@,
{
    String::from_str("phlow_modules/").concat(module).concat("/module.so")
}

/// A declared module: the binary it names, the identifier steps use for
/// it, and its configuration value.
#[derive(Debug)]
pub struct Module {
    pub name: String,
    pub module: String,
    pub with: Value,
}

/// The reading of one module entry: `module` must be text, `name`
/// defaults to it, `with` defaults to null. `None` when the entry is
/// malformed.
pub open spec fn module_spec(v: SpecValue) -> Option<(Seq<char>, Seq<char>, SpecValue)> {
    match obj_get(v, "module"@) {
        Some(SpecValue::Text(m)) => {
            let name = match obj_get(v, "name"@) {
                Some(SpecValue::Text(n)) => Some(n),
                Some(_) => None,
                None => Some(m),
            };
            let with = match obj_get(v, "with"@) {
                Some(w) => w,
                None => SpecValue::Null,
            };
            match name {
                Some(n) => Some((n, m, with)),
                None => None,
            }
        },
        _ => None,
    }
}

impl Module {
    /// Read one module entry of the configuration.
    pub fn try_from_value(value: &Value) -> (r: Result<Module, LoaderError>)
        ensures
            match r {
                Ok(m) => module_spec(value@) == Some((m.name@, m.module@, m.with@)),
                Err(e) => module_spec(value@) is None && e matches LoaderError::ModuleLoaderError,
            },
    {
        let module: String = match value.get("module") {
            Some(Value::Text(m)) => m.clone(),
            _ => {
                return Err(LoaderError::ModuleLoaderError);
            },
        };
        let name: String = match value.get("name") {
            Some(Value::Text(n)) => n.clone(),
            Some(_) => {
                return Err(LoaderError::ModuleLoaderError);
            },
            None => module.clone(),
        };
        let with: Value = match value.get("with") {
            Some(w) => w.deep_clone(),
            None => Value::Null,
        };
        Ok(Module { name, module, with })
    }
}

/// The reading of the whole module list; `None` when any entry is
/// malformed.
pub open spec fn modules_spec(items: Seq<SpecValue>) -> Option<
    Seq<(Seq<char>, Seq<char>, SpecValue)>,
>
    decreases items.len(),
{
    if items.len() == 0 {
        Some(Seq::empty())
    } else {
        match module_spec(items[0]) {
            Some(m) => match modules_spec(items.drop_first()) {
                Some(rest) => Some(seq![m] + rest),
                None => None,
            },
            None => None,
        }
    }
}

/// A well-formed module list reads entry for entry.
pub proof fn lemma_modules_spec_len(items: Seq<SpecValue>)
    requires
        modules_spec(items) is Some,
    ensures
        modules_spec(items).unwrap().len() == items.len(),
    decreases items.len(),
{
    if items.len() > 0 {
        lemma_modules_spec_len(items.drop_first());
    }
}

/// The index of the last module whose name is the main module's name, or
/// -1 when there is none.
pub open spec fn main_index_spec(
    mods: Seq<(Seq<char>, Seq<char>, SpecValue)>,
    main: Option<Seq<char>>,
) -> int
    decreases mods.len(),
{
    if mods.len() == 0 {
        -1
    } else {
        let rest = main_index_spec(mods.drop_last(), main);
        if main == Some(mods.last().0) {
            mods.len() - 1
        } else {
            rest
        }
    }
}

/// The loaded configuration: the index of the main module (-1 for none),
/// the declared modules, and the raw step tree.
#[derive(Debug)]
pub struct Loader {
    pub main: i32,
    pub modules: Vec<Module>,
    pub steps: Value,
}

impl Loader {
    /// Read a parsed configuration document. The document must carry a
    /// `steps` key; a `modules` key, when present, must be an array of
    /// well-formed entries, each naming its binary as text. The main
    /// module is the last one whose name equals the text under `main`.
    /// Whether each binary exists on disk is the host's question, asked
    /// before the workers start; `ModuleNotFound` is its answer, never
    /// this function's.
    #[verifier::loop_isolation(false)]
    pub fn load(config: &Value) -> (r: Result<Loader, LoaderError>)
        requires
            match obj_get(config@, "modules"@) {
                Some(SpecValue::Array(items)) => items.len() <= 0x7fff_ffff,
                _ => true,
            },
        ensures
            match r {
                Ok(l) => {
                    &&& obj_get(config@, "steps"@) == Some(l.steps@)
                    &&& match obj_get(config@, "modules"@) {
                        Some(SpecValue::Array(items)) => {
                            &&& modules_spec(items) matches Some(mods)
                            &&& l.modules@.len() == modules_spec(items).unwrap().len()
                            &&& forall|i: int|
                                0 <= i < l.modules@.len() ==> (
                                #[trigger] l.modules@[i].name@,
                                l.modules@[i].module@,
                                l.modules@[i].with@,
                            ) == modules_spec(items).unwrap()[i]
                            &&& l.main as int == main_index_spec(
                                modules_spec(items).unwrap(),
                                match obj_get(config@, "main"@) {
                                    Some(SpecValue::Text(n)) => Some(n),
                                    _ => None,
                                },
                            )
                        },
                        Some(_) => false,
                        None => l.modules@.len() == 0 && l.main == 0,
                    }
                },
                Err(e) => match e {
                    LoaderError::StepsNotDefined => obj_get(config@, "steps"@) is None && (match
                        obj_get(config@, "modules"@) {
                        Some(SpecValue::Array(items)) => modules_spec(items) is Some,
                        Some(_) => false,
                        None => true,
                    }),
                    LoaderError::ModuleLoaderError => match obj_get(config@, "modules"@) {
                        Some(SpecValue::Array(items)) => modules_spec(items) is None,
                        Some(_) => true,
                        None => false,
                    },
                    _ => false,
                },
            },
    {
        let mut main: i32 = 0;
        let mut modules_vec: Vec<Module> = Vec::new();
        match config.get("modules") {
            Some(modules_value) => {
                let main_name: Option<String> = match config.get("main") {
                    Some(Value::Text(n)) => Some(n.clone()),
                    _ => None,
                };
                match modules_value {
                    Value::Array(items) => {
                        let ghost itemsv = modules_value@->Array_0;
                        proof {
                            crate::value::lemma_view_items(items@);
                        }
                        main = -1;
                        let n = items.len();
                        let mut i: usize = 0;
                        let ghost mods_all = modules_spec(itemsv);
                        proof {
                            assert(itemsv.subrange(0, n as int) =~= itemsv);
                            if mods_all is Some {
                                lemma_modules_spec_len(itemsv);
                                let all = mods_all.unwrap();
                                assert(all.subrange(0, 0)
                                    =~= Seq::<(Seq<char>, Seq<char>, SpecValue)>::empty());
                                assert(all.subrange(0, n as int) =~= all);
                            }
                        }
                        while i < n
                            invariant
                                0 <= i <= n,
                                n == items@.len(),
                                n == itemsv.len(),
                                forall|j: int| 0 <= j < n ==> items@[j]@ == itemsv[j],
                                modules_spec(itemsv.subrange(i as int, n as int)) is Some
                                    <==> mods_all is Some,
                                mods_all matches Some(all) ==> {
                                    &&& modules_vec@.len() == i
                                    &&& all.len() == n
                                    &&& modules_spec(itemsv.subrange(i as int, n as int))
                                        == Some(all.subrange(i as int, n as int))
                                    &&& forall|j: int|
                                        0 <= j < i ==> (
                                        #[trigger] modules_vec@[j].name@,
                                        modules_vec@[j].module@,
                                        modules_vec@[j].with@,
                                    ) == all[j]
                                    &&& main as int == main_index_spec(
                                        all.subrange(0, i as int),
                                        match main_name {
                                            Some(nm) => Some(nm@),
                                            None => None,
                                        },
                                    )
                                },
                            decreases n - i,
                        {
                            let ghost restv = itemsv.subrange(i as int, n as int);
                            proof {
                                assert(restv[0] == itemsv[i as int]);
                                assert(restv.drop_first() =~= itemsv.subrange(
                                    i as int + 1,
                                    n as int,
                                ));
                            }
                            let entry = &items[i];
                            let m = match Module::try_from_value(entry) {
                                Ok(m) => m,
                                Err(_) => {
                                    return Err(LoaderError::ModuleLoaderError);
                                },
                            };
                            let is_main: bool = match &main_name {
                                Some(nm) => str_eq(nm.as_str(), m.name.as_str()),
                                None => false,
                            };
                            if is_main {
                                main = i as i32;
                            }
                            modules_vec.push(m);
                            proof {
                                if mods_all is Some {
                                    let all = mods_all.unwrap();
                                    assert(all.subrange(0, i as int + 1).drop_last()
                                        =~= all.subrange(0, i as int));
                                    assert(all.subrange(0, i as int + 1).last()
                                        == all[i as int]);
                                    assert(modules_spec(restv) == Some(all.subrange(
                                        i as int,
                                        n as int,
                                    )));
                                    assert(all.subrange(i as int, n as int)[0] == all[i as int]);
                                    assert(restv.drop_first() =~= itemsv.subrange(
                                        i as int + 1,
                                        n as int,
                                    ));
                                    assert(all.subrange(i as int, n as int).drop_first()
                                        =~= all.subrange(i as int + 1, n as int));
                                }
                            }
                            i = i + 1;
                        }
                        proof {
                            assert(itemsv.subrange(i as int, n as int)
                                =~= Seq::<SpecValue>::empty());
                            if mods_all is Some {
                                let all = mods_all.unwrap();
                                assert(all.subrange(0, i as int) =~= all);
                                assert(all.subrange(i as int, n as int)
                                    =~= Seq::<(Seq<char>, Seq<char>, SpecValue)>::empty());
                            }
                        }
                    },
                    _ => {
                        return Err(LoaderError::ModuleLoaderError);
                    },
                }
            },
            None => {},
        }
        let steps: Value = match config.get("steps") {
            Some(s) => s.deep_clone(),
            None => {
                return Err(LoaderError::StepsNotDefined);
            },
        };
        Ok(Loader { main, modules: modules_vec, steps })
    }

    /// The step tree wrapped in a fresh document, as the transform expects
    /// it.
    pub fn get_steps(&self) -> (r: Value)
        ensures
            r@ == SpecValue::Object(seq![("steps"@, self.steps@)]),
    {
        let mut fields: Vec<(String, Value)> = Vec::new();
        fields.push((String::from_str("steps"), self.steps.deep_clone()));
        proof {
            crate::value::lemma_view_fields(fields@);
            assert(crate::value::view_fields(fields@) =~= seq![("steps"@, self.steps@)]);
        }
        Value::Object(fields)
    }
}

} // verus!
