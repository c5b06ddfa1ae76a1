//! Compiled form of one step: optional guard, optional module invocation,
//! optional literal payload or return, and branch targets, read from a
//! normalized step object.

use crate::transform::obj_get;
use crate::value::{str_eq, SpecValue, Value};
use vstd::prelude::*;

verus! {

broadcast use vstd::std_specs::vec::group_vec_axioms, vstd::seq::group_seq_axioms;

#[derive(PartialEq, Eq, Structural, Clone, Copy, Debug)]
pub enum ComparisonOp {
    Equal,
    NotEqual,
    LessThan,
    LessThanOrEqual,
    GreaterThan,
    GreaterThanOrEqual,
    And,
    Or,
}

/// The operator named in a condition, by its document name.
pub open spec fn spec_op_of(s: Seq<char>) -> Option<ComparisonOp> {
    if s == "equal"@ {
        Some(ComparisonOp::Equal)
    } else if s == "not_equal"@ {
        Some(ComparisonOp::NotEqual)
    } else if s == "less_than"@ {
        Some(ComparisonOp::LessThan)
    } else if s == "less_than_or_equal"@ {
        Some(ComparisonOp::LessThanOrEqual)
    } else if s == "greater_than"@ {
        Some(ComparisonOp::GreaterThan)
    } else if s == "greater_than_or_equal"@ {
        Some(ComparisonOp::GreaterThanOrEqual)
    } else if s == "and"@ {
        Some(ComparisonOp::And)
    } else if s == "or"@ {
        Some(ComparisonOp::Or)
    } else {
        None
    }
}

impl ComparisonOp {
    pub fn from_name(s: &str) -> (r: Option<ComparisonOp>)
        ensures
            r == spec_op_of(s@),
    {
        if str_eq(s, "equal") {
            Some(ComparisonOp::Equal)
        } else if str_eq(s, "not_equal") {
            Some(ComparisonOp::NotEqual)
        } else if str_eq(s, "less_than") {
            Some(ComparisonOp::LessThan)
        } else if str_eq(s, "less_than_or_equal") {
            Some(ComparisonOp::LessThanOrEqual)
        } else if str_eq(s, "greater_than") {
            Some(ComparisonOp::GreaterThan)
        } else if str_eq(s, "greater_than_or_equal") {
            Some(ComparisonOp::GreaterThanOrEqual)
        } else if str_eq(s, "and") {
            Some(ComparisonOp::And)
        } else if str_eq(s, "or") {
            Some(ComparisonOp::Or)
        } else {
            None
        }
    }
}

/// An expression: either a literal value or a source string handed to the
/// evaluator at run time.
#[derive(Debug)]
pub enum Expr {
    Literal(Value),
    Source(String),
}

pub enum SpecExpr {
    Literal(SpecValue),
    Source(Seq<char>),
}

impl View for Expr {
    type V = SpecExpr;

    open spec fn view(&self) -> SpecExpr {
        match self {
            Expr::Literal(v) => SpecExpr::Literal(v@),
            Expr::Source(s) => SpecExpr::Source(s@),
        }
    }
}

/// How a document value compiles to an expression: text is a source to
/// evaluate, everything else is itself.
pub open spec fn expr_of(v: SpecValue) -> SpecExpr {
    match v {
        SpecValue::Text(s) => SpecExpr::Source(s),
        other => SpecExpr::Literal(other),
    }
}

pub fn compile_expr(v: &Value) -> (r: Expr)
    ensures
        r@ == expr_of(v@),
{
    match v {
        Value::Text(s) => Expr::Source(s.clone()),
        other => Expr::Literal(other.deep_clone()),
    }
}

/// A guard: `left op right`.
#[derive(Debug)]
pub struct Condition {
    pub left: Expr,
    pub right: Expr,
    pub op: ComparisonOp,
}

pub struct SpecCondition {
    pub left: SpecExpr,
    pub right: SpecExpr,
    pub op: ComparisonOp,
}

impl View for Condition {
    type V = SpecCondition;

    open spec fn view(&self) -> SpecCondition {
        SpecCondition { left: self.left@, right: self.right@, op: self.op }
    }
}

/// The reading of a condition object: `left`, `right` and a known
/// `operator` are all required.
pub open spec fn condition_spec(v: SpecValue) -> Option<SpecCondition> {
    match (obj_get(v, "left"@), obj_get(v, "right"@), obj_get(v, "operator"@)) {
        (Some(l), Some(r), Some(SpecValue::Text(o))) => match spec_op_of(o) {
            Some(op) => Some(SpecCondition { left: expr_of(l), right: expr_of(r), op }),
            None => None,
        },
        _ => None,
    }
}

/// A compiled module invocation: the module's dense id and the input
/// expression.
#[derive(Debug)]
pub struct ModuleCall {
    pub module_id: usize,
    pub input: Option<Expr>,
}

pub struct SpecModuleCall {
    pub module_id: int,
    pub input: Option<SpecExpr>,
}

impl View for ModuleCall {
    type V = SpecModuleCall;

    open spec fn view(&self) -> SpecModuleCall {
        SpecModuleCall {
            module_id: self.module_id as int,
            input: match self.input {
                Some(e) => Some(e@),
                None => None,
            },
        }
    }
}

/// Index of the first name equal to `key`, or -1.
pub open spec fn name_index_of(names: Seq<Seq<char>>, key: Seq<char>) -> int
    decreases names.len(),
{
    if names.len() == 0 {
        -1
    } else if names[0] == key {
        0
    } else {
        let rest = name_index_of(names.drop_first(), key);
        if rest == -1 {
            -1
        } else {
            rest + 1
        }
    }
}

pub proof fn lemma_name_index_of(names: Seq<Seq<char>>, key: Seq<char>)
    ensures
        name_index_of(names, key) == -1 || (0 <= name_index_of(names, key) < names.len()
            && names[name_index_of(names, key)] == key),
        name_index_of(names, key) != -1 ==> forall|j: int|
            0 <= j < name_index_of(names, key) ==> names[j] != key,
        name_index_of(names, key) == -1 ==> forall|j: int|
            0 <= j < names.len() ==> names[j] != key,
    decreases names.len(),
{
    if names.len() > 0 && names[0] != key {
        lemma_name_index_of(names.drop_first(), key);
        assert forall|j: int| 1 <= j < names.len() implies names.drop_first()[j - 1]
            == names[j] by {}
    }
}

proof fn lemma_name_index_of_first(names: Seq<Seq<char>>, key: Seq<char>, i: int)
    requires
        0 <= i < names.len(),
        names[i] == key,
        forall|j: int| 0 <= j < i ==> names[j] != key,
    ensures
        name_index_of(names, key) == i,
    decreases names.len(),
{
    if i > 0 {
        lemma_name_index_of_first(names.drop_first(), key, i - 1);
    }
}

proof fn lemma_name_index_of_none(names: Seq<Seq<char>>, key: Seq<char>)
    requires
        forall|j: int| 0 <= j < names.len() ==> names[j] != key,
    ensures
        name_index_of(names, key) == -1,
    decreases names.len(),
{
    if names.len() > 0 {
        lemma_name_index_of_none(names.drop_first(), key);
    }
}

/// The model of a list of names.
pub open spec fn view_names(names: Seq<String>) -> Seq<Seq<char>> {
    Seq::new(names.len(), |i: int| names[i]@)
}

/// Find a name in a list, as executable search.
pub fn find_name(names: &Vec<String>, key: &str) -> (r: Option<usize>)
    ensures
        match r {
            Some(i) => i < names@.len() && name_index_of(view_names(names@), key@) == i,
            None => name_index_of(view_names(names@), key@) == -1,
        },
{
    let n = names.len();
    let mut i: usize = 0;
    while i < n
        invariant
            0 <= i <= n,
            n == names@.len(),
            forall|j: int| 0 <= j < i ==> view_names(names@)[j] != key@,
        decreases n - i,
    {
        if str_eq(names[i].as_str(), key) {
            proof {
                lemma_name_index_of_first(view_names(names@), key@, i as int);
            }
            return Some(i);
        }
        i = i + 1;
    }
    proof {
        lemma_name_index_of_none(view_names(names@), key@);
    }
    None
}

/// What went wrong compiling a step.
#[derive(Debug)]
pub enum StepWorkerError {
    /// The step, or its condition, is not the shape the format asks for.
    MalformedStep,
    /// The condition names an operator the engine does not know.
    UnknownOperator,
    /// The step invokes a module that was not declared.
    UnknownModule,
    /// A branch target is not a pipeline id.
    BadBranchTarget,
}

/// What went wrong turning a document into pipelines.
#[derive(Debug)]
pub enum TransformError {
    InnerStepError(StepWorkerError),
    Parser(String),
}

/// A compiled step.
#[derive(Debug)]
pub struct StepWorker {
    pub id: Option<String>,
    pub condition: Option<Condition>,
    pub payload: Option<Expr>,
    pub return_expr: Option<Expr>,
    pub module: Option<ModuleCall>,
    pub then_target: Option<usize>,
    pub else_target: Option<usize>,
}

pub struct SpecStepWorker {
    pub id: Option<Seq<char>>,
    pub condition: Option<SpecCondition>,
    pub payload: Option<SpecExpr>,
    pub return_expr: Option<SpecExpr>,
    pub module: Option<SpecModuleCall>,
    pub then_target: Option<int>,
    pub else_target: Option<int>,
}

impl View for StepWorker {
    type V = SpecStepWorker;

    open spec fn view(&self) -> SpecStepWorker {
        SpecStepWorker {
            id: match self.id {
                Some(s) => Some(s@),
                None => None,
            },
            condition: match self.condition {
                Some(c) => Some(c@),
                None => None,
            },
            payload: match self.payload {
                Some(e) => Some(e@),
                None => None,
            },
            return_expr: match self.return_expr {
                Some(e) => Some(e@),
                None => None,
            },
            module: match self.module {
                Some(m) => Some(m@),
                None => None,
            },
            then_target: match self.then_target {
                Some(t) => Some(t as int),
                None => None,
            },
            else_target: match self.else_target {
                Some(t) => Some(t as int),
                None => None,
            },
        }
    }
}

/// The reading of a branch target: absent, or a non-negative integer that
/// fits an index.
pub open spec fn branch_target_spec(v: SpecValue, key: Seq<char>) -> Option<Option<int>> {
    match obj_get(v, key) {
        None => Some(None),
        Some(SpecValue::Int(i)) => if 0 <= i <= usize::MAX as int {
            Some(Some(i))
        } else {
            None
        },
        Some(_) => None,
    }
}

/// The full reading of one step object against the declared module names;
/// `None` when the step is malformed.
pub open spec fn step_compile_spec(v: SpecValue, names: Seq<Seq<char>>) -> Option<SpecStepWorker> {
    if !(v is Object) {
        None
    } else {
        let id = match obj_get(v, "id"@) {
            None => Some(None),
            Some(SpecValue::Text(s)) => Some(Some(s)),
            Some(_) => None,
        };
        let condition = match obj_get(v, "condition"@) {
            None => Some(None),
            Some(c) => match condition_spec(c) {
                Some(sc) => Some(Some(sc)),
                None => None,
            },
        };
        let payload = match obj_get(v, "payload"@) {
            None => None,
            Some(p) => Some(expr_of(p)),
        };
        let return_expr = match obj_get(v, "return"@) {
            None => None,
            Some(p) => Some(expr_of(p)),
        };
        let module = match obj_get(v, "use"@) {
            None => Some(None),
            Some(SpecValue::Text(name)) => {
                let i = name_index_of(names, name);
                if i == -1 {
                    None
                } else {
                    Some(
                        Some(
                            SpecModuleCall {
                                module_id: i,
                                input: match obj_get(v, "input"@) {
                                    None => None,
                                    Some(p) => Some(expr_of(p)),
                                },
                            },
                        ),
                    )
                }
            },
            Some(_) => None,
        };
        let then_target = branch_target_spec(v, "then"@);
        let else_target = branch_target_spec(v, "else"@);
        if id is Some && condition is Some && module is Some && then_target is Some && else_target
            is Some {
            Some(
                SpecStepWorker {
                    id: id.unwrap(),
                    condition: condition.unwrap(),
                    payload,
                    return_expr,
                    module: module.unwrap(),
                    then_target: then_target.unwrap(),
                    else_target: else_target.unwrap(),
                },
            )
        } else {
            None
        }
    }
}

/// Why a step fails to compile: each kind's cause, on the step it was
/// reported for.
pub open spec fn step_err_matches(v: SpecValue, names: Seq<Seq<char>>, e: StepWorkerError) -> bool {
    match e {
        StepWorkerError::UnknownOperator => obj_get(v, "condition"@) matches Some(c) && obj_get(
            c,
            "operator"@,
        ) matches Some(SpecValue::Text(o)) && spec_op_of(o) is None,
        StepWorkerError::UnknownModule => obj_get(v, "use"@) matches Some(SpecValue::Text(n))
            && name_index_of(names, n) == -1,
        StepWorkerError::BadBranchTarget => branch_target_spec(v, "then"@) is None
            || branch_target_spec(v, "else"@) is None,
        StepWorkerError::MalformedStep => true,
    }
}

impl StepWorker {
    /// Compile one normalized step object against the declared module
    /// names. Compilation succeeds exactly when the step is well formed:
    /// a text id if any, a complete condition with a known operator if
    /// any, a declared module if any, and integer branch targets if any.
    /// The error kind names the cause.
    pub fn try_from_value(v: &Value, names: &Vec<String>) -> (r: Result<
        StepWorker,
        StepWorkerError,
    >)
        ensures
            match r {
                Ok(w) => step_compile_spec(v@, view_names(names@)) == Some(w@),
                Err(_) => step_compile_spec(v@, view_names(names@)) is None,
            },
            r matches Err(e) ==> step_err_matches(v@, view_names(names@), e),
    {
        if !v.is_object() {
            return Err(StepWorkerError::MalformedStep);
        }
        let id: Option<String> = match v.get("id") {
            None => None,
            Some(Value::Text(s)) => Some(s.clone()),
            Some(_) => {
                return Err(StepWorkerError::MalformedStep);
            },
        };
        let condition: Option<Condition> = match v.get("condition") {
            None => None,
            Some(c) => {
                let left = match c.get("left") {
                    Some(l) => compile_expr(l),
                    None => {
                        return Err(StepWorkerError::MalformedStep);
                    },
                };
                let right = match c.get("right") {
                    Some(x) => compile_expr(x),
                    None => {
                        return Err(StepWorkerError::MalformedStep);
                    },
                };
                let op = match c.get("operator") {
                    Some(Value::Text(o)) => match ComparisonOp::from_name(o.as_str()) {
                        Some(op) => op,
                        None => {
                            return Err(StepWorkerError::UnknownOperator);
                        },
                    },
                    _ => {
                        return Err(StepWorkerError::MalformedStep);
                    },
                };
                Some(Condition { left, right, op })
            },
        };
        let payload: Option<Expr> = match v.get("payload") {
            None => None,
            Some(p) => Some(compile_expr(p)),
        };
        let return_expr: Option<Expr> = match v.get("return") {
            None => None,
            Some(p) => Some(compile_expr(p)),
        };
        let module: Option<ModuleCall> = match v.get("use") {
            None => None,
            Some(Value::Text(name)) => match find_name(names, name.as_str()) {
                Some(i) => {
                    let input = match v.get("input") {
                        None => None,
                        Some(p) => Some(compile_expr(p)),
                    };
                    Some(ModuleCall { module_id: i, input })
                },
                None => {
                    return Err(StepWorkerError::UnknownModule);
                },
            },
            Some(_) => {
                return Err(StepWorkerError::MalformedStep);
            },
        };
        let then_target: Option<usize> = match v.get("then") {
            None => None,
            Some(Value::Int(i)) => {
                if *i >= 0 && (*i as u64) <= (usize::MAX as u64) {
                    Some(*i as usize)
                } else {
                    return Err(StepWorkerError::BadBranchTarget);
                }
            },
            Some(_) => {
                return Err(StepWorkerError::BadBranchTarget);
            },
        };
        let else_target: Option<usize> = match v.get("else") {
            None => None,
            Some(Value::Int(i)) => {
                if *i >= 0 && (*i as u64) <= (usize::MAX as u64) {
                    Some(*i as usize)
                } else {
                    return Err(StepWorkerError::BadBranchTarget);
                }
            },
            Some(_) => {
                return Err(StepWorkerError::BadBranchTarget);
            },
        };
        Ok(StepWorker { id, condition, payload, return_expr, module, then_target, else_target })
    }
}

} // verus!
