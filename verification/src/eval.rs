//! Expression evaluation. A plain dotted context address (`params.x`,
//! `steps.id.total`, ...) resolves against the context exactly; any other
//! source string goes to the outside expression evaluator, with the
//! context serialized as its bindings; containers evaluate field by
//! field. Guards apply a comparison operator to two evaluated sides, and
//! hand non-integer number comparisons to the evaluator as well. What the
//! evaluator returns is a named function of the source and the bindings
//! text, and everything decided on it is verified.

use crate::context::{opt_view, Context, SpecContext};
use crate::json::{json_of, scalar_of};
use crate::step::{ComparisonOp, Condition, Expr, SpecCondition, SpecExpr};
use crate::value::{
    find_char, find_dot, lemma_find_char_bounds, lemma_view_fields, lemma_view_items, obj_lookup,
    path_lookup, str_eq, view_fields, view_items, SpecValue, Value,
};
use rhai::packages::Package;
use vstd::prelude::*;

verus! {

broadcast use vstd::std_specs::vec::group_vec_axioms, vstd::seq::group_seq_axioms;

/// The first dot-separated segment.
pub open spec fn seg_head(s: Seq<char>) -> Seq<char> {
    let d = find_char(s, '.');
    if d == -1 {
        s
    } else {
        s.subrange(0, d)
    }
}

/// What follows the first dot, if anything does.
pub open spec fn seg_tail(s: Seq<char>) -> Option<Seq<char>> {
    let d = find_char(s, '.');
    if d == -1 {
        None
    } else {
        Some(s.subrange(d + 1, s.len() as int))
    }
}

/// Whether a source string addresses the context.
pub open spec fn is_ctx_source(s: Seq<char>) -> bool {
    let root = seg_head(s);
    root == "params"@ || root == "main"@ || root == "payload"@ || root == "input"@ || root
        == "steps"@
}

/// A character a plain dotted address may hold.
pub open spec fn is_ident_char(c: char) -> bool {
    ('a' <= c && c <= 'z') || ('A' <= c && c <= 'Z') || ('0' <= c && c <= '9') || c == '_' || c
        == '-' || c == '.'
}

/// A plain dotted context address: one of the five roots, spelled with
/// identifier characters only. Anything else is evaluator input.
pub open spec fn is_ctx_address(s: Seq<char>) -> bool {
    is_ctx_source(s) && forall|i: int| 0 <= i < s.len() ==> is_ident_char(#[trigger] s[i])
}

/// A templated source: `{{ expr }}`, whitespace allowed around it.
pub open spec fn is_template(s: Seq<char>) -> bool {
    let t = crate::yaml::trim_spec(s);
    t.len() >= 4 && t.subrange(0, 2) == seq!['{', '{'] && t.subrange(t.len() - 2, t.len() as int)
        == seq!['}', '}']
}

pub open spec fn template_inner(s: Seq<char>) -> Seq<char> {
    let t = crate::yaml::trim_spec(s);
    crate::yaml::trim_spec(t.subrange(2, t.len() - 2))
}

/// What the outside expression evaluator answers for a source against
/// serialized bindings: a JSON result text, or nothing on a failure. The
/// answer depends on the two texts alone.
pub uninterp spec fn outside_eval(source: Seq<char>, bindings: Seq<char>) -> Option<Seq<char>>;

/// The context as one value, the shape the evaluator's bindings take.
pub open spec fn opt_or_null(o: Option<SpecValue>) -> SpecValue {
    match o {
        Some(v) => v,
        None => SpecValue::Null,
    }
}

pub open spec fn ctx_value_of(ctx: SpecContext) -> SpecValue {
    SpecValue::Object(
        seq![
            ("params"@, opt_or_null(ctx.params)),
            ("main"@, opt_or_null(ctx.main)),
            ("payload"@, opt_or_null(ctx.payload)),
            ("input"@, opt_or_null(ctx.input)),
            ("steps"@, SpecValue::Object(ctx.steps)),
        ],
    )
}

pub open spec fn ctx_bindings_json(ctx: SpecContext) -> Seq<char> {
    json_of(ctx_value_of(ctx))
}

/// Evaluation of one source string: a template must evaluate to a scalar
/// result; a plain address must resolve; any other text is tried on the
/// evaluator and stands as itself when the evaluator has no scalar answer
/// for it.
pub open spec fn eval_text_spec(ctx: SpecContext, s: Seq<char>) -> Option<SpecValue> {
    if is_template(s) {
        match outside_eval(template_inner(s), ctx_bindings_json(ctx)) {
            Some(out) => scalar_of(out),
            None => None,
        }
    } else if is_ctx_address(s) {
        ctx_lookup(ctx, s)
    } else {
        match outside_eval(s, ctx_bindings_json(ctx)) {
            Some(out) => match scalar_of(out) {
                Some(v) => Some(v),
                None => Some(SpecValue::Text(s)),
            },
            None => Some(SpecValue::Text(s)),
        }
    }
}

/// Resolution of a context address: the root picks the binding, the rest
/// is a path into it; `steps` takes a step id first.
pub open spec fn ctx_lookup(ctx: SpecContext, s: Seq<char>) -> Option<SpecValue> {
    let root = seg_head(s);
    if root == "steps"@ {
        match seg_tail(s) {
            None => None,
            Some(r) => {
                let id = seg_head(r);
                match obj_lookup(ctx.steps, id) {
                    Some(v) => match seg_tail(r) {
                        None => Some(v),
                        Some(p) => path_lookup(v, p),
                    },
                    None => None,
                }
            },
        }
    } else {
        let base = if root == "params"@ {
            ctx.params
        } else if root == "main"@ {
            ctx.main
        } else if root == "payload"@ {
            ctx.payload
        } else if root == "input"@ {
            ctx.input
        } else {
            None
        };
        match base {
            None => None,
            Some(v) => match seg_tail(s) {
                None => Some(v),
                Some(p) => path_lookup(v, p),
            },
        }
    }
}

/// Evaluation of a value: a context address resolves or fails, any other
/// text is itself, containers evaluate element by element.
pub open spec fn eval_value_spec(ctx: SpecContext, v: SpecValue) -> Option<SpecValue>
    decreases v,
{
    match v {
        SpecValue::Text(s) => eval_text_spec(ctx, s),
        SpecValue::Array(items) => {
            proof {
                assert(decreases_to!(v => items));
            }
            match eval_items_spec(ctx, items) {
                Some(out) => Some(SpecValue::Array(out)),
                None => None,
            }
        },
        SpecValue::Object(fields) => {
            proof {
                assert(decreases_to!(v => fields));
            }
            match eval_fields_spec(ctx, fields) {
                Some(out) => Some(SpecValue::Object(out)),
                None => None,
            }
        },
        other => Some(other),
    }
}

pub open spec fn eval_items_spec(ctx: SpecContext, items: Seq<SpecValue>) -> Option<Seq<SpecValue>>
    decreases items,
{
    if items.len() == 0 {
        Some(Seq::empty())
    } else {
        proof {
            assert(decreases_to!(items => items[0]));
            assert(decreases_to!(items => items.subrange(1, items.len() as int)));
        }
        match eval_value_spec(ctx, items[0]) {
            Some(v) => match eval_items_spec(ctx, items.drop_first()) {
                Some(rest) => Some(seq![v] + rest),
                None => None,
            },
            None => None,
        }
    }
}

pub open spec fn eval_fields_spec(ctx: SpecContext, fields: Seq<(Seq<char>, SpecValue)>) -> Option<
    Seq<(Seq<char>, SpecValue)>,
>
    decreases fields,
{
    if fields.len() == 0 {
        Some(Seq::empty())
    } else {
        proof {
            assert(decreases_to!(fields => fields[0]));
            assert(decreases_to!(fields[0] => fields[0].1));
            assert(decreases_to!(fields => fields.subrange(1, fields.len() as int)));
        }
        match eval_value_spec(ctx, fields[0].1) {
            Some(v) => match eval_fields_spec(ctx, fields.drop_first()) {
                Some(rest) => Some(seq![(fields[0].0, v)] + rest),
                None => None,
            },
            None => None,
        }
    }
}

pub proof fn lemma_eval_items_spec_len(ctx: SpecContext, items: Seq<SpecValue>)
    requires
        eval_items_spec(ctx, items) is Some,
    ensures
        eval_items_spec(ctx, items).unwrap().len() == items.len(),
    decreases items,
{
    if items.len() > 0 {
        assert(decreases_to!(items => items.subrange(1, items.len() as int)));
        lemma_eval_items_spec_len(ctx, items.drop_first());
    }
}

pub proof fn lemma_eval_fields_spec_len(ctx: SpecContext, fields: Seq<(Seq<char>, SpecValue)>)
    requires
        eval_fields_spec(ctx, fields) is Some,
    ensures
        eval_fields_spec(ctx, fields).unwrap().len() == fields.len(),
    decreases fields,
{
    if fields.len() > 0 {
        assert(decreases_to!(fields => fields.subrange(1, fields.len() as int)));
        lemma_eval_fields_spec_len(ctx, fields.drop_first());
    }
}

/// Evaluation of a compiled expression.
pub open spec fn eval_expr_spec(ctx: SpecContext, e: SpecExpr) -> Option<SpecValue> {
    match e {
        SpecExpr::Literal(v) => eval_value_spec(ctx, v),
        SpecExpr::Source(s) => eval_value_spec(ctx, SpecValue::Text(s)),
    }
}

pub open spec fn is_numeric(v: SpecValue) -> bool {
    v is Int || v is Float
}

/// The expression that asks the outside evaluator for an ordering.
pub open spec fn cmp_source(op: ComparisonOp) -> Seq<char> {
    match op {
        ComparisonOp::LessThan => "lhs < rhs"@,
        ComparisonOp::LessThanOrEqual => "lhs <= rhs"@,
        ComparisonOp::GreaterThan => "lhs > rhs"@,
        ComparisonOp::GreaterThanOrEqual => "lhs >= rhs"@,
        _ => Seq::empty(),
    }
}

pub open spec fn cmp_bindings(a: SpecValue, b: SpecValue) -> Seq<char> {
    json_of(SpecValue::Object(seq![("lhs"@, a), ("rhs"@, b)]))
}

/// An ordering decided by the outside evaluator: its boolean answer, or
/// nothing when it fails or answers with something else.
pub open spec fn outside_order(op: ComparisonOp, a: SpecValue, b: SpecValue) -> Option<bool> {
    match outside_eval(cmp_source(op), cmp_bindings(a, b)) {
        Some(out) => match scalar_of(out) {
            Some(SpecValue::Bool(x)) => Some(x),
            _ => None,
        },
        None => None,
    }
}

/// A comparison operator on two evaluated values. Equality is structural;
/// the orderings are exact on two integers and go to the outside
/// evaluator when a non-integer number takes part; the connectives ask
/// for two booleans.
pub open spec fn apply_op_spec(op: ComparisonOp, a: SpecValue, b: SpecValue) -> Option<bool> {
    match op {
        ComparisonOp::Equal => Some(a == b),
        ComparisonOp::NotEqual => Some(a != b),
        ComparisonOp::LessThan => match (a, b) {
            (SpecValue::Int(x), SpecValue::Int(y)) => Some(x < y),
            _ => if is_numeric(a) && is_numeric(b) {
                outside_order(op, a, b)
            } else {
                None
            },
        },
        ComparisonOp::LessThanOrEqual => match (a, b) {
            (SpecValue::Int(x), SpecValue::Int(y)) => Some(x <= y),
            _ => if is_numeric(a) && is_numeric(b) {
                outside_order(op, a, b)
            } else {
                None
            },
        },
        ComparisonOp::GreaterThan => match (a, b) {
            (SpecValue::Int(x), SpecValue::Int(y)) => Some(x > y),
            _ => if is_numeric(a) && is_numeric(b) {
                outside_order(op, a, b)
            } else {
                None
            },
        },
        ComparisonOp::GreaterThanOrEqual => match (a, b) {
            (SpecValue::Int(x), SpecValue::Int(y)) => Some(x >= y),
            _ => if is_numeric(a) && is_numeric(b) {
                outside_order(op, a, b)
            } else {
                None
            },
        },
        ComparisonOp::And => match (a, b) {
            (SpecValue::Bool(x), SpecValue::Bool(y)) => Some(x && y),
            _ => None,
        },
        ComparisonOp::Or => match (a, b) {
            (SpecValue::Bool(x), SpecValue::Bool(y)) => Some(x || y),
            _ => None,
        },
    }
}

/// A guard: both sides evaluated, then compared.
pub open spec fn cond_eval_spec(ctx: SpecContext, c: SpecCondition) -> Option<bool> {
    match (eval_expr_spec(ctx, c.left), eval_expr_spec(ctx, c.right)) {
        (Some(a), Some(b)) => apply_op_spec(c.op, a, b),
        _ => None,
    }
}

/// A run-time evaluator failure.
#[derive(Debug)]
pub enum EvalError {
    /// A context address did not resolve.
    MissingBinding,
    /// An operator met values of the wrong kinds.
    TypeMismatch,
    /// The outside expression evaluator rejected a templated source, or
    /// answered with something that is not a scalar.
    Evaluator,
}

/// Relies on rhai's `Engine::eval_expression_with_scope` (rhai 1.26.1),
/// with the scope built by `Engine::parse_json` from the bindings text
/// and the result serialized back to JSON through rhai's serde support.
/// The engine is assembled raw, extended only with rhai's arithmetic,
/// logic and basic-math packages, so no time-dependent or blocking
/// function (`timestamp`, `sleep`, ...) can reach an expression: the
/// outcome is a function of the expression source and the bindings text
/// alone. The contract names it and promises nothing else.
#[verifier::external_body]
fn evaluate_outside(source: &str, bindings_json: &str) -> (r: Option<String>)
    ensures
        match r {
            Some(out) => outside_eval(source@, bindings_json@) == Some(out@),
            None => outside_eval(source@, bindings_json@) is None,
        },
{
    let mut engine = rhai::Engine::new_raw();
    engine.register_global_module(rhai::packages::ArithmeticPackage::new().as_shared_module());
    engine.register_global_module(rhai::packages::LogicPackage::new().as_shared_module());
    engine.register_global_module(rhai::packages::BasicMathPackage::new().as_shared_module());
    let mut scope = rhai::Scope::new();
    let map = engine.parse_json(bindings_json, true).ok()?;
    for (name, value) in map {
        scope.push_dynamic(name.to_string(), value);
    }
    let result = engine.eval_expression_with_scope::<rhai::Dynamic>(&mut scope, source).ok()?;
    serde_json::to_string(&result).ok()
}

fn opt_clone_or_null(o: &Option<Value>) -> (r: Value)
    ensures
        r@ == opt_or_null(opt_view(*o)),
{
    match o {
        Some(v) => v.deep_clone(),
        None => Value::Null,
    }
}

/// The context serialized as the evaluator's bindings.
fn ctx_bindings(ctx: &Context) -> (r: String)
    ensures
        r@ == ctx_bindings_json(ctx@),
{
    let snap = ctx.snapshot();
    let mut fields: Vec<(String, Value)> = Vec::new();
    fields.push((String::from_str("params"), opt_clone_or_null(&ctx.params)));
    fields.push((String::from_str("main"), opt_clone_or_null(&ctx.main)));
    fields.push((String::from_str("payload"), opt_clone_or_null(&ctx.payload)));
    fields.push((String::from_str("input"), opt_clone_or_null(&ctx.input)));
    fields.push((String::from_str("steps"), Value::Object(snap.steps)));
    let v = Value::Object(fields);
    proof {
        crate::value::lemma_view_fields(fields@);
        assert(crate::value::view_fields(fields@) =~= seq![
            ("params"@, opt_or_null(ctx@.params)),
            ("main"@, opt_or_null(ctx@.main)),
            ("payload"@, opt_or_null(ctx@.payload)),
            ("input"@, opt_or_null(ctx@.input)),
            ("steps"@, SpecValue::Object(ctx@.steps)),
        ]);
        assert(v@ == ctx_value_of(ctx@));
    }
    let chars = crate::json::to_json(&v);
    crate::yaml::chars_to_string(&chars)
}

/// Hand one source string to the outside evaluator and read its scalar
/// answer back.
fn eval_outside_scalar(source: &Vec<char>, ctx: &Context) -> (r: Option<Value>)
    ensures
        match r {
            Some(v) => (match outside_eval(source@, ctx_bindings_json(ctx@)) {
                Some(out) => scalar_of(out),
                None => None,
            }) == Some(v@),
            None => (match outside_eval(source@, ctx_bindings_json(ctx@)) {
                Some(out) => scalar_of(out),
                None => None,
            }) is None,
        },
{
    let src = crate::yaml::chars_to_string(source);
    let bindings = ctx_bindings(ctx);
    match evaluate_outside(src.as_str(), bindings.as_str()) {
        Some(out) => {
            let oc = crate::yaml::str_chars(out.as_str());
            crate::json::parse_scalar(&oc)
        },
        None => None,
    }
}

/// Resolve a context address to an owned value.
fn ctx_resolve(ctx: &Context, s: &str) -> (r: Option<Value>)
    ensures
        match r {
            Some(v) => ctx_lookup(ctx@, s@) == Some(v@),
            None => ctx_lookup(ctx@, s@) is None,
        },
{
    proof {
        lemma_find_char_bounds(s@, '.');
    }
    let n = s.unicode_len();
    let (root, rest): (&str, Option<&str>) = match find_dot(s) {
        None => (s, None),
        Some(d) => (s.substring_char(0, d), Some(s.substring_char(d + 1, n))),
    };
    if str_eq(root, "steps") {
        match rest {
            None => None,
            Some(r2) => {
                proof {
                    lemma_find_char_bounds(r2@, '.');
                }
                let rn = r2.unicode_len();
                let (id, rr): (&str, Option<&str>) = match find_dot(r2) {
                    None => (r2, None),
                    Some(d2) => (r2.substring_char(0, d2), Some(r2.substring_char(d2 + 1, rn))),
                };
                match ctx.get_step_output(id) {
                    Some(v) => match rr {
                        None => Some(v.deep_clone()),
                        Some(p) => match v.get_path(p) {
                            Some(out) => Some(out.deep_clone()),
                            None => None,
                        },
                    },
                    None => None,
                }
            },
        }
    } else {
        let base: Option<&Value> = if str_eq(root, "params") {
            ctx.params.as_ref()
        } else if str_eq(root, "main") {
            ctx.main.as_ref()
        } else if str_eq(root, "payload") {
            ctx.payload.as_ref()
        } else if str_eq(root, "input") {
            ctx.input.as_ref()
        } else {
            None
        };
        match base {
            None => None,
            Some(v) => match rest {
                None => Some(v.deep_clone()),
                Some(p) => match v.get_path(p) {
                    Some(out) => Some(out.deep_clone()),
                    None => None,
                },
            },
        }
    }
}

/// Evaluate a value against the context.
#[verifier::loop_isolation(false)]
pub fn eval_value(ctx: &Context, v: &Value) -> (r: Result<Value, EvalError>)
    ensures
        match r {
            Ok(out) => eval_value_spec(ctx@, v@) == Some(out@),
            Err(_) => eval_value_spec(ctx@, v@) is None,
        },
    decreases *v,
{
    match v {
        Value::Text(s) => {
            let schars = crate::yaml::str_chars(s.as_str());
            let trimmed = crate::yaml::trim_chars(&schars);
            let tn = trimmed.len();
            let is_tmpl: bool = tn >= 4 && trimmed[0] == '{' && trimmed[1] == '{'
                && trimmed[tn - 2] == '}' && trimmed[tn - 1] == '}';
            proof {
                if tn >= 4 {
                    assert(trimmed@.subrange(0, 2) =~= seq![trimmed@[0], trimmed@[1]]);
                    assert(trimmed@.subrange(tn as int - 2, tn as int) =~= seq![
                        trimmed@[tn as int - 2],
                        trimmed@[tn as int - 1],
                    ]);
                    if trimmed@[0] == '{' && trimmed@[1] == '{' && trimmed@[tn as int - 2] == '}'
                        && trimmed@[tn as int - 1] == '}' {
                        assert(trimmed@.subrange(0, 2) =~= seq!['{', '{']);
                        assert(trimmed@.subrange(tn as int - 2, tn as int) =~= seq!['}', '}']);
                    }
                }
                assert(is_tmpl == is_template(s@));
            }
            if is_tmpl {
                let body = crate::yaml::copy_range(&trimmed, 2, tn - 2);
                let inner = crate::yaml::trim_chars(&body);
                proof {
                    assert(inner@ == template_inner(s@));
                }
                match eval_outside_scalar(&inner, ctx) {
                    Some(v) => Ok(v),
                    None => Err(EvalError::Evaluator),
                }
            } else {
                let is_source: bool = {
                    let root: &str = match find_dot(s.as_str()) {
                        None => s.as_str(),
                        Some(d) => s.as_str().substring_char(0, d),
                    };
                    str_eq(root, "params") || str_eq(root, "main") || str_eq(root, "payload")
                        || str_eq(root, "input") || str_eq(root, "steps")
                };
                proof {
                    lemma_find_char_bounds(s@, '.');
                }
                let mut plain: bool = true;
                let n = schars.len();
                let mut i: usize = 0;
                while i < n
                    invariant
                        0 <= i <= n,
                        n == schars@.len(),
                        schars@ == s@,
                        plain ==> forall|j: int| 0 <= j < i ==> is_ident_char(#[trigger] s@[j]),
                        !plain ==> !(forall|j: int|
                            0 <= j < s@.len() ==> is_ident_char(#[trigger] s@[j])),
                    decreases n - i,
                {
                    let c = schars[i];
                    if !((c >= 'a' && c <= 'z') || (c >= 'A' && c <= 'Z') || (c >= '0' && c
                        <= '9') || c == '_' || c == '-' || c == '.') {
                        plain = false;
                    }
                    i = i + 1;
                }
                if is_source && plain {
                    proof {
                        assert(is_ctx_address(s@));
                    }
                    match ctx_resolve(ctx, s.as_str()) {
                        Some(out) => Ok(out),
                        None => Err(EvalError::MissingBinding),
                    }
                } else {
                    proof {
                        assert(!is_ctx_address(s@));
                    }
                    match eval_outside_scalar(&schars, ctx) {
                        Some(v) => Ok(v),
                        None => Ok(Value::Text(s.clone())),
                    }
                }
            }
        },
        Value::Array(items) => {
            let ghost itemsv = view_items(items@);
            let ghost total = eval_items_spec(ctx@, itemsv);
            proof {
                lemma_view_items(items@);
                assert(itemsv.subrange(0, itemsv.len() as int) =~= itemsv);
                if total is Some {
                    lemma_eval_items_spec_len(ctx@, itemsv);
                    assert(total.unwrap().subrange(0, itemsv.len() as int) =~= total.unwrap());
                }
            }
            let n = items.len();
            let mut out: Vec<Value> = Vec::new();
            let mut i: usize = 0;
            while i < n
                invariant
                    0 <= i <= n,
                    out@.len() == i,
                    eval_items_spec(ctx@, itemsv.subrange(i as int, n as int)) is Some <==> total
                        is Some,
                    total matches Some(t) ==> {
                        &&& t.len() == n
                        &&& eval_items_spec(ctx@, itemsv.subrange(i as int, n as int))
                            == Some(t.subrange(i as int, n as int))
                        &&& forall|j: int| 0 <= j < i ==> out@[j]@ == t[j]
                    },
                decreases n - i,
            {
                let ghost restv = itemsv.subrange(i as int, n as int);
                proof {
                    assert(restv[0] == itemsv[i as int]);
                    assert(restv.drop_first() =~= itemsv.subrange(i as int + 1, n as int));
                    assert(decreases_to!(*v => *items));
                    assert(decreases_to!(*items => items[i as int]));
                    if total is Some {
                        let t = total.unwrap();
                        assert(t.subrange(i as int, n as int)[0] == t[i as int]);
                        assert(t.subrange(i as int, n as int).drop_first() =~= t.subrange(
                            i as int + 1,
                            n as int,
                        ));
                    }
                }
                let item = &items[i];
                match eval_value(ctx, item) {
                    Ok(ev) => {
                        out.push(ev);
                    },
                    Err(e) => {
                        return Err(e);
                    },
                }
                i = i + 1;
            }
            proof {
                assert(itemsv.subrange(i as int, n as int) =~= Seq::<SpecValue>::empty());
                lemma_view_items(out@);
                if total is Some {
                    let t = total.unwrap();
                    assert(view_items(out@) =~= t);
                }
            }
            Ok(Value::Array(out))
        },
        Value::Object(fields) => {
            let ghost fieldsv = view_fields(fields@);
            let ghost total = eval_fields_spec(ctx@, fieldsv);
            proof {
                lemma_view_fields(fields@);
                assert(fieldsv.subrange(0, fieldsv.len() as int) =~= fieldsv);
                if total is Some {
                    lemma_eval_fields_spec_len(ctx@, fieldsv);
                    assert(total.unwrap().subrange(0, fieldsv.len() as int) =~= total.unwrap());
                }
            }
            let n = fields.len();
            let mut out: Vec<(String, Value)> = Vec::new();
            let mut i: usize = 0;
            while i < n
                invariant
                    0 <= i <= n,
                    out@.len() == i,
                    eval_fields_spec(ctx@, fieldsv.subrange(i as int, n as int)) is Some <==> total
                        is Some,
                    total matches Some(t) ==> {
                        &&& t.len() == n
                        &&& eval_fields_spec(ctx@, fieldsv.subrange(i as int, n as int))
                            == Some(t.subrange(i as int, n as int))
                        &&& forall|j: int|
                            0 <= j < i ==> out@[j].0@ == t[j].0 && out@[j].1@ == t[j].1
                    },
                decreases n - i,
            {
                let ghost restv = fieldsv.subrange(i as int, n as int);
                proof {
                    assert(restv[0] == fieldsv[i as int]);
                    assert(restv.drop_first() =~= fieldsv.subrange(i as int + 1, n as int));
                    assert(decreases_to!(*v => *fields));
                    assert(decreases_to!(*fields => fields[i as int]));
                    assert(decreases_to!(fields[i as int] => fields[i as int].1));
                    if total is Some {
                        let t = total.unwrap();
                        assert(t.subrange(i as int, n as int)[0] == t[i as int]);
                        assert(t.subrange(i as int, n as int).drop_first() =~= t.subrange(
                            i as int + 1,
                            n as int,
                        ));
                    }
                }
                let entry = &fields[i];
                match eval_value(ctx, &entry.1) {
                    Ok(ev) => {
                        out.push((entry.0.clone(), ev));
                    },
                    Err(e) => {
                        return Err(e);
                    },
                }
                i = i + 1;
            }
            proof {
                assert(fieldsv.subrange(i as int, n as int)
                    =~= Seq::<(Seq<char>, SpecValue)>::empty());
                lemma_view_fields(out@);
                if total is Some {
                    let t = total.unwrap();
                    assert(view_fields(out@) =~= t);
                }
            }
            Ok(Value::Object(out))
        },
        Value::Null => Ok(Value::Null),
        Value::Bool(b) => Ok(Value::Bool(*b)),
        Value::Int(i) => Ok(Value::Int(*i)),
        Value::Float(t) => Ok(Value::Float(t.clone())),
    }
}

/// Evaluate a compiled expression against the context.
pub fn eval_expr(ctx: &Context, e: &Expr) -> (r: Result<Value, EvalError>)
    ensures
        match r {
            Ok(out) => eval_expr_spec(ctx@, e@) == Some(out@),
            Err(_) => eval_expr_spec(ctx@, e@) is None,
        },
{
    match e {
        Expr::Literal(v) => eval_value(ctx, v),
        Expr::Source(s) => {
            let tv = Value::Text(s.clone());
            eval_value(ctx, &tv)
        },
    }
}

fn is_numeric_exec(v: &Value) -> (r: bool)
    ensures
        r == is_numeric(v@),
{
    match v {
        Value::Int(_) => true,
        Value::Float(_) => true,
        _ => false,
    }
}

/// Ask the outside evaluator for an ordering of two values.
fn outside_order_exec(op: ComparisonOp, a: &Value, b: &Value) -> (r: Option<bool>)
    ensures
        r == outside_order(op, a@, b@),
{
    let mut fields: Vec<(String, Value)> = Vec::new();
    fields.push((String::from_str("lhs"), a.deep_clone()));
    fields.push((String::from_str("rhs"), b.deep_clone()));
    let v = Value::Object(fields);
    proof {
        crate::value::lemma_view_fields(fields@);
        assert(crate::value::view_fields(fields@) =~= seq![("lhs"@, a@), ("rhs"@, b@)]);
        assert(v@ == SpecValue::Object(seq![("lhs"@, a@), ("rhs"@, b@)]));
    }
    let json = crate::json::to_json(&v);
    let bjson = crate::yaml::chars_to_string(&json);
    let src: &str = match op {
        ComparisonOp::LessThan => "lhs < rhs",
        ComparisonOp::LessThanOrEqual => "lhs <= rhs",
        ComparisonOp::GreaterThan => "lhs > rhs",
        ComparisonOp::GreaterThanOrEqual => "lhs >= rhs",
        _ => "",
    };
    proof {
        if !(op is LessThan || op is LessThanOrEqual || op is GreaterThan
            || op is GreaterThanOrEqual) {
            reveal_strlit("");
            assert(src@ =~= Seq::<char>::empty());
        }
        assert(src@ == cmp_source(op));
    }
    match evaluate_outside(src, bjson.as_str()) {
        Some(out) => {
            let oc = crate::yaml::str_chars(out.as_str());
            match crate::json::parse_scalar(&oc) {
                Some(Value::Bool(x)) => Some(x),
                Some(_) => None,
                None => None,
            }
        },
        None => None,
    }
}

/// Apply a comparison operator to two evaluated values.
pub fn apply_op(op: ComparisonOp, a: &Value, b: &Value) -> (r: Result<bool, EvalError>)
    ensures
        match r {
            Ok(out) => apply_op_spec(op, a@, b@) == Some(out),
            Err(_) => apply_op_spec(op, a@, b@) is None,
        },
{
    match op {
        ComparisonOp::Equal => Ok(a.value_eq(b)),
        ComparisonOp::NotEqual => Ok(!a.value_eq(b)),
        ComparisonOp::LessThan => match (a, b) {
            (Value::Int(x), Value::Int(y)) => Ok(*x < *y),
            _ => {
                if is_numeric_exec(a) && is_numeric_exec(b) {
                    match outside_order_exec(op, a, b) {
                        Some(x) => Ok(x),
                        None => Err(EvalError::Evaluator),
                    }
                } else {
                    Err(EvalError::TypeMismatch)
                }
            },
        },
        ComparisonOp::LessThanOrEqual => match (a, b) {
            (Value::Int(x), Value::Int(y)) => Ok(*x <= *y),
            _ => {
                if is_numeric_exec(a) && is_numeric_exec(b) {
                    match outside_order_exec(op, a, b) {
                        Some(x) => Ok(x),
                        None => Err(EvalError::Evaluator),
                    }
                } else {
                    Err(EvalError::TypeMismatch)
                }
            },
        },
        ComparisonOp::GreaterThan => match (a, b) {
            (Value::Int(x), Value::Int(y)) => Ok(*x > *y),
            _ => {
                if is_numeric_exec(a) && is_numeric_exec(b) {
                    match outside_order_exec(op, a, b) {
                        Some(x) => Ok(x),
                        None => Err(EvalError::Evaluator),
                    }
                } else {
                    Err(EvalError::TypeMismatch)
                }
            },
        },
        ComparisonOp::GreaterThanOrEqual => match (a, b) {
            (Value::Int(x), Value::Int(y)) => Ok(*x >= *y),
            _ => {
                if is_numeric_exec(a) && is_numeric_exec(b) {
                    match outside_order_exec(op, a, b) {
                        Some(x) => Ok(x),
                        None => Err(EvalError::Evaluator),
                    }
                } else {
                    Err(EvalError::TypeMismatch)
                }
            },
        },
        ComparisonOp::And => match (a, b) {
            (Value::Bool(x), Value::Bool(y)) => Ok(*x && *y),
            _ => Err(EvalError::TypeMismatch),
        },
        ComparisonOp::Or => match (a, b) {
            (Value::Bool(x), Value::Bool(y)) => Ok(*x || *y),
            _ => Err(EvalError::TypeMismatch),
        },
    }
}

/// Evaluate a guard.
pub fn eval_condition(ctx: &Context, c: &Condition) -> (r: Result<bool, EvalError>)
    ensures
        match r {
            Ok(out) => cond_eval_spec(ctx@, c@) == Some(out),
            Err(_) => cond_eval_spec(ctx@, c@) is None,
        },
{
    let a = match eval_expr(ctx, &c.left) {
        Ok(v) => v,
        Err(e) => {
            return Err(e);
        },
    };
    let b = match eval_expr(ctx, &c.right) {
        Ok(v) => v,
        Err(e) => {
            return Err(e);
        },
    };
    apply_op(c.op, &a, &b)
}

} // verus!
