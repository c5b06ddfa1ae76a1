//! The step state machine and the pipeline runner: evaluate the guard,
//! invoke the module, record the output, and route control to a branch,
//! the next step, or out of the pipeline.

use crate::context::{Context, SpecContext};
use crate::eval::{cond_eval_spec, eval_condition, eval_expr, eval_expr_spec};
use crate::host::{ModuleFault, Modules};
use crate::step::{
    step_compile_spec, view_names, SpecModuleCall, SpecStepWorker, StepWorker, StepWorkerError,
    TransformError,
};
use crate::value::{obj_insert, SpecValue, Value};
use vstd::prelude::*;

verus! {

broadcast use vstd::std_specs::vec::group_vec_axioms, vstd::seq::group_seq_axioms;

/// Where control goes after one step.
#[derive(Debug)]
pub enum StepOutcome {
    /// Fall through to the next step of the same pipeline.
    Continue,
    /// Continue in the pipeline with this id; the rest of the current one
    /// is abandoned.
    Jump(usize),
    /// End the run with this value.
    Return(Value),
}

pub enum SpecOutcome {
    Continue,
    Jump(int),
    Return(SpecValue),
}

impl View for StepOutcome {
    type V = SpecOutcome;

    open spec fn view(&self) -> SpecOutcome {
        match self {
            StepOutcome::Continue => SpecOutcome::Continue,
            StepOutcome::Jump(t) => SpecOutcome::Jump(*t as int),
            StepOutcome::Return(v) => SpecOutcome::Return(v@),
        }
    }
}

/// A failure that aborts the current request.
#[derive(Debug)]
pub enum EngineError {
    /// The evaluator failed in this step.
    Eval { step_id: Option<String> },
    /// The invoked module dropped its reply channel without answering.
    ModuleDropped { step_id: Option<String> },
    /// The invoked module's worker is gone: its channel is closed.
    Dispatch { module_id: usize },
}

/// The guard's reading: no condition, a boolean, or an evaluator failure.
pub open spec fn guard_eval(ctx: SpecContext, step: SpecStepWorker) -> Option<Option<bool>> {
    match step.condition {
        None => Some(None),
        Some(c) => match cond_eval_spec(ctx, c) {
            Some(b) => Some(Some(b)),
            None => None,
        },
    }
}

/// Whether the module's input expression evaluates.
pub open spec fn module_input_ok(ctx: SpecContext, m: SpecModuleCall) -> bool {
    match m.input {
        None => true,
        Some(e) => eval_expr_spec(ctx, e) is Some,
    }
}

/// The effective output of a completed step: its payload if one was
/// evaluated, else the module's reply, else the guard's boolean, else
/// null.
pub open spec fn effective_output(
    step: SpecStepWorker,
    gopt: Option<bool>,
    mi: Option<SpecValue>,
    pay: Option<SpecValue>,
) -> SpecValue {
    match pay {
        Some(v) => v,
        None => match (step.module, mi) {
            (Some(_), Some(v)) => v,
            _ => match gopt {
                Some(b) => SpecValue::Bool(b),
                None => SpecValue::Null,
            },
        },
    }
}

/// Record the output under the step's id, then return or branch; a step
/// without a condition ignores its branch targets. When control moves on
/// to another step, the effective output becomes that step's input.
pub open spec fn finish_step(
    ctx2: SpecContext,
    step: SpecStepWorker,
    gopt: Option<bool>,
    mi: Option<SpecValue>,
    pay: Option<SpecValue>,
) -> Option<(SpecContext, SpecOutcome)> {
    let eff = effective_output(step, gopt, mi, pay);
    let ctx3 = match step.id {
        Some(id) => SpecContext { steps: obj_insert(ctx2.steps, id, eff), ..ctx2 },
        None => ctx2,
    };
    match step.return_expr {
        Some(e) => match eval_expr_spec(ctx3, e) {
            Some(v) => Some((ctx3, SpecOutcome::Return(v))),
            None => None,
        },
        None => Some(
            (
                SpecContext { input: Some(eff), ..ctx3 },
                if gopt is Some {
                    match step.then_target {
                        Some(t) => SpecOutcome::Jump(t),
                        None => SpecOutcome::Continue,
                    }
                } else {
                    SpecOutcome::Continue
                },
            ),
        ),
    }
}

/// The whole state machine of one step, given the module's reply `mi`
/// where the step invokes one: guard, branch decision, module input and
/// reply, payload, record, return. `None` is an evaluator failure.
pub open spec fn step_effect(
    ctx: SpecContext,
    step: SpecStepWorker,
    mi: Option<SpecValue>,
) -> Option<(SpecContext, SpecOutcome)> {
    match guard_eval(ctx, step) {
        None => None,
        Some(gopt) => {
            if gopt == Some(false) {
                Some(
                    (
                        ctx,
                        match step.else_target {
                            Some(e) => SpecOutcome::Jump(e),
                            None => SpecOutcome::Continue,
                        },
                    ),
                )
            } else if step.module is Some && !(module_input_ok(ctx, step.module.unwrap()) && mi
                is Some) {
                None
            } else {
                let ctx1 = if step.module is Some {
                    SpecContext { input: Some(mi.unwrap()), ..ctx }
                } else {
                    ctx
                };
                match step.payload {
                    Some(e) => match eval_expr_spec(ctx1, e) {
                        Some(pv) => finish_step(
                            SpecContext { payload: Some(pv), ..ctx1 },
                            step,
                            gopt,
                            mi,
                            Some(pv),
                        ),
                        None => None,
                    },
                    None => finish_step(ctx1, step, gopt, mi, None),
                }
            }
        },
    }
}

/// An error tag carries exactly the step's id.
pub open spec fn tag_matches(tag: Option<String>, id: Option<Seq<char>>) -> bool {
    match (tag, id) {
        (Some(t), Some(i)) => t@ == i,
        (None, None) => true,
        _ => false,
    }
}

fn clone_step_id(step: &StepWorker) -> (r: Option<String>)
    ensures
        tag_matches(r, step@.id),
{
    match &step.id {
        Some(s) => Some(s.clone()),
        None => None,
    }
}

/// Execute one step against the context. The contract pins the state
/// machine: whatever reply the module gave, the new context and the
/// outcome are exactly what `step_effect` says for that reply; a step
/// without a module is deterministic, and succeeds exactly when
/// `step_effect` does.
pub fn execute_step(ctx: &mut Context, step: &StepWorker, modules: &Modules) -> (r: Result<
    StepOutcome,
    EngineError,
>)
    requires
        modules.wf(),
        step@.module matches Some(m) ==> m.module_id < modules.names@.len(),
    ensures
        match r {
            Ok(out) => exists|mi: Option<SpecValue>|
                {
                    &&& (step@.module is None ==> mi is None)
                    &&& #[trigger] step_effect(old(ctx)@, step@, mi) == Some((final(ctx)@, out@))
                },
            Err(e) => match e {
                EngineError::Eval { step_id } => tag_matches(step_id, step@.id) && exists|
                    mi: Option<SpecValue>,
                |
                    ((step@.module is Some) <==> mi is Some) && #[trigger] step_effect(
                        old(ctx)@,
                        step@,
                        mi,
                    ) is None,
                EngineError::ModuleDropped { step_id } => step@.module is Some && tag_matches(
                    step_id,
                    step@.id,
                ),
                EngineError::Dispatch { module_id } => step@.module matches Some(m) && module_id
                    == m.module_id,
            },
        },
        step@.module is None ==> ((r is Ok) <==> step_effect(old(ctx)@, step@, None) is Some),
        step@.module is None ==> (r matches Err(e) ==> e matches EngineError::Eval { .. }),
{
    let ghost ctx0 = ctx@;
    // 1. guard
    let guard: Option<bool> = match &step.condition {
        None => None,
        Some(c) => match eval_condition(ctx, c) {
            Ok(b) => Some(b),
            Err(_) => {
                proof {
                    let mi: Option<SpecValue> = if step@.module is Some {
                        Some(SpecValue::Null)
                    } else {
                        None
                    };
                    assert(step_effect(ctx0, step@, mi) is None);
                }
                return Err(EngineError::Eval { step_id: clone_step_id(step) });
            },
        },
    };
    let ghost gopt: Option<bool> = match step@.condition {
        None => None,
        Some(_) => Some(guard.unwrap()),
    };
    // 2. branch decision on a false guard
    match guard {
        Some(false) => {
            let out = match step.else_target {
                Some(e) => StepOutcome::Jump(e),
                None => StepOutcome::Continue,
            };
            proof {
                assert(step_effect(ctx0, step@, None) == Some((ctx@, out@)));
                if step@.module is Some {
                    assert(step_effect(ctx0, step@, Some(SpecValue::Null)) == Some(
                        (ctx@, out@),
                    ));
                }
            }
            return Ok(out);
        },
        _ => {},
    }
    // 3. module invocation
    let mut reply_clone: Option<Value> = None;
    match &step.module {
        Some(m) => {
            let sent: Context = match &m.input {
                Some(e) => match eval_expr(ctx, e) {
                    Ok(v) => ctx.add_module_input(v),
                    Err(_) => {
                        proof {
                            assert(step_effect(ctx0, step@, Some(SpecValue::Null)) is None);
                        }
                        return Err(EngineError::Eval { step_id: clone_step_id(step) });
                    },
                },
                None => ctx.snapshot(),
            };
            match modules.call(m.module_id, sent) {
                Ok(reply) => {
                    reply_clone = Some(reply.deep_clone());
                    ctx.input = Some(reply);
                },
                Err(ModuleFault::Dropped) => {
                    return Err(EngineError::ModuleDropped { step_id: clone_step_id(step) });
                },
                Err(ModuleFault::Disconnected) => {
                    return Err(EngineError::Dispatch { module_id: m.module_id });
                },
            }
        },
        None => {},
    }
    let ghost mi: Option<SpecValue> = match &reply_clone {
        Some(v) => Some(v@),
        None => None,
    };
    let ghost ctx1 = ctx@;
    // 4. payload
    let mut payload_clone: Option<Value> = None;
    match &step.payload {
        Some(e) => match eval_expr(ctx, e) {
            Ok(v) => {
                payload_clone = Some(v.deep_clone());
                ctx.payload = Some(v);
            },
            Err(_) => {
                proof {
                    let wi: Option<SpecValue> = match &reply_clone {
                        Some(v) => Some(v@),
                        None => None,
                    };
                    assert(step_effect(ctx0, step@, wi) is None);
                }
                return Err(EngineError::Eval { step_id: clone_step_id(step) });
            },
        },
        None => {},
    }
    let ghost pay: Option<SpecValue> = match &payload_clone {
        Some(v) => Some(v@),
        None => None,
    };
    let ghost ctx2 = ctx@;
    // 5. the effective output: recorded under the step's id, and handed
    // to the next step as its input when control moves on
    let eff: Value = match payload_clone {
        Some(v) => v,
        None => match reply_clone {
            Some(v) => v,
            None => match guard {
                Some(b) => Value::Bool(b),
                None => Value::Null,
            },
        },
    };
    proof {
        assert(eff@ == effective_output(step@, gopt, mi, pay));
    }
    match &step.id {
        Some(id) => {
            let recorded = eff.deep_clone();
            ctx.add_step_output(id.clone(), recorded);
        },
        None => {},
    }
    let ghost ctx3 = ctx@;
    // 6. return
    match &step.return_expr {
        Some(e) => match eval_expr(ctx, e) {
            Ok(v) => {
                let out = StepOutcome::Return(v);
                proof {
                    assert(finish_step(ctx2, step@, gopt, mi, pay) == Some((ctx3, out@)));
                    assert(step_effect(ctx0, step@, mi) == Some((ctx3, out@)));
                }
                return Ok(out);
            },
            Err(_) => {
                proof {
                    assert(step_effect(ctx0, step@, mi) is None);
                }
                return Err(EngineError::Eval { step_id: clone_step_id(step) });
            },
        },
        None => {},
    }
    ctx.input = Some(eff);
    let ghost ctx4 = ctx@;
    let out = if guard.is_some() {
        match step.then_target {
            Some(t) => StepOutcome::Jump(t),
            None => StepOutcome::Continue,
        }
    } else {
        StepOutcome::Continue
    };
    proof {
        assert(finish_step(ctx2, step@, gopt, mi, pay) == Some((ctx4, out@)));
        assert(step_effect(ctx0, step@, mi) == Some((ctx4, out@)));
    }
    Ok(out)
}

/// Branch exclusivity: when a step carries a condition and its guard
/// evaluates, exactly one side is followed. A true guard runs the step's
/// work and never takes the `else` target; a false guard changes nothing
/// and never takes the `then` target; a side without a target falls
/// through to the next step of the same pipeline.
pub proof fn lemma_branch_exclusivity(
    ctx: SpecContext,
    step: SpecStepWorker,
    mi: Option<SpecValue>,
)
    requires
        step.condition is Some,
        cond_eval_spec(ctx, step.condition.unwrap()) is Some,
        step_effect(ctx, step, mi) is Some,
    ensures
        !cond_eval_spec(ctx, step.condition.unwrap()).unwrap() ==> step_effect(ctx, step, mi)
            == Some(
            (
                ctx,
                match step.else_target {
                    Some(e) => SpecOutcome::Jump(e),
                    None => SpecOutcome::Continue,
                },
            ),
        ),
        (cond_eval_spec(ctx, step.condition.unwrap()).unwrap() && step.return_expr is None)
            ==> step_effect(ctx, step, mi).unwrap().1 == (match step.then_target {
            Some(t) => SpecOutcome::Jump(t),
            None => SpecOutcome::Continue,
        }),
{
}


/// A compiled pipeline: an ordered list of step workers.
#[derive(Debug)]
pub struct Pipeline {
    pub steps: Vec<StepWorker>,
}

impl View for Pipeline {
    type V = Seq<SpecStepWorker>;

    open spec fn view(&self) -> Seq<SpecStepWorker> {
        Seq::new(self.steps@.len(), |i: int| self.steps@[i]@)
    }
}

pub open spec fn pipelines_view(ps: Seq<Pipeline>) -> Seq<Seq<SpecStepWorker>> {
    Seq::new(ps.len(), |i: int| ps[i]@)
}

/// Branch targets point strictly below the pipeline that holds them.
pub open spec fn step_targets_below(s: SpecStepWorker, bound: int) -> bool {
    (s.then_target matches Some(t) ==> 0 <= t < bound) && (s.else_target matches Some(t) ==> 0 <= t
        < bound)
}

pub open spec fn targets_below(ps: Seq<Seq<SpecStepWorker>>) -> bool {
    forall|k: int, j: int|
        0 <= k < ps.len() && 0 <= j < ps[k].len() ==> step_targets_below(#[trigger] ps[k][j], k)
}

/// Every module id a step names lies in the dispatch table.
pub open spec fn modules_in_range(ps: Seq<Seq<SpecStepWorker>>, n: int) -> bool {
    forall|k: int, j: int|
        0 <= k < ps.len() && 0 <= j < ps[k].len() ==> ((#[trigger] ps[k][j]).module matches Some(m)
            ==> m.module_id < n)
}

/// No step invokes a module.
pub open spec fn pipelines_pure(ps: Seq<Seq<SpecStepWorker>>) -> bool {
    forall|k: int, j: int|
        0 <= k < ps.len() && 0 <= j < ps[k].len() ==> (#[trigger] ps[k][j]).module is None
}

pub enum SpecRunResult {
    Done(SpecValue),
    Fail,
}

/// The run of a module-free pipeline table from step `i` of pipeline
/// `pid`: steps execute in order; a jump abandons the rest of the
/// pipeline; a return ends the run; a pipeline that ends without a return
/// yields the payload, or null.
pub open spec fn run_spec(
    ps: Seq<Seq<SpecStepWorker>>,
    pid: int,
    i: int,
    ctx: SpecContext,
) -> SpecRunResult
    decreases pid, ps[pid].len() - i,
    when 0 <= pid < ps.len() && 0 <= i && targets_below(ps)
{
    if i >= ps[pid].len() {
        SpecRunResult::Done(
            match ctx.payload {
                Some(p) => p,
                None => SpecValue::Null,
            },
        )
    } else {
        match step_effect(ctx, ps[pid][i], None) {
            None => SpecRunResult::Fail,
            Some((c, SpecOutcome::Continue)) => run_spec(ps, pid, i + 1, c),
            Some((c, SpecOutcome::Jump(t))) => if 0 <= t < pid {
                run_spec(ps, t, 0, c)
            } else {
                SpecRunResult::Fail
            },
            Some((c, SpecOutcome::Return(v))) => SpecRunResult::Done(v),
        }
    }
}

/// A jump out of a step goes to one of its own branch targets.
pub proof fn lemma_step_effect_jump(
    ctx: SpecContext,
    step: SpecStepWorker,
    mi: Option<SpecValue>,
    c: SpecContext,
    t: int,
)
    requires
        step_effect(ctx, step, mi) == Some((c, SpecOutcome::Jump(t))),
    ensures
        step.then_target == Some(t) || step.else_target == Some(t),
{
}

/// Return termination: once a step's `return` expression evaluates, the
/// run's result is that value; no later step of the pipeline, nor any
/// pipeline the run jumped from, contributes anything.
pub proof fn lemma_return_termination(
    ps: Seq<Seq<SpecStepWorker>>,
    pid: int,
    i: int,
    ctx: SpecContext,
    c: SpecContext,
    v: SpecValue,
)
    requires
        0 <= pid < ps.len(),
        0 <= i < ps[pid].len(),
        targets_below(ps),
        step_effect(ctx, ps[pid][i], None) == Some((c, SpecOutcome::Return(v))),
    ensures
        run_spec(ps, pid, i, ctx) == SpecRunResult::Done(v),
{
}

/// Run a pipeline against the context. On a module-free table the result
/// is exactly what `run_spec` says; with modules, every step transition
/// is still pinned by `execute_step`'s contract, reply by reply.
#[verifier::loop_isolation(false)]
pub fn run(pipelines: &Vec<Pipeline>, pid: usize, ctx: &mut Context, modules: &Modules) -> (r:
    Result<Value, EngineError>)
    requires
        modules.wf(),
        pid < pipelines@.len(),
        targets_below(pipelines_view(pipelines@)),
        modules_in_range(pipelines_view(pipelines@), modules.names@.len() as int),
    ensures
        pipelines_pure(pipelines_view(pipelines@)) ==> match r {
            Ok(v) => run_spec(pipelines_view(pipelines@), pid as int, 0, old(ctx)@)
                == SpecRunResult::Done(v@),
            Err(e) => run_spec(pipelines_view(pipelines@), pid as int, 0, old(ctx)@)
                == SpecRunResult::Fail && e matches EngineError::Eval { .. },
        },
    decreases pid,
{
    let ghost ps = pipelines_view(pipelines@);
    let ghost ctx_start = ctx@;
    let pipeline = &pipelines[pid];
    let n = pipeline.steps.len();
    let mut i: usize = 0;
    while i < n
        invariant
            0 <= i <= n,
            pipelines_pure(ps) ==> run_spec(ps, pid as int, 0, ctx_start) == run_spec(
                ps,
                pid as int,
                i as int,
                ctx@,
            ),
        decreases n - i,
    {
        let ghost ctx_pre = ctx@;
        let step = &pipeline.steps[i];
        proof {
            assert(step@ == ps[pid as int][i as int]);
        }
        match execute_step(ctx, step, modules) {
            Ok(StepOutcome::Continue) => {
                i = i + 1;
            },
            Ok(StepOutcome::Jump(t)) => {
                proof {
                    let mi = choose|mi: Option<SpecValue>|
                        (step@.module is None ==> mi is None) && #[trigger] step_effect(
                            ctx_pre,
                            step@,
                            mi,
                        ) == Some((ctx@, SpecOutcome::Jump(t as int)));
                    lemma_step_effect_jump(ctx_pre, step@, mi, ctx@, t as int);
                    assert(t < pid);
                }
                return run(pipelines, t, ctx, modules);
            },
            Ok(StepOutcome::Return(v)) => {
                return Ok(v);
            },
            Err(e) => {
                return Err(e);
            },
        }
    }
    match &ctx.payload {
        Some(p) => Ok(p.deep_clone()),
        None => Ok(Value::Null),
    }
}


/// The compiled form of a raw pipeline's step list; `None` when any step
/// is malformed.
pub open spec fn compile_steps_spec(items: Seq<SpecValue>, names: Seq<Seq<char>>) -> Option<
    Seq<SpecStepWorker>,
>
    decreases items.len(),
{
    if items.len() == 0 {
        Some(Seq::empty())
    } else {
        match step_compile_spec(items[0], names) {
            Some(w) => match compile_steps_spec(items.drop_first(), names) {
                Some(rest) => Some(seq![w] + rest),
                None => None,
            },
            None => None,
        }
    }
}

/// The compiled form of a whole normalized table: every entry must be an
/// array of well-formed steps.
pub open spec fn compile_map_spec(mapv: Seq<SpecValue>, names: Seq<Seq<char>>) -> Option<
    Seq<Seq<SpecStepWorker>>,
>
    decreases mapv.len(),
{
    if mapv.len() == 0 {
        Some(Seq::empty())
    } else {
        match mapv[0] {
            SpecValue::Array(items) => match compile_steps_spec(items, names) {
                Some(p) => match compile_map_spec(mapv.drop_first(), names) {
                    Some(rest) => Some(seq![p] + rest),
                    None => None,
                },
                None => None,
            },
            _ => None,
        }
    }
}

pub proof fn lemma_compile_steps_spec_len(items: Seq<SpecValue>, names: Seq<Seq<char>>)
    requires
        compile_steps_spec(items, names) is Some,
    ensures
        compile_steps_spec(items, names).unwrap().len() == items.len(),
    decreases items.len(),
{
    if items.len() > 0 {
        lemma_compile_steps_spec_len(items.drop_first(), names);
    }
}

pub proof fn lemma_compile_map_spec_len(mapv: Seq<SpecValue>, names: Seq<Seq<char>>)
    requires
        compile_map_spec(mapv, names) is Some,
    ensures
        compile_map_spec(mapv, names).unwrap().len() == mapv.len(),
    decreases mapv.len(),
{
    if mapv.len() > 0 {
        lemma_compile_map_spec_len(mapv.drop_first(), names);
    }
}


proof fn lemma_compile_steps_index(items: Seq<SpecValue>, names: Seq<Seq<char>>)
    requires
        compile_steps_spec(items, names) is Some,
    ensures
        compile_steps_spec(items, names).unwrap().len() == items.len(),
        forall|j: int|
            0 <= j < items.len() ==> step_compile_spec(#[trigger] items[j], names)
                == Some(compile_steps_spec(items, names).unwrap()[j]),
    decreases items.len(),
{
    if items.len() > 0 {
        lemma_compile_steps_index(items.drop_first(), names);
        assert forall|j: int|
            0 <= j < items.len() implies step_compile_spec(#[trigger] items[j], names)
            == Some(compile_steps_spec(items, names).unwrap()[j]) by {
            if j > 0 {
                assert(items.drop_first()[j - 1] == items[j]);
            }
        }
    }
}

proof fn lemma_compile_map_index(mapv: Seq<SpecValue>, names: Seq<Seq<char>>)
    requires
        compile_map_spec(mapv, names) is Some,
    ensures
        compile_map_spec(mapv, names).unwrap().len() == mapv.len(),
        forall|k: int|
            0 <= k < mapv.len() ==> (#[trigger] mapv[k]) is Array && compile_steps_spec(
                mapv[k]->Array_0,
                names,
            ) == Some(compile_map_spec(mapv, names).unwrap()[k]),
    decreases mapv.len(),
{
    if mapv.len() > 0 {
        lemma_compile_map_index(mapv.drop_first(), names);
        assert forall|k: int|
            0 <= k < mapv.len() implies (#[trigger] mapv[k]) is Array && compile_steps_spec(
            mapv[k]->Array_0,
            names,
        ) == Some(compile_map_spec(mapv, names).unwrap()[k]) by {
            if k > 0 {
                assert(mapv.drop_first()[k - 1] == mapv[k]);
            }
        }
    }
}

/// A table compiled from a normalization in post-order is runnable: every
/// branch target lies strictly below its pipeline and every module id lies
/// in the dispatch table.
pub proof fn lemma_compiled_table_runnable(mapv: Seq<SpecValue>, names: Seq<Seq<char>>)
    requires
        crate::transform::postorder_ok(mapv),
        compile_map_spec(mapv, names) is Some,
    ensures
        compile_map_spec(mapv, names).unwrap().len() == mapv.len(),
        targets_below(compile_map_spec(mapv, names).unwrap()),
        modules_in_range(compile_map_spec(mapv, names).unwrap(), names.len() as int),
{
    let compiled = compile_map_spec(mapv, names).unwrap();
    lemma_compile_map_index(mapv, names);
    assert forall|k: int, j: int|
        0 <= k < compiled.len() && 0 <= j < compiled[k].len() implies step_targets_below(
        #[trigger] compiled[k][j],
        k,
    ) && ((compiled[k][j]).module matches Some(m) ==> m.module_id < names.len()) by {
        let items = mapv[k]->Array_0;
        lemma_compile_steps_index(items, names);
        let stepv = items[j];
        let w = compiled[k][j];
        assert(step_compile_spec(stepv, names) == Some(w));
        assert(crate::transform::pipeline_ok(mapv[k], k));
        assert(crate::transform::step_branches_below(stepv, k));
        match crate::transform::obj_get(stepv, "use"@) {
            Some(SpecValue::Text(name)) => {
                crate::step::lemma_name_index_of(names, name);
            },
            _ => {},
        }
    }
}

/// The least index of a step that does not compile, or -1.
pub open spec fn first_bad_step(items: Seq<SpecValue>, names: Seq<Seq<char>>) -> int
    decreases items.len(),
{
    if items.len() == 0 {
        -1
    } else if step_compile_spec(items[0], names) is None {
        0
    } else {
        let rest = first_bad_step(items.drop_first(), names);
        if rest == -1 {
            -1
        } else {
            rest + 1
        }
    }
}

proof fn lemma_first_bad_step_first(items: Seq<SpecValue>, names: Seq<Seq<char>>, i: int)
    requires
        0 <= i < items.len(),
        step_compile_spec(items[i], names) is None,
        forall|j: int| 0 <= j < i ==> step_compile_spec(#[trigger] items[j], names) is Some,
    ensures
        first_bad_step(items, names) == i,
    decreases items.len(),
{
    if i > 0 {
        lemma_first_bad_step_first(items.drop_first(), names, i - 1);
    }
}

/// The least index of a table entry that is not an array of compiling
/// steps, or -1.
pub open spec fn first_bad_pipeline(mapv: Seq<SpecValue>, names: Seq<Seq<char>>) -> int
    decreases mapv.len(),
{
    if mapv.len() == 0 {
        -1
    } else if !(mapv[0] is Array) || compile_steps_spec(mapv[0]->Array_0, names) is None {
        0
    } else {
        let rest = first_bad_pipeline(mapv.drop_first(), names);
        if rest == -1 {
            -1
        } else {
            rest + 1
        }
    }
}

proof fn lemma_first_bad_pipeline_first(mapv: Seq<SpecValue>, names: Seq<Seq<char>>, i: int)
    requires
        0 <= i < mapv.len(),
        !(mapv[i] is Array) || compile_steps_spec(mapv[i]->Array_0, names) is None,
        forall|j: int|
            0 <= j < i ==> (#[trigger] mapv[j]) is Array && compile_steps_spec(
                mapv[j]->Array_0,
                names,
            ) is Some,
    ensures
        first_bad_pipeline(mapv, names) == i,
    decreases mapv.len(),
{
    if i > 0 {
        lemma_first_bad_pipeline_first(mapv.drop_first(), names, i - 1);
    }
}

/// Compile one raw pipeline (an array of step objects) against the
/// declared module names.
#[verifier::loop_isolation(false)]
fn compile_pipeline(steps_value: &Value, names: &Vec<String>) -> (r: Result<
    Pipeline,
    TransformError,
>)
    requires
        steps_value@ is Array,
    ensures
        match r {
            Ok(p) => compile_steps_spec(steps_value@->Array_0, view_names(names@)) == Some(p@),
            Err(_) => compile_steps_spec(steps_value@->Array_0, view_names(names@)) is None,
        },
        r matches Err(te) ==> (te matches TransformError::InnerStepError(e) && {
            let j = first_bad_step(steps_value@->Array_0, view_names(names@));
            &&& 0 <= j < steps_value@->Array_0.len()
            &&& crate::step::step_err_matches(steps_value@->Array_0[j], view_names(names@), e)
        }),
{
    let ghost itemsv = steps_value@->Array_0;
    let ghost total = compile_steps_spec(itemsv, view_names(names@));
    match steps_value {
        Value::Array(items) => {
            proof {
                crate::value::lemma_view_items(items@);
                assert(itemsv.subrange(0, itemsv.len() as int) =~= itemsv);
                if total is Some {
                    lemma_compile_steps_spec_len(itemsv, view_names(names@));
                }
            }
            let n = items.len();
            let mut out: Vec<StepWorker> = Vec::new();
            let mut i: usize = 0;
            while i < n
                invariant
                    0 <= i <= n,
                    out@.len() == i,
                    forall|j: int|
                        0 <= j < i ==> step_compile_spec(#[trigger] itemsv[j], view_names(names@))
                            is Some,
                    compile_steps_spec(itemsv.subrange(i as int, n as int), view_names(names@))
                        is Some <==> total is Some,
                    total matches Some(t) ==> {
                        &&& t.len() == n
                        &&& compile_steps_spec(
                            itemsv.subrange(i as int, n as int),
                            view_names(names@),
                        ) == Some(t.subrange(i as int, n as int))
                        &&& forall|j: int| 0 <= j < i ==> out@[j]@ == t[j]
                    },
                decreases n - i,
            {
                let ghost restv = itemsv.subrange(i as int, n as int);
                proof {
                    assert(restv[0] == itemsv[i as int]);
                    assert(restv.drop_first() =~= itemsv.subrange(i as int + 1, n as int));
                    if total is Some {
                        let t = total.unwrap();
                        assert(t.subrange(i as int, n as int)[0] == t[i as int]);
                        assert(t.subrange(i as int, n as int).drop_first() =~= t.subrange(
                            i as int + 1,
                            n as int,
                        ));
                    }
                }
                let entry = &items[i];
                match StepWorker::try_from_value(entry, names) {
                    Ok(w) => {
                        out.push(w);
                    },
                    Err(e) => {
                        proof {
                            lemma_first_bad_step_first(itemsv, view_names(names@), i as int);
                        }
                        return Err(TransformError::InnerStepError(e));
                    },
                }
                i = i + 1;
            }
            proof {
                assert(itemsv.subrange(i as int, n as int) =~= Seq::<SpecValue>::empty());
                if total is Some {
                    let t = total.unwrap();
                    let p = Pipeline { steps: out };
                    assert(Seq::new(out@.len(), |j: int| out@[j]@) =~= t);
                }
            }
            Ok(Pipeline { steps: out })
        },
        _ => {
            proof {
                assert(false);
            }
            Err(TransformError::InnerStepError(StepWorkerError::MalformedStep))
        },
    }
}

/// Normalize a document and compile every pipeline of the resulting
/// table against the declared module names. The root pipeline is the
/// last entry.
#[verifier::loop_isolation(false)]
pub fn value_to_pipelines(input: &Value, names: &Vec<String>) -> (r: Result<
    Vec<Pipeline>,
    TransformError,
>)
    requires
        crate::transform::norm_map(input@, Seq::empty()).len() <= i64::MAX as int,
    ensures
        match r {
            Ok(ps) => compile_map_spec(
                crate::transform::norm_map(input@, Seq::empty()),
                view_names(names@),
            ) == Some(pipelines_view(ps@)),
            Err(_) => compile_map_spec(
                crate::transform::norm_map(input@, Seq::empty()),
                view_names(names@),
            ) is None,
        },
        r matches Ok(ps) ==> (crate::transform::doc_wf(input@) ==> targets_below(
            pipelines_view(ps@),
        ) && modules_in_range(pipelines_view(ps@), names@.len() as int)),
        r matches Ok(ps) ==> ((input@ is Object || input@ is Array) ==> ps@.len() > 0),
        r matches Err(te) ==> ({
            let mapv = crate::transform::norm_map(input@, Seq::empty());
            let p = first_bad_pipeline(mapv, view_names(names@));
            &&& 0 <= p < mapv.len()
            &&& (mapv[p] is Array ==> (te matches TransformError::InnerStepError(e) && {
                let j = first_bad_step(mapv[p]->Array_0, view_names(names@));
                &&& 0 <= j < mapv[p]->Array_0.len()
                &&& crate::step::step_err_matches(mapv[p]->Array_0[j], view_names(names@), e)
            }))
            &&& (!(mapv[p] is Array) ==> te matches TransformError::Parser(_))
        }),
{
    let mut map: Vec<Value> = Vec::new();
    proof {
        crate::value::lemma_view_items(map@);
        assert(crate::value::view_items(map@) =~= Seq::<SpecValue>::empty());
    }
    let _root = crate::transform::process_raw_steps(input, &mut map);
    let ghost mapv = crate::transform::norm_map(input@, Seq::empty());
    let ghost total = compile_map_spec(mapv, view_names(names@));
    proof {
        crate::value::lemma_view_items(map@);
        assert(mapv.subrange(0, mapv.len() as int) =~= mapv);
        if total is Some {
            lemma_compile_map_spec_len(mapv, view_names(names@));
        }
    }
    let n = map.len();
    let mut out: Vec<Pipeline> = Vec::new();
    let mut i: usize = 0;
    while i < n
        invariant
            0 <= i <= n,
            out@.len() == i,
            forall|k: int|
                0 <= k < i ==> (#[trigger] mapv[k]) is Array && compile_steps_spec(
                    mapv[k]->Array_0,
                    view_names(names@),
                ) is Some,
            compile_map_spec(mapv.subrange(i as int, n as int), view_names(names@)) is Some
                <==> total is Some,
            total matches Some(t) ==> {
                &&& t.len() == n
                &&& compile_map_spec(mapv.subrange(i as int, n as int), view_names(names@))
                    == Some(t.subrange(i as int, n as int))
                &&& forall|j: int| 0 <= j < i ==> out@[j]@ == t[j]
            },
        decreases n - i,
    {
        let ghost restv = mapv.subrange(i as int, n as int);
        proof {
            assert(restv[0] == mapv[i as int]);
            assert(restv.drop_first() =~= mapv.subrange(i as int + 1, n as int));
            if total is Some {
                let t = total.unwrap();
                assert(t.subrange(i as int, n as int)[0] == t[i as int]);
                assert(t.subrange(i as int, n as int).drop_first() =~= t.subrange(
                    i as int + 1,
                    n as int,
                ));
            }
        }
        let entry = &map[i];
        if !entry.is_array() {
            proof {
                lemma_first_bad_pipeline_first(mapv, view_names(names@), i as int);
            }
            return Err(TransformError::Parser(String::from_str("pipeline is not an array")));
        }
        match compile_pipeline(entry, names) {
            Ok(p) => {
                out.push(p);
            },
            Err(e) => {
                proof {
                    lemma_first_bad_pipeline_first(mapv, view_names(names@), i as int);
                }
                return Err(e);
            },
        }
        i = i + 1;
    }
    proof {
        assert(mapv.subrange(i as int, n as int) =~= Seq::<SpecValue>::empty());
        if total is Some {
            let t = total.unwrap();
            assert(pipelines_view(out@) =~= t);
        }
        if crate::transform::doc_wf(input@) {
            crate::transform::lemma_norm_map_post(input@, Seq::empty());
            lemma_compiled_table_runnable(mapv, view_names(names@));
        }
        if input@ is Object || input@ is Array {
            crate::transform::lemma_norm_container_grows(input@, Seq::empty());
            lemma_compile_map_spec_len(mapv, view_names(names@));
        }
    }
    Ok(out)
}


/// The tag under which a request failure travels back to the caller.
pub open spec fn error_tag(e: EngineError) -> Seq<char> {
    match e {
        EngineError::Eval { .. } => "eval"@,
        EngineError::ModuleDropped { .. } => "module_dropped"@,
        EngineError::Dispatch { .. } => "dispatch"@,
    }
}

/// A request failure as a tagged error object, for main modules that
/// serialize responses.
pub fn error_value(e: &EngineError) -> (r: Value)
    ensures
        r@ == SpecValue::Object(seq![("error"@, SpecValue::Text(error_tag(*e)))]),
{
    let tag: &str = match e {
        EngineError::Eval { .. } => "eval",
        EngineError::ModuleDropped { .. } => "module_dropped",
        EngineError::Dispatch { .. } => "dispatch",
    };
    let mut fields: Vec<(String, Value)> = Vec::new();
    fields.push((String::from_str("error"), Value::Text(String::from_str(tag))));
    proof {
        crate::value::lemma_view_fields(fields@);
        assert(crate::value::view_fields(fields@) =~= seq![
            ("error"@, SpecValue::Text(error_tag(*e))),
        ]);
    }
    Value::Object(fields)
}

/// Serve one root package from the main module: a fresh context whose
/// params are the request data, a run of the root pipeline, and exactly
/// one reply — the result, or a tagged error object. The request never
/// takes the process down. On a module-free table the delivered value is
/// pinned: the run's result, or the `eval` error object.
pub fn handle_root_package(
    package: &mut crate::host::Package,
    pipelines: &Vec<Pipeline>,
    modules: &Modules,
)
    requires
        modules.wf(),
        pipelines@.len() > 0,
        targets_below(pipelines_view(pipelines@)),
        modules_in_range(pipelines_view(pipelines@), modules.names@.len() as int),
    ensures
        final(package).send is None,
        final(package).request_data == old(package).request_data,
        (old(package).send is Some && pipelines_pure(pipelines_view(pipelines@))) ==> {
            let started = (SpecContext {
                params: crate::context::opt_view(old(package).request_data),
                main: None,
                payload: None,
                input: None,
                steps: Seq::empty(),
            });
            match run_spec(
                pipelines_view(pipelines@),
                pipelines@.len() - 1,
                0,
                started,
            ) {
                SpecRunResult::Done(v) => final(package).delivered@ == Some(v),
                SpecRunResult::Fail => final(package).delivered@ == Some(
                    SpecValue::Object(seq![("error"@, SpecValue::Text("eval"@))]),
                ),
            }
        },
{
    let params: Option<Value> = match package.get_data() {
        Some(v) => Some(v.deep_clone()),
        None => None,
    };
    let mut ctx = Context::new(params);
    let root = pipelines.len() - 1;
    let result = match run(pipelines, root, &mut ctx, modules) {
        Ok(v) => v,
        Err(e) => error_value(&e),
    };
    package.send(result);
}

} // verus!
