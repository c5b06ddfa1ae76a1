//! Normalization of a nested step document into a flat, index-addressed
//! pipeline table. Every `then`/`else` subtree is hoisted into a pipeline of
//! its own and the branch field is replaced by that pipeline's integer id;
//! children are emitted before parents, so the root pipeline has the
//! largest id.

use crate::value::{
    lemma_obj_index_of_bounds, lemma_obj_insert_other, lemma_obj_insert_same,
    lemma_obj_remove_other, lemma_view_items, obj_has_key, obj_index_of, obj_insert,
    obj_lookup, obj_remove, view_items, Value, SpecValue,
};
use vstd::prelude::*;

verus! {

broadcast use vstd::std_specs::vec::group_vec_axioms, vstd::seq::group_seq_axioms;

/// Field of an object value, `None` on any other kind.
pub open spec fn obj_get(v: SpecValue, key: Seq<char>) -> Option<SpecValue> {
    match v {
        SpecValue::Object(fs) => obj_lookup(fs, key),
        _ => None,
    }
}

/// One step of a pipeline, with its `then` and `else` subtrees hoisted into
/// pipelines appended to `map` and replaced by their ids. A step that is
/// not an object passes through unchanged.
pub open spec fn norm_step(step: SpecValue, map: Seq<SpecValue>) -> (SpecValue, Seq<SpecValue>)
    decreases step,
{
    match step {
        SpecValue::Object(fs) => {
            let p1 = if obj_has_key(fs, "then"@) {
                let child = fs[obj_index_of(fs, "then"@)].1;
                proof {
                    lemma_obj_index_of_bounds(fs, "then"@);
                    assert(decreases_to!(step => fs));
                    assert(decreases_to!(fs => fs[obj_index_of(fs, "then"@)]));
                    assert(decreases_to!(fs[obj_index_of(fs, "then"@)] => child));
                }
                let m = norm_map(child, map);
                (obj_insert(fs, "then"@, SpecValue::Int(m.len() - 1)), m)
            } else {
                (fs, map)
            };
            let p2 = if obj_has_key(fs, "else"@) {
                let child = fs[obj_index_of(fs, "else"@)].1;
                proof {
                    lemma_obj_index_of_bounds(fs, "else"@);
                    assert(decreases_to!(step => fs));
                    assert(decreases_to!(fs => fs[obj_index_of(fs, "else"@)]));
                    assert(decreases_to!(fs[obj_index_of(fs, "else"@)] => child));
                }
                let m = norm_map(child, p1.1);
                (obj_insert(p1.0, "else"@, SpecValue::Int(m.len() - 1)), m)
            } else {
                p1
            };
            (SpecValue::Object(p2.0), p2.1)
        },
        _ => (step, map),
    }
}

/// The steps of a pipeline, front to back. When `keep` is false, entries
/// that are not objects are dropped; when true they pass through.
pub open spec fn rewrite_steps(steps: Seq<SpecValue>, map: Seq<SpecValue>, keep: bool) -> (
    Seq<SpecValue>,
    Seq<SpecValue>,
)
    decreases steps,
{
    if steps.len() == 0 {
        (Seq::empty(), map)
    } else {
        let first = steps[0];
        proof {
            assert(decreases_to!(steps => steps[0]));
            assert(decreases_to!(steps => steps.subrange(1, steps.len() as int)));
        }
        if first is Object {
            let s1 = norm_step(first, map);
            let rest = rewrite_steps(steps.drop_first(), s1.1, keep);
            (seq![s1.0] + rest.0, rest.1)
        } else if keep {
            let rest = rewrite_steps(steps.drop_first(), map, keep);
            (seq![first] + rest.0, rest.1)
        } else {
            rewrite_steps(steps.drop_first(), map, keep)
        }
    }
}

/// The prelude step of a pipeline object: every field but `steps`, with
/// `then` and `else` subtrees hoisted and replaced by their pipeline ids.
pub open spec fn norm_prelude(fs: Seq<(Seq<char>, SpecValue)>, map: Seq<SpecValue>) -> (
    Seq<(Seq<char>, SpecValue)>,
    Seq<SpecValue>,
)
    decreases fs,
{
    let base = obj_remove(fs, "steps"@);
    let p1 = if obj_has_key(fs, "then"@) {
        let child = fs[obj_index_of(fs, "then"@)].1;
        proof {
            lemma_obj_index_of_bounds(fs, "then"@);
            assert(decreases_to!(fs => fs[obj_index_of(fs, "then"@)]));
            assert(decreases_to!(fs[obj_index_of(fs, "then"@)] => child));
        }
        let m = norm_map(child, map);
        (obj_insert(base, "then"@, SpecValue::Int(m.len() - 1)), m)
    } else {
        (base, map)
    };
    let p2 = if obj_has_key(fs, "else"@) {
        let child = fs[obj_index_of(fs, "else"@)].1;
        proof {
            lemma_obj_index_of_bounds(fs, "else"@);
            assert(decreases_to!(fs => fs[obj_index_of(fs, "else"@)]));
            assert(decreases_to!(fs[obj_index_of(fs, "else"@)] => child));
        }
        let m = norm_map(child, p1.1);
        (obj_insert(p1.0, "else"@, SpecValue::Int(m.len() - 1)), m)
    } else {
        p1
    };
    p2
}

/// The pipeline list after normalizing `v` against an already-emitted list.
/// An object with a `steps` array becomes `[prelude] ++ rewritten steps`
/// (the prelude dropped when empty); a bare array becomes its rewritten
/// object entries; anything else emits nothing.
pub open spec fn norm_map(v: SpecValue, map: Seq<SpecValue>) -> Seq<SpecValue>
    decreases v,
{
    match v {
        SpecValue::Object(fs) => {
            proof {
                assert(decreases_to!(v => fs));
            }
            let pre = norm_prelude(fs, map);
            let head: Seq<SpecValue> = if pre.0.len() == 0 {
                Seq::empty()
            } else {
                seq![SpecValue::Object(pre.0)]
            };
            let rew = if obj_has_key(fs, "steps"@) && fs[obj_index_of(fs, "steps"@)].1 is Array {
                let ss = fs[obj_index_of(fs, "steps"@)].1->Array_0;
                proof {
                    lemma_obj_index_of_bounds(fs, "steps"@);
                    assert(decreases_to!(fs => fs[obj_index_of(fs, "steps"@)]));
                    assert(decreases_to!(fs[obj_index_of(fs, "steps"@)]
                        => fs[obj_index_of(fs, "steps"@)].1));
                    assert(decreases_to!(fs[obj_index_of(fs, "steps"@)].1 => ss));
                }
                rewrite_steps(ss, pre.1, true)
            } else {
                (Seq::<SpecValue>::empty(), pre.1)
            };
            rew.1.push(SpecValue::Array(head + rew.0))
        },
        SpecValue::Array(items) => {
            proof {
                assert(decreases_to!(v => items));
            }
            let rew = rewrite_steps(items, map, false);
            rew.1.push(SpecValue::Array(rew.0))
        },
        _ => map,
    }
}

/// The value `normalize` hands back: the id of the pipeline emitted last.
pub open spec fn norm_ret(v: SpecValue, map: Seq<SpecValue>) -> SpecValue {
    SpecValue::Int(norm_map(v, map).len() - 1)
}

/// Normalizing a step only appends pipelines: the list it hands back
/// extends the list it was given.
pub proof fn lemma_norm_step_grows(step: SpecValue, map: Seq<SpecValue>)
    ensures
        norm_step(step, map).1.len() >= map.len(),
        forall|k: int| 0 <= k < map.len() ==> norm_step(step, map).1[k] == map[k],
    decreases step,
{
    match step {
        SpecValue::Object(fs) => {
            if obj_has_key(fs, "then"@) {
                let child = fs[obj_index_of(fs, "then"@)].1;
                lemma_obj_index_of_bounds(fs, "then"@);
                assert(decreases_to!(step => fs));
                assert(decreases_to!(fs => fs[obj_index_of(fs, "then"@)]));
                assert(decreases_to!(fs[obj_index_of(fs, "then"@)] => child));
                lemma_norm_map_grows(child, map);
            }
            let m1 = if obj_has_key(fs, "then"@) {
                norm_map(fs[obj_index_of(fs, "then"@)].1, map)
            } else {
                map
            };
            if obj_has_key(fs, "else"@) {
                let child = fs[obj_index_of(fs, "else"@)].1;
                lemma_obj_index_of_bounds(fs, "else"@);
                assert(decreases_to!(step => fs));
                assert(decreases_to!(fs => fs[obj_index_of(fs, "else"@)]));
                assert(decreases_to!(fs[obj_index_of(fs, "else"@)] => child));
                lemma_norm_map_grows(child, m1);
            }
        },
        _ => {},
    }
}

/// Rewriting a list of steps only appends pipelines.
pub proof fn lemma_rewrite_steps_grows(steps: Seq<SpecValue>, map: Seq<SpecValue>, keep: bool)
    ensures
        rewrite_steps(steps, map, keep).1.len() >= map.len(),
        forall|k: int| 0 <= k < map.len() ==> rewrite_steps(steps, map, keep).1[k] == map[k],
    decreases steps,
{
    if steps.len() > 0 {
        let first = steps[0];
        assert(decreases_to!(steps => steps[0]));
        assert(decreases_to!(steps => steps.subrange(1, steps.len() as int)));
        if first is Object {
            lemma_norm_step_grows(first, map);
            lemma_rewrite_steps_grows(steps.drop_first(), norm_step(first, map).1, keep);
        } else {
            lemma_rewrite_steps_grows(steps.drop_first(), map, keep);
        }
    }
}

/// Building the prelude only appends pipelines.
pub proof fn lemma_norm_prelude_grows(fs: Seq<(Seq<char>, SpecValue)>, map: Seq<SpecValue>)
    ensures
        norm_prelude(fs, map).1.len() >= map.len(),
        forall|k: int| 0 <= k < map.len() ==> norm_prelude(fs, map).1[k] == map[k],
    decreases fs,
{
    if obj_has_key(fs, "then"@) {
        let child = fs[obj_index_of(fs, "then"@)].1;
        lemma_obj_index_of_bounds(fs, "then"@);
        assert(decreases_to!(fs => fs[obj_index_of(fs, "then"@)]));
        assert(decreases_to!(fs[obj_index_of(fs, "then"@)] => child));
        lemma_norm_map_grows(child, map);
    }
    let m1 = if obj_has_key(fs, "then"@) {
        norm_map(fs[obj_index_of(fs, "then"@)].1, map)
    } else {
        map
    };
    if obj_has_key(fs, "else"@) {
        let child = fs[obj_index_of(fs, "else"@)].1;
        lemma_obj_index_of_bounds(fs, "else"@);
        assert(decreases_to!(fs => fs[obj_index_of(fs, "else"@)]));
        assert(decreases_to!(fs[obj_index_of(fs, "else"@)] => child));
        lemma_norm_map_grows(child, m1);
    }
}

/// Normalization only appends pipelines: what was already emitted stays,
/// at its index.
pub proof fn lemma_norm_map_grows(v: SpecValue, map: Seq<SpecValue>)
    ensures
        norm_map(v, map).len() >= map.len(),
        forall|k: int| 0 <= k < map.len() ==> norm_map(v, map)[k] == map[k],
    decreases v,
{
    match v {
        SpecValue::Object(fs) => {
            assert(decreases_to!(v => fs));
            lemma_norm_prelude_grows(fs, map);
            let pre = norm_prelude(fs, map);
            if obj_has_key(fs, "steps"@) && fs[obj_index_of(fs, "steps"@)].1 is Array {
                let ss = fs[obj_index_of(fs, "steps"@)].1->Array_0;
                lemma_obj_index_of_bounds(fs, "steps"@);
                assert(decreases_to!(fs => fs[obj_index_of(fs, "steps"@)]));
                assert(decreases_to!(fs[obj_index_of(fs, "steps"@)]
                    => fs[obj_index_of(fs, "steps"@)].1));
                assert(decreases_to!(fs[obj_index_of(fs, "steps"@)].1 => ss));
                lemma_rewrite_steps_grows(ss, pre.1, true);
            }
        },
        SpecValue::Array(items) => {
            assert(decreases_to!(v => items));
            lemma_rewrite_steps_grows(items, map, false);
        },
        _ => {},
    }
}


/// Rewrite one step: hoist its `then` and `else` subtrees into pipelines
/// appended to `map` and replace the fields by the pipeline ids.
fn rewrite_step_exec(step: &Value, map: &mut Vec<Value>) -> (r: Value)
    requires
        norm_step(step@, view_items(old(map)@)).1.len() <= i64::MAX as int,
    ensures
        r@ == norm_step(step@, view_items(old(map)@)).0,
        view_items(final(map)@) == norm_step(step@, view_items(old(map)@)).1,
    decreases *step, 0int,
{
    let ghost m0 = view_items(map@);
    match step {
        Value::Object(_) => {
            let ghost fs = step@->Object_0;
            let mut new_step = step.deep_clone();
            match step.get("then") {
                Some(child) => {
                    proof {
                        lemma_obj_index_of_bounds(fs, "then"@);
                        let m1 = norm_map(child@, m0);
                        if obj_has_key(fs, "else"@) {
                            lemma_obj_index_of_bounds(fs, "else"@);
                            lemma_norm_map_grows(fs[obj_index_of(fs, "else"@)].1, m1);
                        }
                    }
                    let id = process_raw_steps(child, map);
                    new_step = new_step.insert(String::from_str("then"), id);
                },
                None => {},
            }
            match step.get("else") {
                Some(child) => {
                    proof {
                        lemma_obj_index_of_bounds(fs, "else"@);
                    }
                    let id = process_raw_steps(child, map);
                    new_step = new_step.insert(String::from_str("else"), id);
                },
                None => {},
            }
            new_step
        },
        _ => step.deep_clone(),
    }
}

/// Build the prelude step of a pipeline object: every field but `steps`,
/// with `then` and `else` hoisted into pipelines of their own.
fn build_prelude_exec(input: &Value, map: &mut Vec<Value>) -> (r: Value)
    requires
        input@ is Object,
        norm_prelude(input@->Object_0, view_items(old(map)@)).1.len() <= i64::MAX as int,
    ensures
        r@ == SpecValue::Object(norm_prelude(input@->Object_0, view_items(old(map)@)).0),
        view_items(final(map)@) == norm_prelude(input@->Object_0, view_items(old(map)@)).1,
    decreases *input, 0int,
{
    let ghost m0 = view_items(map@);
    let ghost fs = input@->Object_0;
    let mut pre = input.deep_clone().remove("steps");
    match input.get("then") {
        Some(child) => {
            proof {
                lemma_obj_index_of_bounds(fs, "then"@);
                let m1 = norm_map(child@, m0);
                if obj_has_key(fs, "else"@) {
                    lemma_obj_index_of_bounds(fs, "else"@);
                    lemma_norm_map_grows(fs[obj_index_of(fs, "else"@)].1, m1);
                }
            }
            let id = process_raw_steps(child, map);
            pre = pre.insert(String::from_str("then"), id);
        },
        None => {},
    }
    match input.get("else") {
        Some(child) => {
            proof {
                lemma_obj_index_of_bounds(fs, "else"@);
            }
            let id = process_raw_steps(child, map);
            pre = pre.insert(String::from_str("else"), id);
        },
        None => {},
    }
    pre
}

/// Rewrite a list of raw steps front to back, appending the hoisted
/// pipelines to `map` and the rewritten steps to `out`. When `keep` is
/// false, entries that are not objects are dropped.
#[verifier::loop_isolation(false)]
fn rewrite_steps_exec(ss: &Vec<Value>, map: &mut Vec<Value>, keep: bool, out: &mut Vec<Value>)
    requires
        rewrite_steps(view_items(ss@), view_items(old(map)@), keep).1.len() <= i64::MAX as int,
    ensures
        view_items(final(out)@) == view_items(old(out)@) + rewrite_steps(
            view_items(ss@),
            view_items(old(map)@),
            keep,
        ).0,
        view_items(final(map)@) == rewrite_steps(view_items(ss@), view_items(old(map)@), keep).1,
    decreases *ss, 0int,
{
    let ghost ssv = view_items(ss@);
    let ghost m0 = view_items(old(map)@);
    let ghost rew = rewrite_steps(ssv, m0, keep);
    let ghost out0 = view_items(old(out)@);
    proof {
        lemma_view_items(ss@);
        assert(ssv.subrange(0, ssv.len() as int) =~= ssv);
        assert(rew.0.skip(0) =~= rew.0);
        assert(rew.0.subrange(0, 0) =~= Seq::<SpecValue>::empty());
        assert(out0 + rew.0.subrange(0, 0) =~= out0);
    }
    let n = ss.len();
    let mut i: usize = 0;
    while i < n
        invariant
            0 <= i <= n,
            view_items(out@).len() >= out0.len(),
            view_items(out@).len() - out0.len() <= rew.0.len(),
            view_items(out@) == out0 + rew.0.subrange(0, view_items(out@).len() - out0.len()),
            rewrite_steps(ssv.subrange(i as int, n as int), view_items(map@), keep).0
                == rew.0.skip(view_items(out@).len() - out0.len()),
            rewrite_steps(ssv.subrange(i as int, n as int), view_items(map@), keep).1 == rew.1,
        decreases n - i,
    {
        let ghost cur = view_items(map@);
        let ghost restv = ssv.subrange(i as int, n as int);
        let ghost done = view_items(out@).len() - out0.len();
        let ghost prev_out = out@;
        proof {
            lemma_view_items(prev_out);
            assert(restv[0] == ssv[i as int]);
            assert(restv.drop_first() =~= ssv.subrange(i as int + 1, n as int));
        }
        let step = &ss[i];
        if step.is_object() {
            proof {
                lemma_norm_step_grows(ssv[i as int], cur);
                lemma_rewrite_steps_grows(restv.drop_first(), norm_step(ssv[i as int], cur).1, keep);
                assert(decreases_to!(*ss => ss[i as int]));
                assert(rewrite_steps(restv, cur, keep).0 == seq![norm_step(restv[0], cur).0]
                    + rewrite_steps(restv.drop_first(), norm_step(restv[0], cur).1, keep).0);
            }
            let r = rewrite_step_exec(step, map);
            out.push(r);
            proof {
                lemma_view_items(out@);
                assert(rew.0.skip(done)[0] == rew.0[done]);
                assert(rew.0[done] == r@);
                assert(view_items(out@) =~= view_items(prev_out).push(r@));
                assert(rew.0.subrange(0, done).push(rew.0[done]) =~= rew.0.subrange(0, done + 1));
                assert(view_items(out@) =~= out0 + rew.0.subrange(0, done + 1));
                assert((seq![norm_step(restv[0], cur).0] + rewrite_steps(
                    restv.drop_first(),
                    norm_step(restv[0], cur).1,
                    keep,
                ).0).skip(1) =~= rewrite_steps(
                    restv.drop_first(),
                    norm_step(restv[0], cur).1,
                    keep,
                ).0);
                assert(rew.0.skip(done).skip(1) =~= rew.0.skip(done + 1));
                assert(rewrite_steps(restv.drop_first(), norm_step(restv[0], cur).1, keep).0
                    =~= rew.0.skip(done + 1));
            }
        } else if keep {
            proof {
                assert(!(restv[0] is Object));
                assert(rewrite_steps(restv, cur, keep).0 == seq![restv[0]] + rewrite_steps(
                    restv.drop_first(),
                    cur,
                    keep,
                ).0);
            }
            let r = step.deep_clone();
            out.push(r);
            proof {
                lemma_view_items(out@);
                assert(rew.0.skip(done)[0] == rew.0[done]);
                assert(rew.0[done] == r@);
                assert(view_items(out@) =~= view_items(prev_out).push(r@));
                assert(rew.0.subrange(0, done).push(rew.0[done]) =~= rew.0.subrange(0, done + 1));
                assert(view_items(out@) =~= out0 + rew.0.subrange(0, done + 1));
                assert((seq![restv[0]] + rewrite_steps(restv.drop_first(), cur, keep).0).skip(1)
                    =~= rewrite_steps(restv.drop_first(), cur, keep).0);
                assert(rew.0.skip(done).skip(1) =~= rew.0.skip(done + 1));
                assert(rewrite_steps(restv.drop_first(), cur, keep).0 =~= rew.0.skip(done + 1));
            }
        } else {
            proof {
                assert(!(restv[0] is Object));
                assert(rewrite_steps(restv, cur, keep).0 == rewrite_steps(
                    restv.drop_first(),
                    cur,
                    keep,
                ).0);
                assert(rewrite_steps(restv, cur, keep).1 == rewrite_steps(
                    restv.drop_first(),
                    cur,
                    keep,
                ).1);
            }
        }
        i = i + 1;
    }
    proof {
        assert(ssv.subrange(i as int, n as int) =~= Seq::empty());
        assert(rew.0.skip(view_items(out@).len() - out0.len()) =~= Seq::<SpecValue>::empty());
        assert(rew.0.subrange(0, view_items(out@).len() - out0.len()) =~= rew.0);
    }
}

/// Normalize a nested step document, appending every pipeline it describes
/// to `map`, children before parents, and return the id of the pipeline
/// emitted last (the root of `input`) as an integer value.
pub fn process_raw_steps(input: &Value, map: &mut Vec<Value>) -> (r: Value)
    requires
        norm_map(input@, view_items(old(map)@)).len() <= i64::MAX as int,
    ensures
        view_items(final(map)@) == norm_map(input@, view_items(old(map)@)),
        r@ == norm_ret(input@, view_items(old(map)@)),
    decreases *input, 1int,
{
    let ghost m0 = view_items(map@);
    let ghost total = norm_map(input@, m0);
    match input {
        Value::Object(_) => {
            let ghost fs = input@->Object_0;
            proof {
                lemma_norm_prelude_grows(fs, m0);
                if obj_has_key(fs, "steps"@) && fs[obj_index_of(fs, "steps"@)].1 is Array {
                    lemma_obj_index_of_bounds(fs, "steps"@);
                    lemma_rewrite_steps_grows(
                        fs[obj_index_of(fs, "steps"@)].1->Array_0,
                        norm_prelude(fs, m0).1,
                        true,
                    );
                }
            }
            let pre = build_prelude_exec(input, map);
            let ghost head = if norm_prelude(fs, m0).0.len() == 0 {
                Seq::<SpecValue>::empty()
            } else {
                seq![SpecValue::Object(norm_prelude(fs, m0).0)]
            };
            let mut new_steps: Vec<Value> = Vec::new();
            let pre_is_empty: bool = match &pre {
                Value::Object(pf) => pf.len() == 0,
                _ => true,
            };
            proof {
                assert(pre is Object);
                crate::value::lemma_view_fields(pre->Object_0@);
            }
            if !pre_is_empty {
                new_steps.push(pre);
            }
            proof {
                lemma_view_items(new_steps@);
                assert(view_items(new_steps@) =~= head);
            }
            match input.get("steps") {
                Some(steps_v) => {
                    match steps_v {
                        Value::Array(ss) => {
                            proof {
                                lemma_obj_index_of_bounds(fs, "steps"@);
                                lemma_view_items(ss@);
                                assert(decreases_to!(*steps_v => *ss));
                            }
                            rewrite_steps_exec(ss, map, true, &mut new_steps);
                        },
                        _ => {
                            proof {
                                assert(view_items(new_steps@) =~= head
                                    + Seq::<SpecValue>::empty());
                            }
                        },
                    }
                },
                None => {
                    proof {
                        assert(view_items(new_steps@) =~= head + Seq::<SpecValue>::empty());
                    }
                },
            }
            let ghost prev_map = view_items(map@);
            proof {
                lemma_view_items(map@);
            }
            map.push(Value::Array(new_steps));
            proof {
                lemma_view_items(map@);
                assert(view_items(map@) =~= prev_map.push(
                    SpecValue::Array(view_items(new_steps@)),
                ));
                assert(view_items(map@) =~= total);
            }
        },
        Value::Array(items) => {
            let ghost ssv = input@->Array_0;
            proof {
                lemma_view_items(items@);
                lemma_rewrite_steps_grows(ssv, m0, false);
                assert(decreases_to!(*input => *items));
            }
            let mut new_steps: Vec<Value> = Vec::new();
            proof {
                lemma_view_items(new_steps@);
                assert(view_items(new_steps@) =~= Seq::<SpecValue>::empty());
            }
            rewrite_steps_exec(items, map, false, &mut new_steps);
            proof {
                assert(view_items(new_steps@) =~= rewrite_steps(ssv, m0, false).0);
            }
            let ghost prev_map = view_items(map@);
            proof {
                lemma_view_items(map@);
            }
            map.push(Value::Array(new_steps));
            proof {
                lemma_view_items(map@);
                assert(view_items(map@) =~= prev_map.push(
                    SpecValue::Array(view_items(new_steps@)),
                ));
                assert(view_items(map@) =~= total);
            }
        },
        _ => {},
    }
    let n = map.len();
    proof {
        lemma_view_items(map@);
        assert(view_items(map@).len() == n);
        assert(n <= i64::MAX as int);
    }
    let id: i64 = (n as i64) - 1;
    Value::Int(id)
}


/// An integer branch target, if that is what the field holds, lies below
/// `bound`.
pub open spec fn branch_id_below(v: Option<SpecValue>, bound: int) -> bool {
    match v {
        Some(SpecValue::Int(i)) => 0 <= i < bound,
        _ => true,
    }
}

/// Both branch fields of a step, where they hold integers, lie below
/// `bound`.
pub open spec fn step_branches_below(step: SpecValue, bound: int) -> bool {
    branch_id_below(obj_get(step, "then"@), bound) && branch_id_below(obj_get(step, "else"@), bound)
}

/// A pipeline is a list of steps whose integer branch targets lie below
/// `bound`.
pub open spec fn pipeline_ok(p: SpecValue, bound: int) -> bool {
    p is Array && forall|i: int|
        0 <= i < p->Array_0.len() ==> step_branches_below(#[trigger] p->Array_0[i], bound)
}

/// Every pipeline in the table references only pipelines with strictly
/// smaller ids than its own.
pub open spec fn postorder_ok(map: Seq<SpecValue>) -> bool {
    forall|k: int| 0 <= k < map.len() ==> pipeline_ok(#[trigger] map[k], k)
}

/// The branch field under `key`, if present, holds a subtree: an object or
/// an array, itself well-formed.
pub open spec fn branch_wf(fs: Seq<(Seq<char>, SpecValue)>, key: Seq<char>) -> bool
    decreases fs,
{
    if obj_has_key(fs, key) {
        let child = fs[obj_index_of(fs, key)].1;
        proof {
            lemma_obj_index_of_bounds(fs, key);
            assert(decreases_to!(fs => fs[obj_index_of(fs, key)]));
            assert(decreases_to!(fs[obj_index_of(fs, key)] => child));
        }
        (child is Object || child is Array) && doc_wf(child)
    } else {
        true
    }
}

/// Every step in the list carries well-formed branch subtrees.
pub open spec fn steps_wf(items: Seq<SpecValue>) -> bool
    decreases items,
{
    if items.len() == 0 {
        true
    } else {
        let first = items[0];
        proof {
            assert(decreases_to!(items => items[0]));
            assert(decreases_to!(items => items.subrange(1, items.len() as int)));
        }
        (first is Object ==> {
            proof {
                assert(decreases_to!(first => first->Object_0));
            }
            branch_wf(first->Object_0, "then"@) && branch_wf(first->Object_0, "else"@)
        }) && steps_wf(items.drop_first())
    }
}

/// A well-formed document: every `then`/`else` field holds a subtree.
pub open spec fn doc_wf(v: SpecValue) -> bool
    decreases v,
{
    match v {
        SpecValue::Object(fs) => {
            proof {
                assert(decreases_to!(v => fs));
            }
            branch_wf(fs, "then"@) && branch_wf(fs, "else"@) && (if obj_has_key(fs, "steps"@)
                && fs[obj_index_of(fs, "steps"@)].1 is Array {
                let ss = fs[obj_index_of(fs, "steps"@)].1->Array_0;
                proof {
                    lemma_obj_index_of_bounds(fs, "steps"@);
                    assert(decreases_to!(fs => fs[obj_index_of(fs, "steps"@)]));
                    assert(decreases_to!(fs[obj_index_of(fs, "steps"@)]
                        => fs[obj_index_of(fs, "steps"@)].1));
                    assert(decreases_to!(fs[obj_index_of(fs, "steps"@)].1 => ss));
                }
                steps_wf(ss)
            } else {
                true
            })
        },
        SpecValue::Array(items) => {
            proof {
                assert(decreases_to!(v => items));
            }
            steps_wf(items)
        },
        _ => true,
    }
}

/// Normalizing a subtree emits at least one pipeline.
pub proof fn lemma_norm_container_grows(v: SpecValue, map: Seq<SpecValue>)
    requires
        v is Object || v is Array,
    ensures
        norm_map(v, map).len() >= map.len() + 1,
{
    match v {
        SpecValue::Object(fs) => {
            lemma_norm_prelude_grows(fs, map);
            if obj_has_key(fs, "steps"@) && fs[obj_index_of(fs, "steps"@)].1 is Array {
                lemma_obj_index_of_bounds(fs, "steps"@);
                lemma_rewrite_steps_grows(
                    fs[obj_index_of(fs, "steps"@)].1->Array_0,
                    norm_prelude(fs, map).1,
                    true,
                );
            }
        },
        SpecValue::Array(items) => {
            lemma_rewrite_steps_grows(items, map, false);
        },
        _ => {},
    }
}

proof fn lemma_branch_keys_distinct()
    ensures
        "then"@ != "else"@,
        "then"@ != "steps"@,
        "else"@ != "steps"@,
{
    reveal_strlit("then");
    reveal_strlit("else");
    reveal_strlit("steps");
    assert("then"@[0] == 't');
    assert("else"@[0] == 'e');
    assert("then"@.len() == 4);
    assert("else"@.len() == 4);
    assert("steps"@.len() == 5);
}

/// A rewritten step references only pipelines in the list that rewriting
/// it produced.
pub proof fn lemma_norm_step_post(step: SpecValue, map: Seq<SpecValue>)
    requires
        postorder_ok(map),
        step is Object ==> branch_wf(step->Object_0, "then"@) && branch_wf(
            step->Object_0,
            "else"@,
        ),
    ensures
        postorder_ok(norm_step(step, map).1),
        step_branches_below(norm_step(step, map).0, norm_step(step, map).1.len() as int),
    decreases step,
{
    lemma_branch_keys_distinct();
    match step {
        SpecValue::Object(fs) => {
            assert(decreases_to!(step => fs));
            lemma_obj_index_of_bounds(fs, "then"@);
            lemma_obj_index_of_bounds(fs, "else"@);
            let p1 = if obj_has_key(fs, "then"@) {
                let child = fs[obj_index_of(fs, "then"@)].1;
                assert(decreases_to!(fs => fs[obj_index_of(fs, "then"@)]));
                assert(decreases_to!(fs[obj_index_of(fs, "then"@)] => child));
                lemma_norm_map_post(child, map);
                lemma_norm_container_grows(child, map);
                let m = norm_map(child, map);
                lemma_obj_insert_same(fs, "then"@, SpecValue::Int(m.len() - 1));
                lemma_obj_insert_other(fs, "then"@, SpecValue::Int(m.len() - 1), "else"@);
                (obj_insert(fs, "then"@, SpecValue::Int(m.len() - 1)), m)
            } else {
        (fs, map)
            };
            if obj_has_key(fs, "else"@) {
                let child = fs[obj_index_of(fs, "else"@)].1;
                assert(decreases_to!(fs => fs[obj_index_of(fs, "else"@)]));
                assert(decreases_to!(fs[obj_index_of(fs, "else"@)] => child));
                lemma_norm_map_post(child, p1.1);
                lemma_norm_container_grows(child, p1.1);
                lemma_norm_map_grows(child, p1.1);
                let m = norm_map(child, p1.1);
                lemma_obj_insert_same(p1.0, "else"@, SpecValue::Int(m.len() - 1));
                lemma_obj_insert_other(p1.0, "else"@, SpecValue::Int(m.len() - 1), "then"@);
            }
        },
        _ => {},
    }
}

/// Every step that rewriting a list produces references only pipelines in
/// the final list, and the final list stays in post-order.
pub proof fn lemma_rewrite_steps_post(steps: Seq<SpecValue>, map: Seq<SpecValue>, keep: bool)
    requires
        steps_wf(steps),
        postorder_ok(map),
    ensures
        postorder_ok(rewrite_steps(steps, map, keep).1),
        forall|i: int|
            0 <= i < rewrite_steps(steps, map, keep).0.len() ==> step_branches_below(
                #[trigger] rewrite_steps(steps, map, keep).0[i],
                rewrite_steps(steps, map, keep).1.len() as int,
            ),
    decreases steps,
{
    if steps.len() > 0 {
        let first = steps[0];
        assert(decreases_to!(steps => steps[0]));
        assert(decreases_to!(steps => steps.subrange(1, steps.len() as int)));
        if first is Object {
            lemma_norm_step_post(first, map);
            let s1 = norm_step(first, map);
            lemma_rewrite_steps_post(steps.drop_first(), s1.1, keep);
            lemma_rewrite_steps_grows(steps.drop_first(), s1.1, keep);
            let rest = rewrite_steps(steps.drop_first(), s1.1, keep);
            assert forall|i: int|
                0 <= i < rewrite_steps(steps, map, keep).0.len() implies step_branches_below(
                #[trigger] rewrite_steps(steps, map, keep).0[i],
                rewrite_steps(steps, map, keep).1.len() as int,
            ) by {
                if i == 0 {
                    assert(rewrite_steps(steps, map, keep).0[0] == s1.0);
                } else {
                    assert(rewrite_steps(steps, map, keep).0[i] == rest.0[i - 1]);
                }
            }
        } else if keep {
            lemma_rewrite_steps_post(steps.drop_first(), map, keep);
            let rest = rewrite_steps(steps.drop_first(), map, keep);
            assert forall|i: int|
                0 <= i < rewrite_steps(steps, map, keep).0.len() implies step_branches_below(
                #[trigger] rewrite_steps(steps, map, keep).0[i],
                rewrite_steps(steps, map, keep).1.len() as int,
            ) by {
                if i == 0 {
                    assert(rewrite_steps(steps, map, keep).0[0] == first);
                    assert(obj_get(first, "then"@) is None);
                    assert(obj_get(first, "else"@) is None);
                } else {
                    assert(rewrite_steps(steps, map, keep).0[i] == rest.0[i - 1]);
                }
            }
        } else {
            lemma_rewrite_steps_post(steps.drop_first(), map, keep);
        }
    }
}

/// The prelude references only pipelines in the list that building it
/// produced.
pub proof fn lemma_norm_prelude_post(fs: Seq<(Seq<char>, SpecValue)>, map: Seq<SpecValue>)
    requires
        postorder_ok(map),
        branch_wf(fs, "then"@),
        branch_wf(fs, "else"@),
    ensures
        postorder_ok(norm_prelude(fs, map).1),
        step_branches_below(
            SpecValue::Object(norm_prelude(fs, map).0),
            norm_prelude(fs, map).1.len() as int,
        ),
    decreases fs,
{
    lemma_branch_keys_distinct();
    lemma_obj_index_of_bounds(fs, "then"@);
    lemma_obj_index_of_bounds(fs, "else"@);
    let base = obj_remove(fs, "steps"@);
    lemma_obj_remove_other(fs, "steps"@, "then"@);
    lemma_obj_remove_other(fs, "steps"@, "else"@);
    let p1 = if obj_has_key(fs, "then"@) {
        let child = fs[obj_index_of(fs, "then"@)].1;
        assert(decreases_to!(fs => fs[obj_index_of(fs, "then"@)]));
        assert(decreases_to!(fs[obj_index_of(fs, "then"@)] => child));
        lemma_norm_map_post(child, map);
        lemma_norm_container_grows(child, map);
        let m = norm_map(child, map);
        lemma_obj_insert_same(base, "then"@, SpecValue::Int(m.len() - 1));
        lemma_obj_insert_other(base, "then"@, SpecValue::Int(m.len() - 1), "else"@);
        (obj_insert(base, "then"@, SpecValue::Int(m.len() - 1)), m)
    } else {
        (base, map)
    };
    if obj_has_key(fs, "else"@) {
        let child = fs[obj_index_of(fs, "else"@)].1;
        assert(decreases_to!(fs => fs[obj_index_of(fs, "else"@)]));
        assert(decreases_to!(fs[obj_index_of(fs, "else"@)] => child));
        lemma_norm_map_post(child, p1.1);
        lemma_norm_container_grows(child, p1.1);
        lemma_norm_map_grows(child, p1.1);
        let m = norm_map(child, p1.1);
        lemma_obj_insert_same(p1.0, "else"@, SpecValue::Int(m.len() - 1));
        lemma_obj_insert_other(p1.0, "else"@, SpecValue::Int(m.len() - 1), "then"@);
    }
}

/// Post-order: normalization keeps the pipeline table in post-order, so
/// every pipeline a pipeline references has a strictly smaller id.
pub proof fn lemma_norm_map_post(v: SpecValue, map: Seq<SpecValue>)
    requires
        doc_wf(v),
        postorder_ok(map),
    ensures
        postorder_ok(norm_map(v, map)),
    decreases v,
{
    match v {
        SpecValue::Object(fs) => {
            assert(decreases_to!(v => fs));
            lemma_norm_prelude_post(fs, map);
            lemma_norm_prelude_grows(fs, map);
            let pre = norm_prelude(fs, map);
            let head: Seq<SpecValue> = if pre.0.len() == 0 {
                Seq::<SpecValue>::empty()
            } else {
                seq![SpecValue::Object(pre.0)]
            };
            let rew = if obj_has_key(fs, "steps"@) && fs[obj_index_of(fs, "steps"@)].1 is Array {
                let ss = fs[obj_index_of(fs, "steps"@)].1->Array_0;
                lemma_obj_index_of_bounds(fs, "steps"@);
                assert(decreases_to!(fs => fs[obj_index_of(fs, "steps"@)]));
                assert(decreases_to!(fs[obj_index_of(fs, "steps"@)]
                    => fs[obj_index_of(fs, "steps"@)].1));
                assert(decreases_to!(fs[obj_index_of(fs, "steps"@)].1 => ss));
                lemma_rewrite_steps_post(ss, pre.1, true);
                lemma_rewrite_steps_grows(ss, pre.1, true);
                rewrite_steps(ss, pre.1, true)
            } else {
                (Seq::<SpecValue>::empty(), pre.1)
            };
            let result = rew.1.push(SpecValue::Array(head + rew.0));
            assert forall|k: int| 0 <= k < result.len() implies pipeline_ok(
                #[trigger] result[k],
                k,
            ) by {
                if k < rew.1.len() {
                    assert(result[k] == rew.1[k]);
                } else {
                    assert(result[k] == SpecValue::Array(head + rew.0));
                    assert forall|i: int| 0 <= i < (head + rew.0).len() implies
                        step_branches_below(#[trigger] (head + rew.0)[i], k) by {
                        if i < head.len() {
                            assert((head + rew.0)[i] == SpecValue::Object(pre.0));
                        } else {
                            assert((head + rew.0)[i] == rew.0[i - head.len()]);
                        }
                    }
                }
            }
            assert(norm_map(v, map) == result);
        },
        SpecValue::Array(items) => {
            assert(decreases_to!(v => items));
            lemma_rewrite_steps_post(items, map, false);
            lemma_rewrite_steps_grows(items, map, false);
            let rew = rewrite_steps(items, map, false);
            let result = rew.1.push(SpecValue::Array(rew.0));
            assert forall|k: int| 0 <= k < result.len() implies pipeline_ok(
                #[trigger] result[k],
                k,
            ) by {
                if k < rew.1.len() {
                    assert(result[k] == rew.1[k]);
                } else {
                    assert(result[k] == SpecValue::Array(rew.0));
                }
            }
            assert(norm_map(v, map) == result);
        },
        _ => {},
    }
}

/// Transform soundness: normalizing a well-formed document yields a table
/// in post-order, and hands back the id of the last pipeline emitted; a
/// document that is a subtree emits at least one pipeline, so that id is a
/// valid index into the table.
pub proof fn lemma_transform_soundness(v: SpecValue, map: Seq<SpecValue>)
    requires
        doc_wf(v),
        postorder_ok(map),
    ensures
        postorder_ok(norm_map(v, map)),
        norm_ret(v, map) == SpecValue::Int(norm_map(v, map).len() - 1),
        (v is Object || v is Array) ==> map.len() < norm_map(v, map).len(),
{
    lemma_norm_map_post(v, map);
    if v is Object || v is Array {
        lemma_norm_container_grows(v, map);
    }
}

/// A step that carries both branches gets two pipeline ids in emission
/// order: the `then` subtree is hoisted first, so its id is strictly
/// smaller than the `else` subtree's.
pub proof fn lemma_branch_ids_ordered(step: SpecValue, map: Seq<SpecValue>)
    requires
        step is Object,
        obj_has_key(step->Object_0, "then"@),
        obj_has_key(step->Object_0, "else"@),
        branch_wf(step->Object_0, "then"@),
        branch_wf(step->Object_0, "else"@),
    ensures
        obj_lookup(norm_step(step, map).0->Object_0, "then"@) matches Some(SpecValue::Int(t))
            && obj_lookup(norm_step(step, map).0->Object_0, "else"@) matches Some(
            SpecValue::Int(e),
        ) && t < e,
{
    lemma_branch_keys_distinct();
    let fs = step->Object_0;
    lemma_obj_index_of_bounds(fs, "then"@);
    lemma_obj_index_of_bounds(fs, "else"@);
    let then_child = fs[obj_index_of(fs, "then"@)].1;
    let else_child = fs[obj_index_of(fs, "else"@)].1;
    let m1 = norm_map(then_child, map);
    lemma_norm_container_grows(then_child, map);
    let fs1 = obj_insert(fs, "then"@, SpecValue::Int(m1.len() - 1));
    lemma_obj_insert_same(fs, "then"@, SpecValue::Int(m1.len() - 1));
    lemma_obj_insert_other(fs, "then"@, SpecValue::Int(m1.len() - 1), "else"@);
    let m2 = norm_map(else_child, m1);
    lemma_norm_container_grows(else_child, m1);
    lemma_obj_insert_same(fs1, "else"@, SpecValue::Int(m2.len() - 1));
    lemma_obj_insert_other(fs1, "else"@, SpecValue::Int(m2.len() - 1), "then"@);
}

/// A leaf step: an object with no branch fields.
pub open spec fn leaf_step(s: SpecValue) -> bool {
    s is Object && !obj_has_key(s->Object_0, "then"@) && !obj_has_key(s->Object_0, "else"@)
}

proof fn lemma_rewrite_steps_leaves(items: Seq<SpecValue>, map: Seq<SpecValue>)
    requires
        forall|i: int| 0 <= i < items.len() ==> leaf_step(#[trigger] items[i]),
    ensures
        rewrite_steps(items, map, true) == (items, map),
    decreases items,
{
    if items.len() > 0 {
        assert(decreases_to!(items => items.subrange(1, items.len() as int)));
        let first = items[0];
        assert(norm_step(first, map) == (first, map));
        lemma_rewrite_steps_leaves(items.drop_first(), map);
        assert(rewrite_steps(items, map, true).0 =~= items);
    }
}

/// Round trip: a document whose `steps` is a flat list of leaf steps
/// normalizes to exactly one pipeline holding those steps unchanged, and
/// its id is 0.
pub proof fn lemma_transform_flat_roundtrip(items: Seq<SpecValue>)
    requires
        forall|i: int| 0 <= i < items.len() ==> leaf_step(#[trigger] items[i]),
    ensures
        norm_map(
            SpecValue::Object(seq![("steps"@, SpecValue::Array(items))]),
            Seq::<SpecValue>::empty(),
        ) == seq![SpecValue::Array(items)],
        norm_ret(
            SpecValue::Object(seq![("steps"@, SpecValue::Array(items))]),
            Seq::<SpecValue>::empty(),
        ) == SpecValue::Int(0),
{
    lemma_branch_keys_distinct();
    let fs = seq![("steps"@, SpecValue::Array(items))];
    assert(obj_index_of(fs, "steps"@) == 0);
    assert(obj_index_of(fs, "then"@) == -1) by {
        assert(fs.drop_first() =~= Seq::<(Seq<char>, SpecValue)>::empty());
    }
    assert(obj_index_of(fs, "else"@) == -1) by {
        assert(fs.drop_first() =~= Seq::<(Seq<char>, SpecValue)>::empty());
    }
    assert(obj_remove(fs, "steps"@) =~= Seq::<(Seq<char>, SpecValue)>::empty());
    assert(norm_prelude(fs, Seq::<SpecValue>::empty()).0.len() == 0);
    lemma_rewrite_steps_leaves(items, Seq::<SpecValue>::empty());
    assert(Seq::<SpecValue>::empty() + items =~= items);
    assert(norm_map(
        SpecValue::Object(fs),
        Seq::<SpecValue>::empty(),
    ) =~= seq![SpecValue::Array(items)]);
}

} // verus!
