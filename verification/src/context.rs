//! Per-execution state: params, main input, payload, current step input,
//! and the outputs of completed steps keyed by step id.

use crate::value::{
    lemma_view_fields, obj_find, obj_insert, obj_lookup, view_fields, view_value, SpecValue, Value,
};
use vstd::prelude::*;

verus! {

/// Model of an execution context.
pub struct SpecContext {
    pub params: Option<SpecValue>,
    pub main: Option<SpecValue>,
    pub payload: Option<SpecValue>,
    pub input: Option<SpecValue>,
    pub steps: Seq<(Seq<char>, SpecValue)>,
}

pub open spec fn opt_view(o: Option<Value>) -> Option<SpecValue> {
    match o {
        Some(v) => Some(view_value(v)),
        None => None,
    }
}

/// Per-request state. It is mutated only between steps; each step sees a
/// snapshot.
#[derive(Debug)]
pub struct Context {
    pub params: Option<Value>,
    pub main: Option<Value>,
    pub payload: Option<Value>,
    pub input: Option<Value>,
    /// Outputs of completed steps, keyed by step id; a key is present only
    /// after its step has completed.
    pub steps: Vec<(String, Value)>,
}

impl View for Context {
    type V = SpecContext;

    open spec fn view(&self) -> SpecContext {
        SpecContext {
            params: opt_view(self.params),
            main: opt_view(self.main),
            payload: opt_view(self.payload),
            input: opt_view(self.input),
            steps: view_fields(self.steps@),
        }
    }
}

fn clone_opt(o: &Option<Value>) -> (r: Option<Value>)
    ensures
        opt_view(r) == opt_view(*o),
{
    match o {
        Some(v) => Some(v.deep_clone()),
        None => None,
    }
}

fn clone_steps(s: &Vec<(String, Value)>) -> (r: Vec<(String, Value)>)
    ensures
        view_fields(r@) == view_fields(s@),
{
    let n = s.len();
    let mut out: Vec<(String, Value)> = Vec::new();
    let mut i: usize = 0;
    while i < n
        invariant
            n == s@.len(),
            0 <= i <= n,
            out@.len() == i,
            forall|j: int| 0 <= j < i ==> out@[j].0@ == s@[j].0@ && out@[j].1@ == s@[j].1@,
        decreases n - i,
    {
        let entry = &s[i];
        out.push((entry.0.clone(), entry.1.deep_clone()));
        i = i + 1;
    }
    proof {
        lemma_view_fields(out@);
        lemma_view_fields(s@);
        assert(view_fields(out@) =~= view_fields(s@));
    }
    out
}

impl Context {
    /// A fresh context carrying only request params.
    pub fn new(params: Option<Value>) -> (r: Context)
        ensures
            r@ == (SpecContext {
                params: opt_view(params),
                main: None,
                payload: None,
                input: None,
                steps: Seq::empty(),
            }),
    {
        let r = Context { params, main: None, payload: None, input: None, steps: Vec::new() };
        proof {
            lemma_view_fields(r.steps@);
            assert(view_fields(r.steps@) =~= Seq::<(Seq<char>, SpecValue)>::empty());
        }
        r
    }

    /// A fresh context carrying only the main input.
    pub fn from_main(main: Value) -> (r: Context)
        ensures
            r@ == (SpecContext {
                params: None,
                main: Some(main@),
                payload: None,
                input: None,
                steps: Seq::empty(),
            }),
    {
        let r = Context {
            params: None,
            main: Some(main),
            payload: None,
            input: None,
            steps: Vec::new(),
        };
        proof {
            lemma_view_fields(r.steps@);
            assert(view_fields(r.steps@) =~= Seq::<(Seq<char>, SpecValue)>::empty());
        }
        r
    }

    /// A copy of the context whose current step input is `output`.
    pub fn add_module_input(&self, output: Value) -> (r: Context)
        ensures
            r@ == (SpecContext { input: Some(output@), ..self@ }),
    {
        Context {
            params: clone_opt(&self.params),
            main: clone_opt(&self.main),
            payload: clone_opt(&self.payload),
            input: Some(output),
            steps: clone_steps(&self.steps),
        }
    }

    /// A copy of the context whose payload is `output`.
    pub fn add_module_output(&self, output: Value) -> (r: Context)
        ensures
            r@ == (SpecContext { payload: Some(output@), ..self@ }),
    {
        Context {
            params: clone_opt(&self.params),
            main: clone_opt(&self.main),
            payload: Some(output),
            input: clone_opt(&self.input),
            steps: clone_steps(&self.steps),
        }
    }

    /// Record the output of a completed step under its id; an id that was
    /// already present keeps its position and takes the new value.
    pub fn add_step_output(&mut self, id: String, output: Value)
        ensures
            final(self)@ == (SpecContext {
                steps: obj_insert(old(self)@.steps, id@, output@),
                ..old(self)@
            }),
    {
        let ghost sfields = view_fields(self.steps@);
        proof {
            lemma_view_fields(self.steps@);
        }
        match obj_find(&self.steps, id.as_str()) {
            Some(i) => {
                self.steps.set(i, (id, output));
                proof {
                    lemma_view_fields(self.steps@);
                    assert(view_fields(self.steps@) =~= obj_insert(sfields, id@, output@));
                }
            },
            None => {
                self.steps.push((id, output));
                proof {
                    lemma_view_fields(self.steps@);
                    assert(view_fields(self.steps@) =~= obj_insert(sfields, id@, output@));
                }
            },
        }
    }

    /// A copy of the whole context, model for model.
    pub fn snapshot(&self) -> (r: Context)
        ensures
            r@ == self@,
    {
        Context {
            params: clone_opt(&self.params),
            main: clone_opt(&self.main),
            payload: clone_opt(&self.payload),
            input: clone_opt(&self.input),
            steps: clone_steps(&self.steps),
        }
    }

    /// The recorded output of the step with the given id, if any.
    pub fn get_step_output<'a>(&'a self, id: &str) -> (r: Option<&'a Value>)
        ensures
            match r {
                Some(v) => obj_lookup(self@.steps, id@) == Some(v@),
                None => obj_lookup(self@.steps, id@) is None,
            },
    {
        proof {
            lemma_view_fields(self.steps@);
        }
        match obj_find(&self.steps, id) {
            Some(i) => {
                let entry = &self.steps[i];
                Some(&entry.1)
            },
            None => None,
        }
    }
}

} // verus!
