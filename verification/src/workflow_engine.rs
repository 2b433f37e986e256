//! The workflow engine: pre-loads component artifacts into a path-keyed
//! cache and executes the steps in order as an explicit state machine.
//!
//! The sandbox calls themselves (instantiation and invocation) are
//! asynchronous suspension points driven by the host program; every decision
//! around them — which artifact to load, which call to make next, how a
//! result or failure advances the run — is made here.

use vstd::prelude::*;

use crate::cache::ComponentCache;
use crate::value::{native_matches, render_native, valid_literal, from_native, NativeValue, Value};
use crate::workflow::{Workflow, WorkflowStep};

verus! {

/// The sandbox engine handle, opaque to verification.
#[verifier::external_type_specification]
#[verifier::external_body]
pub struct ExEngine(wasmtime::Engine);

/// A compiled, verified component artifact, opaque to verification.
#[verifier::external_type_specification]
#[verifier::external_body]
pub struct ExComponent(wasmtime::component::Component);

/// Failures of loading and execution, one kind per failure mode.
#[derive(Debug)]
pub enum WorkflowEngineError {
    /// A step names an artifact that was never loaded.
    ComponentNotFound(String),
    /// The instance has no export of the step's function name.
    FunctionNotFound(String),
    /// A step's literal does not match its declared type, attributed to the
    /// step and argument position.
    ValueParse { step: usize, arg: usize },
    /// The artifact file could not be read.
    ArtifactIo { path: String, detail: String },
    /// The artifact bytes are not a valid component, found at compile or at
    /// instantiation.
    ArtifactVerification { path: String, detail: String },
    /// The sandboxed code faulted during the call.
    CallTrap(String),
    /// A host capability failed during the call.
    HostCapability(String),
}

/// Acceptance of component bytes by an engine's compiler: given the same
/// engine and the same bytes, compilation succeeds or fails the same way.
pub uninterp spec fn component_compiles(engine: wasmtime::Engine, bytes: Seq<u8>) -> bool;

/// Relies on wasmtime::component::Component::new: compiles and verifies a
/// component binary against the engine, deterministically in the engine and
/// the bytes; an error message on failure.
#[verifier::external_body]
fn compile_component(engine: &wasmtime::Engine, bytes: &[u8]) -> (r: Result<
    wasmtime::component::Component,
    String,
>)
    ensures
        r is Ok <==> component_compiles(*engine, bytes@),
{
    wasmtime::component::Component::new(engine, bytes).map_err(|e| e.to_string())
}

/// The paths of a step sequence, in step order.
pub open spec fn step_paths(steps: Seq<WorkflowStep>) -> Seq<Seq<char>> {
    steps.map_values(|st: WorkflowStep| st.wasm@)
}

/// The views of a vector of strings.
pub open spec fn str_views(v: Seq<String>) -> Seq<Seq<char>> {
    v.map_values(|s: String| s@)
}

/// The distinct paths of `paths` not in `have`, in first-occurrence order:
/// what a fail-fast pre-load must fetch.
pub open spec fn load_plan(paths: Seq<Seq<char>>, have: Seq<Seq<char>>) -> Seq<Seq<char>>
    decreases paths.len(),
{
    if paths.len() == 0 {
        Seq::<Seq<char>>::empty()
    } else if have.contains(paths[0]) {
        load_plan(paths.drop_first(), have)
    } else {
        seq![paths[0]] + load_plan(paths.drop_first(), have.push(paths[0]))
    }
}

proof fn lemma_concat_contains<T>(a: Seq<T>, b: Seq<T>, x: T)
    ensures
        (a + b).contains(x) <==> a.contains(x) || b.contains(x),
{
    if a.contains(x) {
        let i = choose|i: int| 0 <= i < a.len() && a[i] == x;
        assert((a + b)[i] == x);
    }
    if b.contains(x) {
        let i = choose|i: int| 0 <= i < b.len() && b[i] == x;
        assert((a + b)[a.len() + i] == x);
    }
    if (a + b).contains(x) {
        let i = choose|i: int| 0 <= i < (a + b).len() && (a + b)[i] == x;
        if i < a.len() {
            assert(a[i] == x);
        } else {
            assert(b[i - a.len()] == x);
        }
    }
}

/// The load plan is fresh and duplicate-free: it never names a path already
/// held, and never names the same path twice.
pub proof fn lemma_load_plan_fresh(paths: Seq<Seq<char>>, have: Seq<Seq<char>>)
    ensures
        forall|k: int|
            0 <= k < load_plan(paths, have).len() ==> !have.contains(
                #[trigger] load_plan(paths, have)[k],
            ),
        forall|i: int, j: int|
            #![trigger load_plan(paths, have)[i], load_plan(paths, have)[j]]
            0 <= i < j < load_plan(paths, have).len() ==> load_plan(paths, have)[i] != load_plan(
                paths,
                have,
            )[j],
    decreases paths.len(),
{
    if paths.len() == 0 {
    } else if have.contains(paths[0]) {
        lemma_load_plan_fresh(paths.drop_first(), have);
        let whole = load_plan(paths, have);
        let rest = load_plan(paths.drop_first(), have);
        assert(whole == rest);
        assert forall|k: int| 0 <= k < whole.len() implies !have.contains(
            #[trigger] whole[k],
        ) by {
            assert(!have.contains(rest[k]));
        }
        assert forall|i: int, j: int|
            #![trigger whole[i], whole[j]]
            0 <= i < j < whole.len() implies whole[i] != whole[j] by {
            assert(rest[i] != rest[j]);
        }
    } else {
        let p = paths[0];
        lemma_load_plan_fresh(paths.drop_first(), have.push(p));
        let rest = load_plan(paths.drop_first(), have.push(p));
        let whole = load_plan(paths, have);
        assert(whole == seq![p] + rest);
        assert(whole[0] == p);
        assert(forall|k: int| 0 <= k < rest.len() ==> #[trigger] whole[1 + k] == rest[k]);
        assert forall|k: int| 0 <= k < whole.len() implies !have.contains(#[trigger] whole[k]) by {
            if k == 0 {
            } else {
                assert(whole[k] == rest[k - 1]);
                assert(!have.push(p).contains(rest[k - 1]));
                if have.contains(rest[k - 1]) {
                    let i = choose|i: int| 0 <= i < have.len() && have[i] == rest[k - 1];
                    assert(have.push(p)[i] == rest[k - 1]);
                }
            }
        }
        assert forall|i: int, j: int|
            #![trigger whole[i], whole[j]]
            0 <= i < j < whole.len() implies whole[i] != whole[j] by {
            if i == 0 {
                assert(whole[j] == rest[j - 1]);
                assert(!have.push(p).contains(rest[j - 1]));
                if whole[0] == rest[j - 1] {
                    assert(have.push(p)[have.len() as int] == p);
                }
            } else {
                assert(whole[i] == rest[i - 1]);
                assert(whole[j] == rest[j - 1]);
            }
        }
    }
}

/// Whether one of `v`'s strings reads `p`.
fn contains_string(v: &Vec<String>, p: &String) -> (r: bool)
    ensures
        r == str_views(v@).contains(p@),
{
    let mut i: usize = 0;
    while i < v.len()
        invariant
            i <= v@.len(),
            forall|k: int| 0 <= k < i ==> str_views(v@)[k] != p@,
        decreases v@.len() - i,
    {
        if v[i] == *p {
            assert(str_views(v@)[i as int] == p@);
            return true;
        }
        i = i + 1;
    }
    assert(!str_views(v@).contains(p@));
    false
}

/// The engine: the sandbox engine handle and the component cache.
pub struct WorkflowEngine {
    engine: wasmtime::Engine,
    components: ComponentCache<wasmtime::component::Component>,
}

impl WorkflowEngine {
    /// The cached artifact paths, in load order.
    pub closed spec fn loaded(&self) -> Seq<Seq<char>> {
        self.components.keys()
    }

    /// The engine handle that artifacts are compiled against.
    pub closed spec fn engine_spec(&self) -> wasmtime::Engine {
        self.engine
    }

    /// The path-to-artifact association, in load order.
    pub closed spec fn artifacts(&self) -> Seq<(Seq<char>, wasmtime::component::Component)> {
        self.components.pairs()
    }

    /// The artifact cached under `k`.
    pub closed spec fn artifact_for(&self, k: Seq<char>) -> wasmtime::component::Component {
        self.components.value_for(k)
    }

    /// The cache never holds a path twice.
    pub closed spec fn wf(&self) -> bool {
        self.components.wf()
    }

    /// A fresh engine with an empty component cache.
    pub fn new(engine: wasmtime::Engine) -> (r: Self)
        ensures
            r.loaded().len() == 0,
            r.wf(),
    {
        WorkflowEngine { engine, components: ComponentCache::new() }
    }

    /// Whether the artifact at `path` is already loaded.
    pub fn has_component(&self, path: &String) -> (r: bool)
        ensures
            r == self.loaded().contains(path@),
    {
        self.components.contains(path)
    }

    /// The artifact cached under `path`, if any: always the one the path was
    /// loaded with.
    pub fn component_for(&self, path: &String) -> (r: Option<&wasmtime::component::Component>)
        requires
            self.wf(),
        ensures
            r is Some <==> self.loaded().contains(path@),
            r is Some ==> *r->0 == self.artifact_for(path@),
    {
        self.components.get(path)
    }

    /// The distinct artifact paths of `w` that are not loaded yet, in
    /// first-occurrence order: what remains to read and compile before any
    /// step executes.
    #[verifier::loop_isolation(false)]
    pub fn missing_paths(&self, w: &Workflow) -> (r: Vec<String>)
        ensures
            str_views(r@) == load_plan(step_paths(w.0@), self.loaded()),
    {
        let ghost paths = step_paths(w.0@);
        let ghost keys0 = self.loaded();
        let mut out: Vec<String> = Vec::new();
        proof {
            assert(paths.skip(0) =~= paths);
            assert(str_views(out@) =~= Seq::<Seq<char>>::empty());
            assert(keys0 + str_views(out@) =~= keys0);
            assert(str_views(out@) + load_plan(paths, keys0) =~= load_plan(paths, keys0));
        }
        let mut i: usize = 0;
        while i < w.0.len()
            invariant
                i <= w.0@.len(),
                load_plan(paths, keys0) == str_views(out@) + load_plan(
                    paths.skip(i as int),
                    keys0 + str_views(out@),
                ),
            decreases w.0@.len() - i,
        {
            let step = &w.0[i];
            let ghost rem = paths.skip(i as int);
            let ghost have = keys0 + str_views(out@);
            proof {
                assert(rem[0] == step.wasm@);
                assert(rem.drop_first() =~= paths.skip(i as int + 1));
            }
            let known = self.has_component(&step.wasm) || contains_string(&out, &step.wasm);
            proof {
                lemma_concat_contains(keys0, str_views(out@), step.wasm@);
                assert(known == have.contains(rem[0]));
            }
            if !known {
                let ghost old_views = str_views(out@);
                out.push(step.wasm.clone());
                proof {
                    assert(str_views(out@) =~= old_views.push(step.wasm@));
                    assert(keys0 + str_views(out@) =~= have.push(step.wasm@));
                    assert(old_views + (seq![step.wasm@] + load_plan(
                        paths.skip(i as int + 1),
                        have.push(step.wasm@),
                    )) =~= str_views(out@) + load_plan(
                        paths.skip(i as int + 1),
                        have.push(step.wasm@),
                    ));
                }
            }
            i = i + 1;
        }
        proof {
            assert(paths.skip(i as int) =~= Seq::<Seq<char>>::empty());
            assert(load_plan(paths.skip(i as int), keys0 + str_views(out@))
                =~= Seq::<Seq<char>>::empty());
            assert(str_views(out@) + Seq::<Seq<char>>::empty() =~= str_views(out@));
        }
        out
    }

    /// Compiles and verifies the artifact bytes read from `path` and caches
    /// the result. A path already cached is left exactly as it is — no
    /// re-read, no re-verification, no replacement — and every cached entry
    /// survives every call unreplaced; a rejected artifact leaves the cache
    /// unchanged.
    pub fn load_from_bytes(&mut self, path: String, bytes: &[u8]) -> (r: Result<
        (),
        WorkflowEngineError,
    >)
        requires
            old(self).wf(),
        ensures
            final(self).wf(),
            old(self).loaded().contains(path@) ==> r is Ok && final(self).artifacts() == old(
                self,
            ).artifacts(),
            !old(self).loaded().contains(path@) ==> (r is Ok <==> component_compiles(
                old(self).engine_spec(),
                bytes@,
            )),
            final(self).engine_spec() == old(self).engine_spec(),
            forall|k: Seq<char>|
                #[trigger] old(self).loaded().contains(k) ==> final(self).loaded().contains(k)
                    && final(self).artifact_for(k) == old(self).artifact_for(k),
            r is Ok ==> final(self).loaded() == if old(self).loaded().contains(path@) {
                old(self).loaded()
            } else {
                old(self).loaded().push(path@)
            },
            r is Ok ==> final(self).loaded().contains(path@),
            r is Err ==> final(self).artifacts() == old(self).artifacts() && final(self).loaded()
                == old(self).loaded() && (r->Err_0 matches
                WorkflowEngineError::ArtifactVerification { path: p, detail } && p@ == path@),
    {
        if self.components.contains(&path) {
            return Ok(());
        }
        match compile_component(&self.engine, bytes) {
            Ok(c) => {
                self.components.insert(path, c);
                proof {
                    assert(self.loaded().contains(old(self).loaded().push(path@).last()));
                    assert forall|k: Seq<char>| #[trigger] old(self).loaded().contains(k) implies
                        self.loaded().contains(k) && self.artifact_for(k) == old(
                        self,
                    ).artifact_for(k) by {
                        assert(old(self).components.contains_key(k));
                        assert(self.components.contains_key(k));
                        assert(self.components.value_for(k) == old(self).components.value_for(k));
                    }
                }
                Ok(())
            },
            Err(detail) => Err(WorkflowEngineError::ArtifactVerification { path, detail }),
        }
    }
}

/// What the host must do next to advance the run.
#[derive(Debug)]
pub enum StepAction {
    /// Instantiate the artifact at `wasm` against the shared store, resolve
    /// the export `function`, and call it with `args`.
    Invoke { wasm: String, function: String, args: Vec<NativeValue> },
    /// The run is over; report the result.
    Finish,
}

/// What the host observed when it performed an `Invoke`.
#[derive(Debug)]
pub enum StepEvent {
    /// The call returned these values.
    Returned { results: Vec<NativeValue> },
    /// The artifact could not be instantiated.
    InstantiationFailed { detail: String },
    /// The instance has no export of the step's name.
    FunctionMissing,
    /// The sandboxed code trapped.
    Trapped { detail: String },
    /// A host capability failed.
    HostFailed { detail: String },
}

/// A valid input literal.
pub open spec fn input_ok(v: Value) -> bool {
    valid_literal(v.ty, v.value@)
}

/// The run's state: the workflow, the next step to execute, and the running
/// "last result" slot.
pub struct Execution {
    workflow: Workflow,
    idx: usize,
    last: Option<NativeValue>,
}

impl Execution {
    /// The steps of the run.
    pub closed spec fn steps(&self) -> Seq<WorkflowStep> {
        self.workflow.0@
    }

    /// The index of the next step to execute.
    pub closed spec fn step_index(&self) -> int {
        self.idx as int
    }

    /// The last completed step's first return value, if any.
    pub closed spec fn last_result(&self) -> Option<NativeValue> {
        self.last
    }

    /// A run at its first step, with no result yet.
    pub fn new(workflow: Workflow) -> (r: Self)
        ensures
            r.steps() == workflow.0@,
            r.step_index() == 0,
            r.last_result() is None,
    {
        Execution { workflow, idx: 0, last: None }
    }

    /// Whether every step has completed.
    pub fn is_finished(&self) -> (r: bool)
        ensures
            r == (self.step_index() >= self.steps().len()),
    {
        self.idx >= self.workflow.0.len()
    }

    /// Decides the next action: finish when every step is done, otherwise
    /// resolve the step's artifact and convert its inputs. An unloaded
    /// artifact or an invalid literal fails the run here, before any call.
    #[verifier::loop_isolation(false)]
    pub fn next_action(&self, engine: &WorkflowEngine) -> (r: Result<
        StepAction,
        WorkflowEngineError,
    >)
        ensures
            self.step_index() >= self.steps().len() ==> r == Ok::<
                StepAction,
                WorkflowEngineError,
            >(StepAction::Finish),
            self.step_index() < self.steps().len() ==> ({
                let st = self.steps()[self.step_index()];
                let all_ok = forall|j: int|
                    0 <= j < st.inputs@.len() ==> input_ok(#[trigger] st.inputs@[j]);
                &&& (!engine.loaded().contains(st.wasm@) ==> (r matches Err(
                    WorkflowEngineError::ComponentNotFound(p),
                ) && p@ == st.wasm@))
                &&& (engine.loaded().contains(st.wasm@) && all_ok ==> (r matches Ok(
                    StepAction::Invoke { wasm, function, args },
                ) && {
                    &&& wasm@ == st.wasm@
                    &&& function@ == st.function@
                    &&& args@.len() == st.inputs@.len()
                    &&& forall|k: int|
                        0 <= k < st.inputs@.len() ==> native_matches(
                            #[trigger] args@[k],
                            st.inputs@[k].ty,
                            st.inputs@[k].value@,
                        )
                }))
                &&& (engine.loaded().contains(st.wasm@) && !all_ok ==> (r matches Err(
                    WorkflowEngineError::ValueParse { step, arg },
                ) && {
                    &&& step as int == self.step_index()
                    &&& 0 <= arg < st.inputs@.len()
                    &&& !input_ok(st.inputs@[arg as int])
                    &&& forall|k: int| 0 <= k < arg ==> input_ok(#[trigger] st.inputs@[k])
                }))
            }),
    {
        if self.idx >= self.workflow.0.len() {
            return Ok(StepAction::Finish);
        }
        let step = &self.workflow.0[self.idx];
        if !engine.has_component(&step.wasm) {
            return Err(WorkflowEngineError::ComponentNotFound(step.wasm.clone()));
        }
        let mut args: Vec<NativeValue> = Vec::new();
        let mut j: usize = 0;
        while j < step.inputs.len()
            invariant
                j <= step.inputs@.len(),
                args@.len() == j,
                forall|k: int| 0 <= k < j ==> input_ok(#[trigger] step.inputs@[k]),
                forall|k: int|
                    0 <= k < j ==> native_matches(
                        #[trigger] args@[k],
                        step.inputs@[k].ty,
                        step.inputs@[k].value@,
                    ),
            decreases step.inputs@.len() - j,
        {
            match step.inputs[j].val() {
                Ok(n) => {
                    args.push(n);
                },
                Err(_) => {
                    assert(!input_ok(step.inputs@[j as int]));
                    return Err(WorkflowEngineError::ValueParse { step: self.idx, arg: j });
                },
            }
            j = j + 1;
        }
        Ok(StepAction::Invoke {
            wasm: step.wasm.clone(),
            function: step.function.clone(),
            args,
        })
    }

    /// Advances the run with what the host observed. A returned call
    /// completes the step and becomes the running result; every failure
    /// halts the run with its error kind, leaving the state as it was —
    /// completed steps stay completed, nothing is rolled back.
    pub fn apply_event(&mut self, ev: StepEvent) -> (r: Result<(), WorkflowEngineError>)
        requires
            old(self).step_index() < old(self).steps().len(),
        ensures
            final(self).steps() == old(self).steps(),
            ({
                let st = old(self).steps()[old(self).step_index()];
                match ev {
                    StepEvent::Returned { results } => {
                        &&& r is Ok
                        &&& final(self).step_index() == old(self).step_index() + 1
                        &&& final(self).last_result() == if results@.len() > 0 {
                            Some(results@[0])
                        } else {
                            None::<NativeValue>
                        }
                    },
                    StepEvent::InstantiationFailed { detail } => {
                        &&& final(self).step_index() == old(self).step_index()
                        &&& final(self).last_result() == old(self).last_result()
                        &&& (r matches Err(WorkflowEngineError::ArtifactVerification {
                            path,
                            detail: d,
                        }) && path@ == st.wasm@ && d@ == detail@)
                    },
                    StepEvent::FunctionMissing => {
                        &&& final(self).step_index() == old(self).step_index()
                        &&& final(self).last_result() == old(self).last_result()
                        &&& (r matches Err(WorkflowEngineError::FunctionNotFound(f)) && f@
                            == st.function@)
                    },
                    StepEvent::Trapped { detail } => {
                        &&& final(self).step_index() == old(self).step_index()
                        &&& final(self).last_result() == old(self).last_result()
                        &&& (r matches Err(WorkflowEngineError::CallTrap(d)) && d@ == detail@)
                    },
                    StepEvent::HostFailed { detail } => {
                        &&& final(self).step_index() == old(self).step_index()
                        &&& final(self).last_result() == old(self).last_result()
                        &&& (r matches Err(WorkflowEngineError::HostCapability(d)) && d@
                            == detail@)
                    },
                }
            }),
    {
        match ev {
            StepEvent::Returned { results } => {
                let mut rs = results;
                if rs.len() > 0 {
                    let first = rs.remove(0);
                    self.last = Some(first);
                } else {
                    self.last = None;
                }
                let n = self.workflow.0.len();
                assert(self.idx < n);
                self.idx = self.idx + 1;
                Ok(())
            },
            StepEvent::InstantiationFailed { detail } => {
                let step = &self.workflow.0[self.idx];
                Err(WorkflowEngineError::ArtifactVerification {
                    path: step.wasm.clone(),
                    detail,
                })
            },
            StepEvent::FunctionMissing => {
                let step = &self.workflow.0[self.idx];
                Err(WorkflowEngineError::FunctionNotFound(step.function.clone()))
            },
            StepEvent::Trapped { detail } => Err(WorkflowEngineError::CallTrap(detail)),
            StepEvent::HostFailed { detail } => Err(WorkflowEngineError::HostCapability(detail)),
        }
    }

    /// The run's result once every step is done.
    pub fn into_result(self) -> (r: Option<NativeValue>)
        ensures
            r == self.last_result(),
    {
        self.last
    }
}

/// The reported form of a run's outcome.
pub open spec fn spec_run_report(r: Option<NativeValue>) -> Seq<char> {
    match r {
        Some(n) => render_native(n),
        None => seq!['n', 'o', ' ', 'r', 'e', 's', 'u', 'l', 't'],
    }
}

/// Renders the run's outcome: the last step's first return value in its
/// canonical textual form, or the explicit no-result marker.
pub fn run_report(r: &Option<NativeValue>) -> (s: String)
    ensures
        s@ == spec_run_report(*r),
{
    match r {
        Some(n) => from_native(n),
        None => {
            proof {
                reveal_strlit("no result");
            }
            let s = "no result".to_owned();
            assert(s@ =~= spec_run_report(None::<NativeValue>));
            s
        },
    }
}

} // verus!
