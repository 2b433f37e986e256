//! The workflow model: an ordered list of steps, each naming a component
//! artifact, an exported function, and typed literal arguments.

use vstd::prelude::*;

use crate::value::{ty_of_name, parse_ty, Ty, Value};

verus! {

/// One step: call `function` from the artifact at `wasm`, passing `inputs`
/// in order.
#[derive(Debug)]
pub struct WorkflowStep {
    pub function: String,
    pub inputs: Vec<Value>,
    pub wasm: String,
}

/// An ordered list of steps, executed first to last.
#[derive(Debug)]
pub struct Workflow(pub Vec<WorkflowStep>);

/// A step's argument as the manifest loader hands it over: the declared type
/// still in its textual form.
#[derive(Debug)]
pub struct RawInput {
    pub ty: String,
    pub value: String,
}

/// A step as the manifest loader hands it over.
#[derive(Debug)]
pub struct RawStep {
    pub function: String,
    pub inputs: Vec<RawInput>,
    pub wasm: String,
}

/// Failures of manifest loading. Reading and deserializing the file are the
/// loader's part; an unrecognized type declaration is found here, before any
/// execution.
#[derive(Debug)]
pub enum WorkflowError {
    /// The manifest file could not be read.
    File(String),
    /// The manifest's JSON text could not be parsed.
    Json(String),
    /// The manifest's YAML text could not be parsed.
    Yaml(String),
    /// A step declares an argument type the marshaller does not recognize.
    ManifestType { step: usize, arg: usize, tag: String },
}

/// `v` is the checked translation of the raw argument `r`.
pub open spec fn input_translated(r: RawInput, v: Value) -> bool {
    &&& Some(v.ty) == ty_of_name(r.ty@)
    &&& v.value@ == r.value@
}

/// `s` is the checked translation of the raw step `r`.
pub open spec fn step_translated(r: RawStep, s: WorkflowStep) -> bool {
    &&& s.function@ == r.function@
    &&& s.wasm@ == r.wasm@
    &&& s.inputs@.len() == r.inputs@.len()
    &&& forall|j: int|
        0 <= j < r.inputs@.len() ==> input_translated(r.inputs@[j], #[trigger] s.inputs@[j])
}

/// Every type tag of the raw step is recognized.
pub open spec fn step_tags_ok(r: RawStep) -> bool {
    forall|j: int| 0 <= j < r.inputs@.len() ==> ty_of_name(#[trigger] r.inputs@[j].ty@) is Some
}

impl Workflow {
    /// Builds the workflow from what the manifest loader parsed, checking
    /// every declared argument type. Succeeds exactly when every type tag is
    /// recognized; the first unrecognized tag is reported with its position.
    #[verifier::loop_isolation(false)]
    pub fn new(raw: Vec<RawStep>) -> (r: Result<Workflow, WorkflowError>)
        ensures
            r is Ok <==> (forall|i: int| 0 <= i < raw@.len() ==> step_tags_ok(#[trigger] raw@[i])),
            r is Ok ==> {
                &&& r->Ok_0.0@.len() == raw@.len()
                &&& forall|i: int|
                    0 <= i < raw@.len() ==> step_translated(raw@[i], #[trigger] r->Ok_0.0@[i])
            },
            r is Err ==> (r->Err_0 matches WorkflowError::ManifestType { step, arg, tag } && {
                &&& 0 <= step < raw@.len()
                &&& 0 <= arg < raw@[step as int].inputs@.len()
                &&& ty_of_name(raw@[step as int].inputs@[arg as int].ty@) is None
                &&& tag@ == raw@[step as int].inputs@[arg as int].ty@
                &&& forall|i: int| 0 <= i < step ==> step_tags_ok(#[trigger] raw@[i])
                &&& forall|j: int|
                    0 <= j < arg ==> ty_of_name(
                        #[trigger] raw@[step as int].inputs@[j].ty@,
                    ) is Some
            }),
    {
        let mut steps: Vec<WorkflowStep> = Vec::new();
        let mut i: usize = 0;
        while i < raw.len()
            invariant
                0 <= i <= raw@.len(),
                steps@.len() == i,
                forall|k: int| 0 <= k < i ==> step_translated(raw@[k], #[trigger] steps@[k]),
                forall|k: int| 0 <= k < i ==> step_tags_ok(#[trigger] raw@[k]),
            decreases raw@.len() - i,
        {
            let rs = &raw[i];
            let mut inputs: Vec<Value> = Vec::new();
            let mut j: usize = 0;
            while j < rs.inputs.len()
                invariant
                    0 <= j <= rs.inputs@.len(),
                    rs == raw@[i as int],
                    i < raw@.len(),
                    inputs@.len() == j,
                    forall|k: int|
                        0 <= k < j ==> input_translated(rs.inputs@[k], #[trigger] inputs@[k]),
                    forall|k: int| 0 <= k < j ==> ty_of_name(#[trigger] rs.inputs@[k].ty@) is Some,
                decreases rs.inputs@.len() - j,
            {
                let ri = &rs.inputs[j];
                match parse_ty(ri.ty.as_str()) {
                    Some(t) => {
                        inputs.push(Value { ty: t, value: ri.value.clone() });
                    },
                    None => {
                        return Err(WorkflowError::ManifestType {
                            step: i,
                            arg: j,
                            tag: ri.ty.clone(),
                        });
                    },
                }
                j = j + 1;
            }
            steps.push(WorkflowStep {
                function: rs.function.clone(),
                inputs,
                wasm: rs.wasm.clone(),
            });
            i = i + 1;
        }
        Ok(Workflow(steps))
    }
}

} // verus!
