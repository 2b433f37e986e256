//! A workflow runner for sandboxed components: an ordered list of steps,
//! each calling one exported function of a component artifact with typed
//! literal arguments, threading one shared execution store through the run.

use vstd::prelude::*;

pub mod cache;
pub mod text;
pub mod value;
pub mod workflow;
pub mod workflow_engine;

use crate::workflow::WorkflowError;
use crate::workflow_engine::WorkflowEngineError;

verus! {

/// The process-level error: the manifest could not be loaded, or the run
/// failed.
#[derive(Debug)]
pub enum MainError {
    WorkflowError(WorkflowError),
    WorkflowEngineError(WorkflowEngineError),
}

impl From<WorkflowError> for MainError {
    fn from(e: WorkflowError) -> Self {
        MainError::WorkflowError(e)
    }
}

impl vstd::std_specs::convert::FromSpecImpl<WorkflowError> for MainError {
    open spec fn obeys_from_spec() -> bool {
        true
    }

    open spec fn from_spec(e: WorkflowError) -> Self {
        MainError::WorkflowError(e)
    }
}

impl From<WorkflowEngineError> for MainError {
    fn from(e: WorkflowEngineError) -> Self {
        MainError::WorkflowEngineError(e)
    }
}

impl vstd::std_specs::convert::FromSpecImpl<WorkflowEngineError> for MainError {
    open spec fn obeys_from_spec() -> bool {
        true
    }

    open spec fn from_spec(e: WorkflowEngineError) -> Self {
        MainError::WorkflowEngineError(e)
    }
}

} // verus!
