//! The decisions of a dynamic Module run: the order of its steps, stopping
//! at the first failing Unit, poisoning, the validity of publications, and
//! how a probe violation ends a run. The host performs each action over
//! type-erased storage and hands back what happened.

use vstd::prelude::*;

use crate::options::AllocationOperations;
use crate::report::RunError;
use crate::runtime::{poisons, poisons_module};

verus! {

/// Where a dynamic run stands.
#[derive(Clone, Copy, Debug, PartialEq, Eq, Structural)]
pub enum DynamicStage {
    /// Waiting for the run to start.
    Idle,
    /// Waiting for the inputs to be validated and the store reset.
    Preparing,
    /// Waiting for the Unit at this position of the schedule.
    Running(usize),
    /// The run answered.
    Finished,
}

/// The state of a dynamic run.
#[derive(Clone, Copy, Debug, PartialEq, Eq, Structural)]
pub struct DynamicRunState {
    pub poisoned: bool,
    pub unit_count: usize,
    pub publications_valid: bool,
    pub stage: DynamicStage,
}

/// What the host reports back.
#[derive(Debug, PartialEq, Eq)]
pub enum DynamicRunEvent {
    /// A run is requested.
    Start,
    /// The inputs were validated and the store reset, or validation failed.
    Prepared(Result<(), RunError>),
    /// The Unit the last action ran returned this.
    UnitFinished(Result<(), RunError>),
}

/// What the host is to do next.
#[derive(Debug, PartialEq, Eq)]
pub enum DynamicRunAction {
    /// Validate the inputs and reset the store.
    Prepare,
    /// Run the Unit at this position of the schedule.
    RunUnit(usize),
    /// The run answers this.
    Finish(Result<(), RunError>),
}

/// A fresh run state for a Module with `unit_count` scheduled Units.
pub fn dynamic_run_state(poisoned: bool, unit_count: usize) -> (r: DynamicRunState)
    ensures
        r == (DynamicRunState { poisoned, unit_count, publications_valid: false, stage: DynamicStage::Idle }),
{
    DynamicRunState { poisoned, unit_count, publications_valid: false, stage: DynamicStage::Idle }
}

/// One decision of a dynamic run. A poisoned Module answers `Poisoned` to
/// a start; otherwise the inputs are prepared first, then the Units run in
/// schedule order. The first failing Unit ends the run with its error,
/// invalidates every publication and poisons the Module when the failure is
/// fatal or a panic; after the last Unit the run succeeds and its
/// publications are valid. An event the stage does not expect changes
/// nothing and finishes with a binding error.
pub fn dynamic_run_step(state: &DynamicRunState, event: DynamicRunEvent) -> (r: (DynamicRunState, DynamicRunAction))
    ensures
        event is Start && state.poisoned ==> r.1 == DynamicRunAction::Finish(Err(RunError::Poisoned)) && r.0.poisoned
            && r.0.stage == DynamicStage::Finished && !r.0.publications_valid,
        event is Start && !state.poisoned ==> r.1 == DynamicRunAction::Prepare && !r.0.poisoned && r.0.stage
            == DynamicStage::Preparing && !r.0.publications_valid,
        state.stage == DynamicStage::Preparing ==> match event {
            DynamicRunEvent::Prepared(Err(e)) => r.1 == DynamicRunAction::Finish(Err(e)) && r.0.poisoned == state.poisoned
                && !r.0.publications_valid && r.0.stage == DynamicStage::Finished,
            DynamicRunEvent::Prepared(Ok(())) => r.0.poisoned == state.poisoned && !r.0.publications_valid && if state.unit_count
                == 0 {
                r.1 == DynamicRunAction::Finish(Ok(())) && r.0.stage == DynamicStage::Finished
            } else {
                r.1 == DynamicRunAction::RunUnit(0) && r.0.stage == DynamicStage::Running(0)
            },
            _ => true,
        },
        state.stage matches DynamicStage::Running(next) ==> match event {
            DynamicRunEvent::UnitFinished(Err(e)) => r.1 == DynamicRunAction::Finish(Err(e)) && r.0.poisoned == (state.poisoned
                || poisons_module(e)) && !r.0.publications_valid && r.0.stage == DynamicStage::Finished,
            DynamicRunEvent::UnitFinished(Ok(())) => r.0.poisoned == state.poisoned && if next + 1 < state.unit_count {
                r.1 == DynamicRunAction::RunUnit((next + 1) as usize) && r.0.stage == DynamicStage::Running((next + 1) as usize)
                    && !r.0.publications_valid
            } else {
                r.1 == DynamicRunAction::Finish(Ok(())) && r.0.stage == DynamicStage::Finished && r.0.publications_valid
            },
            _ => true,
        },
        r.0.unit_count == state.unit_count,
        state.poisoned ==> r.0.poisoned,
        !(event is Start) && !(state.stage == DynamicStage::Preparing && event is Prepared) && !(state.stage is Running
            && event is UnitFinished) ==> r.0 == *state && r.1 is Finish && r.1->Finish_0 is Err,
{
    match event {
        DynamicRunEvent::Start => {
            if state.poisoned {
                (
                    DynamicRunState { poisoned: true, unit_count: state.unit_count, publications_valid: false, stage: DynamicStage::Finished },
                    DynamicRunAction::Finish(Err(RunError::Poisoned)),
                )
            } else {
                (
                    DynamicRunState { poisoned: false, unit_count: state.unit_count, publications_valid: false, stage: DynamicStage::Preparing },
                    DynamicRunAction::Prepare,
                )
            }
        },
        DynamicRunEvent::Prepared(result) => {
            if state.stage != DynamicStage::Preparing {
                return (*state, unexpected());
            }
            match result {
                Err(e) => (
                    DynamicRunState {
                        poisoned: state.poisoned,
                        unit_count: state.unit_count,
                        publications_valid: false,
                        stage: DynamicStage::Finished,
                    },
                    DynamicRunAction::Finish(Err(e)),
                ),
                Ok(()) => {
                    if state.unit_count == 0 {
                        (
                            DynamicRunState {
                                poisoned: state.poisoned,
                                unit_count: 0,
                                publications_valid: false,
                                stage: DynamicStage::Finished,
                            },
                            DynamicRunAction::Finish(Ok(())),
                        )
                    } else {
                        (
                            DynamicRunState {
                                poisoned: state.poisoned,
                                unit_count: state.unit_count,
                                publications_valid: false,
                                stage: DynamicStage::Running(0),
                            },
                            DynamicRunAction::RunUnit(0),
                        )
                    }
                },
            }
        },
        DynamicRunEvent::UnitFinished(result) => {
            let next = match state.stage {
                DynamicStage::Running(n) => n,
                _ => {
                    return (*state, unexpected());
                },
            };
            match result {
                Err(e) => {
                    let poisoned = state.poisoned || poisons(&e);
                    (
                        DynamicRunState { poisoned, unit_count: state.unit_count, publications_valid: false, stage: DynamicStage::Finished },
                        DynamicRunAction::Finish(Err(e)),
                    )
                },
                Ok(()) => {
                    if next < state.unit_count && next + 1 < state.unit_count {
                        (
                            DynamicRunState {
                                poisoned: state.poisoned,
                                unit_count: state.unit_count,
                                publications_valid: false,
                                stage: DynamicStage::Running(next + 1),
                            },
                            DynamicRunAction::RunUnit(next + 1),
                        )
                    } else {
                        (
                            DynamicRunState {
                                poisoned: state.poisoned,
                                unit_count: state.unit_count,
                                publications_valid: true,
                                stage: DynamicStage::Finished,
                            },
                            DynamicRunAction::Finish(Ok(())),
                        )
                    }
                },
            }
        },
    }
}

fn unexpected() -> (r: DynamicRunAction)
    ensures
        r is Finish && r->Finish_0 is Err,
{
    let mut message = String::new();
    crate::text::push_str(&mut message, "dynamic run event out of order");
    DynamicRunAction::Finish(Err(RunError::RuntimeBinding { message }))
}

/// A dynamic run's answer once the probes finished: a probe that observed
/// allocations turns a successful run into an allocation violation and
/// invalidates its publications; a failed run keeps its own error.
pub fn dynamic_outcome(
    result: Result<(), RunError>,
    violation: Option<(String, AllocationOperations)>,
) -> (r: (Result<(), RunError>, bool))
    ensures
        result is Ok && violation is Some ==> r.0 == Err::<(), RunError>(RunError::AllocationProfileViolation {
            domain: violation.unwrap().0,
            operations: violation.unwrap().1,
        }) && r.1,
        !(result is Ok && violation is Some) ==> r.0 == result && !r.1,
{
    if result.is_err() {
        return (result, false);
    }
    match violation {
        Some((domain, operations)) => (Err(RunError::AllocationProfileViolation { domain, operations }), true),
        None => (result, false),
    }
}

} // verus!
