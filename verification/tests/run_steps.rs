use unit_compose::dynamic_run::{dynamic_outcome, dynamic_run_state, dynamic_run_step, DynamicRunAction, DynamicRunEvent, DynamicStage};
use unit_compose::error_text::{compile_error_text, configuration_error_text};
use unit_compose::ids::{ResourceId, UnitId, UnitTypeName};
use unit_compose::module::{check_strict_claim, settle_run, BuildError};
use unit_compose::options::{strict_global_allocator_capability, AllocationCapability, AllocationOperations, BuildOptions, RequirementStatus};
use unit_compose::report::{FailureDisposition, RunError, UnitFailure};
use unit_compose::resolve::ConfigurationError;
use unit_compose::types::{CompileError, Producer};

fn fatal() -> RunError {
    RunError::Unit(UnitFailure { disposition: FailureDisposition::Fatal, message: "boom" })
}

fn recoverable() -> RunError {
    RunError::Unit(UnitFailure { disposition: FailureDisposition::Recoverable, message: "retry" })
}

#[test]
fn a_poisoned_dynamic_module_answers_poisoned_to_a_start() {
    let (state, action) = dynamic_run_step(&dynamic_run_state(true, 2), DynamicRunEvent::Start);
    assert_eq!(action, DynamicRunAction::Finish(Err(RunError::Poisoned)));
    assert!(state.poisoned);
}

#[test]
fn dynamic_units_run_in_order_until_the_first_failure() {
    let state = dynamic_run_state(false, 3);
    let (state, action) = dynamic_run_step(&state, DynamicRunEvent::Start);
    assert_eq!(action, DynamicRunAction::Prepare);
    let (state, action) = dynamic_run_step(&state, DynamicRunEvent::Prepared(Ok(())));
    assert_eq!(action, DynamicRunAction::RunUnit(0));
    let (state, action) = dynamic_run_step(&state, DynamicRunEvent::UnitFinished(Ok(())));
    assert_eq!(action, DynamicRunAction::RunUnit(1));
    let (recovered, action) = dynamic_run_step(&state, DynamicRunEvent::UnitFinished(Err(recoverable())));
    assert_eq!(action, DynamicRunAction::Finish(Err(recoverable())));
    assert!(!recovered.poisoned && !recovered.publications_valid);
    let (poisoned, action) = dynamic_run_step(&state, DynamicRunEvent::UnitFinished(Err(fatal())));
    assert_eq!(action, DynamicRunAction::Finish(Err(fatal())));
    assert!(poisoned.poisoned && !poisoned.publications_valid);
    let (state, _) = dynamic_run_step(&state, DynamicRunEvent::UnitFinished(Ok(())));
    let (done, action) = dynamic_run_step(&state, DynamicRunEvent::UnitFinished(Ok(())));
    assert_eq!(action, DynamicRunAction::Finish(Ok(())));
    assert!(done.publications_valid && done.stage == DynamicStage::Finished);
}

#[test]
fn a_dynamic_module_without_units_finishes_after_preparing() {
    let (state, _) = dynamic_run_step(&dynamic_run_state(false, 0), DynamicRunEvent::Start);
    let (_, action) = dynamic_run_step(&state, DynamicRunEvent::Prepared(Ok(())));
    assert_eq!(action, DynamicRunAction::Finish(Ok(())));
    let (_, refused) = dynamic_run_step(&state, DynamicRunEvent::Prepared(Err(RunError::Poisoned)));
    assert_eq!(refused, DynamicRunAction::Finish(Err(RunError::Poisoned)));
}

#[test]
fn a_probe_violation_turns_only_a_successful_run_into_an_error() {
    let operations = AllocationOperations { allocations: 1, reallocations: 0, deallocations: 0 };
    let (answer, invalidate) = dynamic_outcome(Ok(()), Some(("rust-global".to_owned(), operations)));
    assert_eq!(answer, Err(RunError::AllocationProfileViolation { domain: "rust-global".to_owned(), operations }));
    assert!(invalidate);
    assert_eq!(dynamic_outcome(Err(fatal()), Some(("rust-global".to_owned(), operations))), (Err(fatal()), false));
    assert_eq!(dynamic_outcome(Ok(()), None), (Ok(()), false));
}

#[test]
fn settling_a_run_keeps_the_unit_error_and_poisons_only_on_fatal_or_panic() {
    assert_eq!(settle_run(Err(fatal()), Ok(())), (Err(fatal()), true));
    assert_eq!(settle_run(Err(RunError::Panic), Ok(())), (Err(RunError::Panic), true));
    assert_eq!(settle_run(Err(recoverable()), Ok(())), (Err(recoverable()), false));
    let incomplete = RunError::IncompleteOutput { resource: "out" };
    assert_eq!(settle_run(Ok(()), Err(incomplete.clone())), (Err(incomplete), false));
    assert_eq!(settle_run(Ok(()), Ok(())), (Ok(()), false));
}

#[test]
fn the_strict_claim_checks_the_requirement_before_the_capability() {
    let strict = BuildOptions::strict();
    let unable = AllocationCapability::inspect(vec![], false);
    assert_eq!(
        check_strict_claim(strict, RequirementStatus::Dynamic, unable.clone()),
        Err(BuildError::StrictRequirementUnavailable(RequirementStatus::Dynamic))
    );
    assert_eq!(
        check_strict_claim(strict, RequirementStatus::Bounded, unable.clone()),
        Err(BuildError::StrictCapabilityUnavailable(unable.clone()))
    );
    assert_eq!(check_strict_claim(BuildOptions::development(), RequirementStatus::Dynamic, unable.clone()), Ok(unable));
    let capable = strict_global_allocator_capability();
    assert_eq!(check_strict_claim(strict, RequirementStatus::Fixed, capable.clone()), Ok(capable));
}

#[test]
fn error_texts_read_as_their_debug_form() {
    let errors = vec![
        CompileError::UnknownUnitType { unit: UnitId::new("a\"b"), unit_type: UnitTypeName::new("t") },
        CompileError::MissingPort { unit: UnitId::new("u"), unit_type: UnitTypeName::new("t"), port: "p".to_owned(), input: true },
        CompileError::DuplicateModuleOutput,
        CompileError::Cycle { path: vec![UnitId::new("x"), UnitId::new("y"), UnitId::new("x")] },
        CompileError::Cycle { path: vec![] },
        CompileError::DuplicateProducer {
            resource: ResourceId::new("r"),
            first: Producer::ModuleInput,
            second: Producer::Unit { unit: UnitId::new("u"), port: "out".to_owned() },
        },
    ];
    for error in &errors {
        assert_eq!(compile_error_text(error), format!("{:?}", error));
    }
    let configuration = ConfigurationError::ConfigurationType {
        unit_type: UnitTypeName::new("t"),
        expected: "u32".to_owned(),
        actual: "i\n64".to_owned(),
    };
    assert_eq!(configuration_error_text(&configuration), format!("{:?}", configuration));
}
