use std::time::{Duration, Instant};

use unit_compose::frontend::ExecutableDefinition;
use unit_compose::ids::UnitId;
use unit_compose::module::{OutputStorage, PairStorage, ValueStorage};
use unit_compose::options::{AllocationOperations, CapacityPolicy};
use unit_compose::report::{
    finish_probes, AllocationDomainProbe, CapacityError, RunError, RunEventKind, RunReport, TimingScope,
    UnitExecutionRecorder, UnitFailure,
};
use unit_compose::runtime::{dynamic_run_event, poisons};
use unit_compose::types::CompiledGraph;

struct Probe {
    name: &'static str,
    operations: AllocationOperations,
    begun: bool,
}

impl AllocationDomainProbe for Probe {
    fn domain(&self) -> &str {
        self.name
    }

    fn begin(&mut self) {
        self.begun = true;
    }

    fn finish(&mut self) -> AllocationOperations {
        self.operations
    }
}

fn ops(allocations: usize) -> AllocationOperations {
    AllocationOperations { allocations, reallocations: 1, deallocations: 0 }
}

#[test]
fn run_event_reports_the_overflowing_capacity_and_clock_reads() {
    let mut timings = UnitExecutionRecorder::new(Instant::now(), true);
    let measured: Result<(), RunError> = timings.measure(0, || Ok(()));
    assert_eq!(measured, Ok(()));
    let overflow: Result<(), RunError> = Err(RunError::RuntimeOverflow {
        port: "out".to_owned(),
        required: 5,
        prepared: 4,
        policy: CapacityPolicy::RejectOverflow,
    });
    let event = dynamic_run_event(&overflow, 9, Duration::from_millis(3), &timings);
    assert_eq!(event.kind, RunEventKind::Overflow);
    assert_eq!(event.observed_capacity, 4);
    assert_eq!(event.elapsed, Duration::from_millis(3));
    assert_eq!(event.timing_scope, TimingScope::ModuleExecution);
    assert_eq!(event.timing_overhead.clock_reads, 4);
    assert!(event.timing_overhead.bounded_report_write_in_elapsed);

    let capacity: Result<(), RunError> = Err(RunError::Capacity(CapacityError {
        resource: "points",
        required: 3,
        prepared: 2,
        policy: CapacityPolicy::RejectOverflow,
    }));
    assert_eq!(dynamic_run_event(&capacity, 9, Duration::ZERO, &timings).observed_capacity, 2);

    let quiet = UnitExecutionRecorder::new(Instant::now(), false);
    let success = dynamic_run_event(&Ok(()), 9, Duration::ZERO, &quiet);
    assert_eq!(success.kind, RunEventKind::Success);
    assert_eq!(success.observed_capacity, 9);
    assert_eq!(success.timing_overhead.clock_reads, 2);
    assert!(!success.timing_overhead.bounded_report_write_in_elapsed);
}

#[test]
fn panics_and_fatal_failures_poison() {
    assert!(poisons(&RunError::Panic));
    assert!(poisons(&RunError::Unit(UnitFailure::fatal("broken"))));
    assert!(!poisons(&RunError::Unit(UnitFailure::recoverable("retry"))));
    assert!(!poisons(&RunError::Poisoned));
}

#[test]
fn finishing_probes_sums_totals_and_names_the_first_violation() {
    let mut quiet = Probe { name: "quiet", operations: AllocationOperations::default(), begun: false };
    let mut heap = Probe { name: "heap", operations: ops(2), begun: false };
    let mut gpu = Probe { name: "gpu", operations: ops(5), begun: false };
    let mut report = RunReport::new();
    let violation = finish_probes(&mut [&mut quiet, &mut heap, &mut gpu], &mut report, true);
    assert_eq!(violation, Some(("heap".to_owned(), ops(2))));
    assert_eq!(report.allocation_operations(), AllocationOperations { allocations: 7, reallocations: 2, deallocations: 0 });
    assert!(report.events().is_empty());

    let mut unrecorded = RunReport::new();
    assert_eq!(finish_probes(&mut [&mut quiet], &mut unrecorded, false), None);
    assert_eq!(unrecorded.allocation_operations(), AllocationOperations::default());
    assert!(!quiet.begun);
}

#[test]
fn configurations_are_taken_last_entry_first() {
    let graph = CompiledGraph {
        schema: "unit-compose/v0alpha1".to_owned(),
        module: "empty".to_owned(),
        units: vec![],
        resources: vec![],
        module_outputs: vec![],
        execution_order: vec![],
    };
    let a = UnitId::new("a");
    let b = UnitId::new("b");
    let mut definition = ExecutableDefinition::new(
        graph,
        vec![(a.clone(), 1), (b.clone(), 2), (a.clone(), 3)],
        vec![],
        vec![(a.clone(), 10), (a.clone(), 20)],
    );
    assert_eq!(definition.workspace_for(&a), 20);
    assert_eq!(definition.workspace_for(&b), 0);
    assert_eq!(definition.take_configuration(&a), Some(3));
    assert_eq!(definition.take_configuration(&a), Some(1));
    assert_eq!(definition.take_configuration(&a), None);
    assert_eq!(definition.take_configuration(&b), Some(2));
    assert!(definition.configurations.is_empty());
}

#[test]
fn stored_values_read_back_what_was_written() {
    let mut value = ValueStorage::<u32>::new("answer");
    assert_eq!(value.value(), None);
    value.begin();
    value.pending().write(42);
    assert_eq!(value.value(), Some(&42));
    assert_eq!(value.validate_complete(), Ok(()));
    assert_eq!(*value.view(), 42);
    value.discard();
    assert_eq!(value.value(), None);

    let mut pair = PairStorage::<u8, &'static str>::new("left", "right");
    pair.begin();
    pair.pending().first.write(7);
    assert_eq!(pair.first(), Some(&7));
    assert_eq!(pair.second(), None);
    assert_eq!(pair.validate_complete(), Err(RunError::IncompleteOutput { resource: "right" }));
    pair.pending().second.write("done");
    assert_eq!(pair.second(), Some(&"done"));
    assert_eq!(pair.validate_complete(), Ok(()));
}
