use std::time::Duration;

use unit_compose::debug::{
    AdapterController, AdapterDescriptor, AdapterError, AdapterFailurePolicy, AdapterOutcome, BoundedRunSink,
    InspectionAdapter,
};
use unit_compose::inspection::FixedModuleDescription;
use unit_compose::report::{DiagnosticSink, RunEvent, RunEventKind, RunReport, TimingOverhead, TimingScope};

fn event(capacity: usize) -> RunEvent {
    RunEvent {
        kind: RunEventKind::Success,
        observed_capacity: capacity,
        elapsed: Duration::ZERO,
        timing_scope: TimingScope::ModuleExecution,
        timing_overhead: TimingOverhead { clock_reads: 2, bounded_report_write_in_elapsed: false },
    }
}

fn capacities<const N: usize>(sink: &BoundedRunSink<N>) -> Vec<usize> {
    sink.events().iter().map(|event| event.observed_capacity).collect()
}

#[test]
fn bounded_sink_keeps_prefix_and_counts_every_drop() {
    let mut sink = BoundedRunSink::<2>::default();
    for capacity in 0..5 {
        sink.record(event(capacity));
    }
    assert_eq!(capacities(&sink), [0, 1]);
    assert_eq!(sink.dropped_events(), 3);
    sink.clear();
    assert_eq!(sink.events().iter().count(), 0);
    assert_eq!(sink.dropped_events(), 0);
}

#[test]
fn bounded_sink_only_corrects_an_event_retained_for_the_current_run() {
    let mut retained = BoundedRunSink::<1>::default();
    retained.record(event(1));
    retained.correct_last(event(3));
    assert_eq!(capacities(&retained), [3]);
    assert_eq!(retained.dropped_events(), 0);

    let mut sink = BoundedRunSink::<1>::default();
    sink.record(event(1));
    sink.record(event(2));
    sink.correct_last(event(3));
    assert_eq!(capacities(&sink), [1]);
    assert_eq!(sink.dropped_events(), 1);

    let mut empty = BoundedRunSink::<0>::default();
    empty.record(event(1));
    empty.correct_last(event(2));
    assert_eq!(empty.events().iter().count(), 0);
    assert_eq!(empty.dropped_events(), 1);
}

struct Fails {}

#[derive(Clone, Copy, Debug)]
struct Failure;

impl InspectionAdapter for Fails {
    type Error = Failure;

    fn descriptor(&self) -> AdapterDescriptor {
        AdapterDescriptor { name: "fails", allocation_domains: &["rust-global"], overhead: "test adapter" }
    }

    fn fixed_description(&mut self, _: &FixedModuleDescription) -> Result<(), Self::Error> {
        Err(Failure)
    }

    fn run_snapshot(&mut self, _: &RunReport) -> Result<(), Self::Error> {
        Err(Failure)
    }

    fn error_text(&self, _: &Failure) -> String {
        "expected failure".to_owned()
    }
}

fn snapshot() -> RunReport {
    RunReport::default()
}

#[test]
fn failure_policy_is_separate_or_disables_adapter() {
    let report = snapshot();
    let mut reporting = AdapterController::new(Fails {}, AdapterFailurePolicy::Report);
    assert!(reporting.run_snapshot(&report).is_err());
    assert!(reporting.is_enabled());

    let mut disabling = AdapterController::new(Fails {}, AdapterFailurePolicy::Disable);
    assert_eq!(disabling.run_snapshot(&report).unwrap(), AdapterOutcome::DisabledAfterFailure);
    assert!(!disabling.is_enabled());
    assert!(disabling.last_error().is_some());
    assert_eq!(disabling.run_snapshot(&report).unwrap(), AdapterOutcome::Disabled);
}

#[test]
fn reported_failure_names_the_adapter_and_its_error() {
    let report = snapshot();
    let mut reporting = AdapterController::new(Fails {}, AdapterFailurePolicy::Report);
    let error = reporting.run_snapshot(&report).err().unwrap();
    assert_eq!(error, AdapterError::Failed { adapter: "fails", message: "expected failure".to_owned() });
    assert_eq!(error.to_text(), "adapter fails failed: expected failure");
    assert!(reporting.last_error().is_none());
}

#[test]
fn disabled_controller_skips_delivery() {
    let report = snapshot();
    let mut controller = AdapterController::new(Fails {}, AdapterFailurePolicy::Report);
    controller.disable();
    assert_eq!(controller.run_snapshot(&report).unwrap(), AdapterOutcome::Disabled);
    assert!(controller.last_error().is_none());
}
