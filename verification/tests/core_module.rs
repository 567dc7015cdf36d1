use std::sync::atomic::{AtomicUsize, Ordering};
use std::sync::Arc;

use unit_compose::descriptor::{ResourceDescriptor, ResourceRegistry};
use unit_compose::ids::{ResourceId, SemanticType};
use unit_compose::module::{
    BoundedPointFilter, BoundedStorage, CallerOutput, CompositeModule, FixedImageFilter, Image, ImageInput,
    OutputStorage, PairStorage, PairWriter, PendingOutputSet, PlannerInput, Plan, Point, PointInput, Unit,
    UnitWorkspace, ValueStorage, ValueWriter, WorkspaceHeavyPlanner,
};
use unit_compose::options::{
    strict_global_allocator_capability, AllocationCapability, AllocationDomain, AllocationEvidence,
    AllocationGuarantee, AllocationOperations, BuildOptionError, BuildOptions, CapacityPolicy, RequirementStatus,
};
use unit_compose::report::{
    CapacityError, FailureDisposition, RunError, TimingScope, UnitExecutionRecorder, UnitFailure,
    UNIT_TIMING_CAPACITY,
};
use unit_compose::storage::{InputValidationError, ModuleInput, PreparedInputPlan, PreparedInputSpec};

struct DropProbe(Arc<AtomicUsize>);

impl Drop for DropProbe {
    fn drop(&mut self) {
        self.0.fetch_add(1, Ordering::SeqCst);
    }
}

struct WritesThenFails(Arc<AtomicUsize>);

struct WritesSuccessfully(Arc<AtomicUsize>);

impl Unit for WritesSuccessfully {
    type Input = ();
    type Storage = ValueStorage<DropProbe>;
    fn workspace_requirement(&self) -> usize {
        0
    }
    fn output_storage(&self) -> Self::Storage {
        ValueStorage::new("probe")
    }
    fn allocation_capability(&self) -> AllocationCapability {
        strict_global_allocator_capability()
    }
    fn run(&mut self, _: &(), output: &mut ValueWriter<DropProbe>, _: UnitWorkspace<'_>) -> Result<(), RunError> {
        output.write(DropProbe(Arc::clone(&self.0)));
        Ok(())
    }
}

impl Unit for WritesThenFails {
    type Input = ();
    type Storage = ValueStorage<DropProbe>;
    fn workspace_requirement(&self) -> usize {
        0
    }
    fn output_storage(&self) -> Self::Storage {
        ValueStorage::new("probe")
    }
    fn allocation_capability(&self) -> AllocationCapability {
        strict_global_allocator_capability()
    }
    fn run(&mut self, _: &(), output: &mut ValueWriter<DropProbe>, _: UnitWorkspace<'_>) -> Result<(), RunError> {
        output.write(DropProbe(Arc::clone(&self.0)));
        Err(RunError::Unit(UnitFailure::recoverable("after initialization")))
    }
}

struct WritesPartialGroup;

impl Unit for WritesPartialGroup {
    type Input = ();
    type Storage = PairStorage<u32, u64>;
    fn workspace_requirement(&self) -> usize {
        0
    }
    fn output_storage(&self) -> Self::Storage {
        PairStorage::new("first", "second")
    }
    fn allocation_capability(&self) -> AllocationCapability {
        strict_global_allocator_capability()
    }
    fn run(&mut self, _: &(), output: &mut PairWriter<u32, u64>, _: UnitWorkspace<'_>) -> Result<(), RunError> {
        output.first.write(7);
        Ok(())
    }
}

/// Reports a panic after writing, as a Unit that unwinds does.
struct WritesProbeThenPanics(Arc<AtomicUsize>);

impl Unit for WritesProbeThenPanics {
    type Input = ();
    type Storage = ValueStorage<DropProbe>;
    fn workspace_requirement(&self) -> usize {
        0
    }
    fn output_storage(&self) -> Self::Storage {
        ValueStorage::new("probe")
    }
    fn allocation_capability(&self) -> AllocationCapability {
        strict_global_allocator_capability()
    }
    fn run(&mut self, _: &(), output: &mut ValueWriter<DropProbe>, _: UnitWorkspace<'_>) -> Result<(), RunError> {
        output.write(DropProbe(Arc::clone(&self.0)));
        Err(RunError::Panic)
    }
}

struct WritesIncompleteProbeGroup(Arc<AtomicUsize>);

impl Unit for WritesIncompleteProbeGroup {
    type Input = ();
    type Storage = PairStorage<DropProbe, u64>;
    fn workspace_requirement(&self) -> usize {
        0
    }
    fn output_storage(&self) -> Self::Storage {
        PairStorage::new("probe", "missing")
    }
    fn allocation_capability(&self) -> AllocationCapability {
        strict_global_allocator_capability()
    }
    fn run(&mut self, _: &(), output: &mut PairWriter<DropProbe, u64>, _: UnitWorkspace<'_>) -> Result<(), RunError> {
        output.first.write(DropProbe(Arc::clone(&self.0)));
        Ok(())
    }
}

struct ValidatesBeforeMutation {
    runs: Arc<AtomicUsize>,
    accept: bool,
}

impl Unit for ValidatesBeforeMutation {
    type Input = ();
    type Storage = ValueStorage<DropProbe>;
    fn workspace_requirement(&self) -> usize {
        0
    }
    fn output_storage(&self) -> Self::Storage {
        ValueStorage::new("validated")
    }
    fn allocation_capability(&self) -> AllocationCapability {
        strict_global_allocator_capability()
    }
    fn validate_input(&self, _: &()) -> Result<(), RunError> {
        if self.accept {
            Ok(())
        } else {
            Err(RunError::InvalidInput { message: "rejected" })
        }
    }
    fn run(&mut self, _: &(), output: &mut ValueWriter<DropProbe>, _: UnitWorkspace<'_>) -> Result<(), RunError> {
        self.runs.fetch_add(1, Ordering::SeqCst);
        output.write(DropProbe(Arc::clone(&self.runs)));
        Ok(())
    }
}

/// Mutates private state and writes, then reports a panic.
struct MutatesThenPanics {
    mutations: usize,
    drops: Arc<AtomicUsize>,
}

impl Unit for MutatesThenPanics {
    type Input = ();
    type Storage = ValueStorage<DropProbe>;
    fn workspace_requirement(&self) -> usize {
        0
    }
    fn output_storage(&self) -> Self::Storage {
        ValueStorage::new("panic")
    }
    fn allocation_capability(&self) -> AllocationCapability {
        strict_global_allocator_capability()
    }
    fn run(&mut self, _: &(), output: &mut ValueWriter<DropProbe>, _: UnitWorkspace<'_>) -> Result<(), RunError> {
        self.mutations += 1;
        output.write(DropProbe(Arc::clone(&self.drops)));
        Err(RunError::Panic)
    }
}

fn fixed() -> CompositeModule<FixedImageFilter> {
    CompositeModule::build(FixedImageFilter { fail: None, panic: false }, BuildOptions::development()).unwrap()
}

#[test]
fn descriptor_is_semantic_and_owns_representation_invariants() {
    let semantic = SemanticType::new("image.Gray8/v1").unwrap();
    let descriptor = ResourceDescriptor::of::<Image>(semantic.clone(), "fixed-value", "exactly four pixels");
    let mut registry = ResourceRegistry::default();
    registry.register(descriptor).unwrap();
    let resolved = registry.get(&semantic).unwrap();
    assert!(resolved.represents::<Image>());
    assert_eq!(resolved.invariants().element_size, 4);
    assert_eq!(resolved.invariants().adapter, "fixed-value");
}

#[test]
fn build_options_reject_false_strict_claim() {
    assert_eq!(
        BuildOptions::try_new(CapacityPolicy::GrowAndMeasure, AllocationGuarantee::NoRunAllocation),
        Err(BuildOptionError::GrowthWithNoRunAllocation)
    );
}

#[test]
fn allocation_trust_is_inspectable_and_explicit() {
    let capability = AllocationCapability::inspect(
        vec![AllocationDomain {
            name: "native".into(),
            evidence: AllocationEvidence::Certified { source: "integrator review 7".into() },
        }],
        true,
    );
    assert!(capability.strict_capable());
    assert!(capability.declarations_are_trusted());
    assert!(matches!(capability.domains()[0].evidence, AllocationEvidence::Certified { .. }));
    let unsupported = AllocationCapability::inspect(
        vec![AllocationDomain { name: "device".into(), evidence: AllocationEvidence::Unsupported }],
        true,
    );
    assert!(!unsupported.strict_capable());
    let unnamed_certification = AllocationCapability::inspect(
        vec![AllocationDomain { name: "native".into(), evidence: AllocationEvidence::Certified { source: "".into() } }],
        true,
    );
    assert!(!unnamed_certification.strict_capable());
}

#[test]
fn fixed_output_is_borrowed_and_storage_resets_each_run() {
    let mut module = fixed();
    let first = [1, 2, 3, 4];
    assert_eq!(module.run(&ImageInput { pixels: first }).unwrap(), &Image(first));
    let second = [5, 6, 7, 8];
    assert_eq!(module.run(&ImageInput { pixels: second }).unwrap(), &Image(second));
}

#[test]
fn description_and_bounded_report_expose_allocation_contract() {
    let mut module = fixed();
    assert_eq!(module.description().requirement_status, RequirementStatus::Bounded);
    assert!(!module.description().warm_up_is_measured);
    assert_eq!(module.description().allocation_capability.domains()[0].name, "rust-global");
    let _ = module.run(&ImageInput { pixels: [1; 4] }).unwrap();
    assert_eq!(module.report().observed_capacity_peak(), 1);
    assert_eq!(module.report().events().iter().count(), 1);
    assert_eq!(module.report().dropped_events(), 0);
    let snapshot = module.report().snapshot();
    let event = snapshot.events().iter().next().unwrap();
    assert_eq!(event.timing_scope, TimingScope::ModuleExecution);
    assert_eq!(event.timing_overhead.clock_reads, 2);
    assert!(!event.timing_overhead.bounded_report_write_in_elapsed);
    assert_eq!(snapshot.observed_capacity_peak(), 1);
    assert_eq!(snapshot.allocation_operations(), AllocationOperations::default());

    module.set_reporting_enabled(false);
    assert!(!module.reporting_enabled());
    let _ = module.run(&ImageInput { pixels: [2; 4] }).unwrap();
    assert_eq!(module.report().events().iter().count(), 0);
    assert_eq!(module.report().observed_capacity_peak(), 0);
    assert_eq!(module.report().allocation_operations(), AllocationOperations::default());
}

#[test]
fn bounded_writer_rejects_overflow_without_growth() {
    let mut storage = BoundedStorage::new("points", 1);
    storage.begin();
    let writer = storage.pending();
    writer.try_push(Point(1, 1)).unwrap();
    assert_eq!(
        writer.try_push(Point(2, 2)),
        Err(CapacityError { resource: "points", required: 2, prepared: 1, policy: CapacityPolicy::RejectOverflow })
    );
}

#[test]
fn development_capacity_policy_grows_and_reports_observed_peak() {
    let mut module = CompositeModule::build(BoundedPointFilter { maximum: 1 }, BuildOptions::development()).unwrap();
    let output = module.run(&PointInput { points: vec![Point(1, 1), Point(2, 2)] }).unwrap();
    assert_eq!(output.len(), 2);
    assert_eq!(module.report().observed_capacity_peak(), 2);
}

#[test]
fn incomplete_output_set_is_not_published() {
    let mut storage = ValueStorage::<Image>::new("image");
    storage.begin();
    let writer = storage.pending();
    assert_eq!(writer.validate_complete(), Err(RunError::IncompleteOutput { resource: "image" }));
}

#[test]
fn complete_group_validation_discards_initialized_siblings() {
    let mut module = CompositeModule::build(WritesPartialGroup, BuildOptions::development()).unwrap();
    assert_eq!(module.run(&()).err(), Some(RunError::IncompleteOutput { resource: "second" }));
    assert!(module.storage().first().is_none());
    assert!(module.storage().second().is_none());
}

#[test]
fn module_preserves_structured_capacity_overflow() {
    let options = BuildOptions::try_new(CapacityPolicy::RejectOverflow, AllocationGuarantee::BestEffort).unwrap();
    let mut module = CompositeModule::build(BoundedPointFilter { maximum: 1 }, options).unwrap();
    assert_eq!(
        module.run(&PointInput { points: vec![Point(1, 1), Point(2, 2)] }).err(),
        Some(RunError::Capacity(CapacityError {
            resource: "filtered_points",
            required: 2,
            prepared: 1,
            policy: CapacityPolicy::RejectOverflow
        }))
    );
}

#[test]
fn initialized_pending_value_is_dropped_immediately_on_error() {
    let drops = Arc::new(AtomicUsize::new(0));
    let mut module = CompositeModule::build(WritesThenFails(Arc::clone(&drops)), BuildOptions::development()).unwrap();
    assert!(matches!(module.run(&()), Err(RunError::Unit(_))));
    assert_eq!(drops.load(Ordering::SeqCst), 1);
}

#[test]
fn initialized_pending_values_drop_on_validation_error_and_unwind() {
    let validation_drops = Arc::new(AtomicUsize::new(0));
    let mut incomplete =
        CompositeModule::build(WritesIncompleteProbeGroup(Arc::clone(&validation_drops)), BuildOptions::development())
            .unwrap();
    assert!(matches!(incomplete.run(&()), Err(RunError::IncompleteOutput { resource: "missing" })));
    assert_eq!(validation_drops.load(Ordering::SeqCst), 1);

    let panic_drops = Arc::new(AtomicUsize::new(0));
    let mut panics =
        CompositeModule::build(WritesProbeThenPanics(Arc::clone(&panic_drops)), BuildOptions::development()).unwrap();
    assert!(matches!(panics.run(&()), Err(RunError::Panic)));
    assert_eq!(panic_drops.load(Ordering::SeqCst), 1);
    assert!(matches!(panics.run(&()), Err(RunError::Poisoned)));
}

#[test]
fn recoverable_failure_allows_another_run_and_invalidates_run_into() {
    let mut module = CompositeModule::build(
        FixedImageFilter { fail: Some(FailureDisposition::Recoverable), panic: false },
        BuildOptions::development(),
    )
    .unwrap();
    let pixels = [1, 2, 3, 4];
    let mut target = CallerOutput::new(Image([9; 4]));
    assert!(matches!(module.run_into(&ImageInput { pixels }, &mut target), Err(RunError::Unit(_))));
    assert!(!target.is_valid());
    assert_eq!(target.raw(), &Image([9; 4]));
    module.unit_mut().fail = None;
    module.run_into(&ImageInput { pixels }, &mut target).unwrap();
    assert_eq!(target.get(), Some(&Image(pixels)));
}

#[test]
fn run_into_invalidates_caller_storage_on_all_failure_paths() {
    let mut incomplete = CompositeModule::build(WritesPartialGroup, BuildOptions::development()).unwrap();
    let mut pair_target = CallerOutput::new((9u32, 11u64));
    assert!(matches!(
        incomplete.run_into(&(), &mut pair_target),
        Err(RunError::IncompleteOutput { resource: "second" })
    ));
    assert!(!pair_target.is_valid());
    assert_eq!(pair_target.raw(), &(9, 11));

    let mut panics =
        CompositeModule::build(FixedImageFilter { fail: None, panic: true }, BuildOptions::development()).unwrap();
    let mut image_target = CallerOutput::new(Image([9; 4]));
    assert_eq!(panics.run_into(&ImageInput { pixels: [1; 4] }, &mut image_target), Err(RunError::Panic));
    assert!(!image_target.is_valid());
    assert_eq!(image_target.raw(), &Image([9; 4]));
    assert!(matches!(
        panics.run_into(&ImageInput { pixels: [1; 4] }, &mut image_target),
        Err(RunError::Poisoned)
    ));
}

#[test]
fn fatal_failure_and_unwind_poison_module() {
    let pixels = [1, 2, 3, 4];
    let mut fatal = CompositeModule::build(
        FixedImageFilter { fail: Some(FailureDisposition::Fatal), panic: false },
        BuildOptions::development(),
    )
    .unwrap();
    assert!(matches!(fatal.run(&ImageInput { pixels }), Err(RunError::Unit(_))));
    assert_eq!(fatal.run(&ImageInput { pixels }).err(), Some(RunError::Poisoned));

    let mut panics =
        CompositeModule::build(FixedImageFilter { fail: None, panic: true }, BuildOptions::development()).unwrap();
    assert_eq!(panics.run(&ImageInput { pixels }).err(), Some(RunError::Panic));
    assert_eq!(panics.run(&ImageInput { pixels }).err(), Some(RunError::Poisoned));
}

#[test]
fn synthetic_bounded_and_workspace_units_use_prepared_storage() {
    let options = BuildOptions::try_new(CapacityPolicy::RejectOverflow, AllocationGuarantee::BestEffort).unwrap();
    let mut filter = CompositeModule::build(BoundedPointFilter { maximum: 2 }, options).unwrap();
    assert_eq!(filter.run(&PointInput { points: vec![Point(-1, 0), Point(2, 3)] }).unwrap(), &[Point(2, 3)]);

    let mut planner = CompositeModule::build(WorkspaceHeavyPlanner { workspace_bytes: 128 }, options).unwrap();
    assert_eq!(planner.run(&PlannerInput { seed: 2 }).unwrap(), &Plan(256));
}

#[test]
fn successful_publication_drops_once_on_next_reset() {
    let drops = Arc::new(AtomicUsize::new(0));
    let mut module = CompositeModule::build(WritesSuccessfully(Arc::clone(&drops)), BuildOptions::development()).unwrap();
    let _ = module.run(&()).unwrap();
    assert_eq!(drops.load(Ordering::SeqCst), 0);
    let _ = module.run(&()).unwrap();
    assert_eq!(drops.load(Ordering::SeqCst), 1);
    drop(module);
    assert_eq!(drops.load(Ordering::SeqCst), 2);
}

#[test]
fn invalid_input_precedes_reset_and_business_logic_and_is_reusable() {
    let counter = Arc::new(AtomicUsize::new(0));
    let mut module = CompositeModule::build(
        ValidatesBeforeMutation { runs: Arc::clone(&counter), accept: true },
        BuildOptions::development(),
    )
    .unwrap();
    {
        let _borrow = module.run(&()).unwrap();
    }
    module.unit_mut().accept = false;
    assert!(matches!(module.run(&()), Err(RunError::InvalidInput { message: "rejected" })));
    assert_eq!(counter.load(Ordering::SeqCst), 1);
    assert!(module.storage().value().is_some());
    module.unit_mut().accept = true;
    assert!(module.run(&()).is_ok());
}

#[test]
fn prepared_input_validation_checks_full_contract_before_run() {
    let semantic = SemanticType::new("test.Input/v1").unwrap();
    let resource = ResourceId::new("source");
    let plan =
        PreparedInputPlan::new(vec![PreparedInputSpec::of::<u32>(resource.clone(), semantic.clone(), 4, 17)]).unwrap();
    let counter = Arc::new(AtomicUsize::new(0));
    let mut module = CompositeModule::build(
        ValidatesBeforeMutation { runs: Arc::clone(&counter), accept: true },
        BuildOptions::development(),
    )
    .unwrap();
    let bad = [ModuleInput::of::<u64>(resource.clone(), semantic.clone(), 4, 17)];
    assert!(matches!(
        module.run_checked(&plan, &bad, &()),
        Err(RunError::Input(InputValidationError::ConcreteType { .. }))
    ));
    assert_eq!(counter.load(Ordering::SeqCst), 0);
    assert!(module.storage().value().is_none());

    let good = [ModuleInput::of::<u32>(resource, semantic, 4, 17)];
    assert!(module.run_checked(&plan, &good, &()).is_ok());
    assert_eq!(counter.load(Ordering::SeqCst), 1);
}

#[test]
fn prepared_input_plan_rejects_duplicate_names() {
    let semantic = SemanticType::new("test.Input/v1").unwrap();
    let resource = ResourceId::new("source");
    assert!(matches!(
        PreparedInputPlan::new(vec![
            PreparedInputSpec::of::<u32>(resource.clone(), semantic.clone(), 4, 17),
            PreparedInputSpec::of::<u32>(resource.clone(), semantic, 4, 17),
        ]),
        Err(InputValidationError::DuplicatePrepared { resource: duplicate })
            if duplicate == resource
    ));
}

#[test]
fn unwind_after_private_mutation_drops_pending_and_poisons() {
    let drops = Arc::new(AtomicUsize::new(0));
    let mut module =
        CompositeModule::build(MutatesThenPanics { mutations: 0, drops: Arc::clone(&drops) }, BuildOptions::development())
            .unwrap();
    assert!(matches!(module.run(&()), Err(RunError::Panic)));
    assert_eq!(module.unit().mutations, 1);
    assert_eq!(drops.load(Ordering::SeqCst), 1);
    assert!(matches!(module.run(&()), Err(RunError::Poisoned)));
}

#[test]
fn module_timing_overhead_counts_dropped_unit_events() {
    let mut timings = UnitExecutionRecorder::new(std::time::Instant::now(), true);
    for ordinal in 0..20 {
        timings.measure(ordinal, || Ok(())).unwrap();
    }
    assert_eq!(timings.events().len(), UNIT_TIMING_CAPACITY);
    assert_eq!(timings.dropped_events(), 4);
    assert_eq!(timings.module_clock_reads(), 42);
}

#[test]
fn bounded_filter_keeps_what_fits_before_reporting_overflow() {
    let mut storage = BoundedStorage::<Point>::new("filtered_points", 2);
    storage.begin();
    let mut filter = BoundedPointFilter { maximum: 2 };
    let mut bytes = Vec::new();
    let input = PointInput { points: vec![Point(1, 0), Point(-4, 0), Point(2, 0), Point(3, 0)] };
    let result = filter.run(&input, storage.pending(), UnitWorkspace::new(&mut bytes));
    assert_eq!(
        result,
        Err(RunError::Capacity(CapacityError {
            resource: "filtered_points",
            required: 3,
            prepared: 2,
            policy: CapacityPolicy::RejectOverflow,
        }))
    );
    assert_eq!(storage.values(), &vec![Point(1, 0), Point(2, 0)]);
    assert_eq!(storage.observed_capacity(), 2);
    storage.discard();
    assert_eq!(storage.observed_capacity(), 0);
}

#[test]
fn planner_sums_its_seeded_workspace_with_wrapping() {
    let mut output = ValueStorage::<Plan>::new("plan");
    output.begin();
    let mut bytes = vec![0u8; 5];
    let mut planner = WorkspaceHeavyPlanner { workspace_bytes: 5 };
    assert_eq!(planner.run(&PlannerInput { seed: 7 }, output.pending(), UnitWorkspace::new(&mut bytes)), Ok(()));
    assert_eq!(output.value(), Some(&Plan(35)));
    assert_eq!(bytes, vec![7u8; 5]);
}
