use unit_compose::dense::DenseGraph;
use unit_compose::descriptor::{ResourceDescriptor, ResourceRegistry};
use unit_compose::ids::{ResourceId, SemanticType, UnitId, UnitTypeName};
use unit_compose::module::BuildError;
use unit_compose::options::CapacityPolicy;
use unit_compose::report::RunError;
use unit_compose::resolve::{FactoryError, UnitRegistry};
use unit_compose::runtime::{HostOutput, InputBindingError, ModuleInputs, PublicationBook};
use unit_compose::runtime_plan::{
    allocate_slots, check_disjoint_bindings, check_slot_aliasing, is_module_input, resource_policies, validate_unit_descriptors,
    SlotSpec, NO_RUNTIME_SLOT,
};
use unit_compose::storage::{plan_storage, ResourceRequirement};
use unit_compose::types::{ConcreteType, ParsedModule, ParsedModuleInput, ParsedUnit, PortDescriptor, UnitDescriptor};

fn words() -> SemanticType {
    SemanticType::new("test.Words/v1").unwrap()
}

fn fixed_words() -> SemanticType {
    SemanticType::new("test.FixedWords/v1").unwrap()
}

fn registries() -> (UnitRegistry, ResourceRegistry) {
    let mut resources = ResourceRegistry::default();
    resources.register(ResourceDescriptor::bounded_buffer::<Vec<u32>, u32>(words(), "words", "bounded")).unwrap();
    resources.register(ResourceDescriptor::fixed_buffer::<Vec<u32>, u32>(fixed_words(), "fixed", "exact")).unwrap();
    let mut units = UnitRegistry::default();
    units
        .register(UnitDescriptor {
            unit_type: UnitTypeName::new("test.map/v1"),
            inputs: vec![PortDescriptor::of::<Vec<u32>>("in", words())],
            outputs: vec![PortDescriptor::of::<Vec<u32>>("out", words())],
        })
        .unwrap();
    units
        .register(UnitDescriptor {
            unit_type: UnitTypeName::new("test.fix/v1"),
            inputs: vec![PortDescriptor::of::<Vec<u32>>("in", words())],
            outputs: vec![PortDescriptor::of::<Vec<u32>>("out", fixed_words())],
        })
        .unwrap();
    (units, resources)
}

fn map(id: &str, unit_type: &str, input: &str, output: &str) -> ParsedUnit {
    ParsedUnit {
        id: UnitId::new(id),
        unit_type: UnitTypeName::new(unit_type),
        inputs: vec![("in".into(), ResourceId::new(input))],
        outputs: vec![("out".into(), ResourceId::new(output))],
    }
}

/// `source -> a -> first -> b -> second -> c -> third` (c makes fixed words).
fn chain() -> (DenseGraph, UnitRegistry, ResourceRegistry, unit_compose::types::CompiledGraph) {
    let (units, resources) = registries();
    let module = ParsedModule {
        schema: "unit-compose/v0alpha1".into(),
        name: "chain".into(),
        inputs: vec![ParsedModuleInput { resource: ResourceId::new("source"), semantic_type: words() }],
        units: vec![
            map("a", "test.map/v1", "source", "first"),
            map("b", "test.map/v1", "first", "second"),
            map("c", "test.fix/v1", "second", "third"),
        ],
        outputs: vec![ResourceId::new("third")],
    };
    let graph = module.resolve(&units, &resources).unwrap().compile().unwrap();
    let dense = graph.clone().into_dense(7).unwrap();
    (dense, units, resources, graph)
}

fn requirements() -> Vec<(ResourceId, ResourceRequirement)> {
    vec![
        (ResourceId::new("source"), ResourceRequirement { capacity: 2 }),
        (ResourceId::new("first"), ResourceRequirement { capacity: 3 }),
        (ResourceId::new("second"), ResourceRequirement { capacity: 5 }),
        (ResourceId::new("third"), ResourceRequirement { capacity: 1 }),
        (ResourceId::new("first"), ResourceRequirement { capacity: 4 }),
    ]
}

fn position(dense: &DenseGraph, id: &str) -> usize {
    dense.resources.iter().position(|r| r.id.as_str() == id).unwrap()
}

#[test]
fn unplanned_layout_gives_each_stored_resource_its_own_slot() {
    let (dense, _, resources, _) = chain();
    let layout = allocate_slots(&dense, &requirements(), None, &resources, CapacityPolicy::GrowAndMeasure).unwrap();
    let source = position(&dense, "source");
    assert!(is_module_input(&dense, source));
    assert_eq!(layout.resource_slots[source], NO_RUNTIME_SLOT);
    assert_eq!(layout.slots.len(), 3);
    for name in ["first", "second", "third"] {
        let index = position(&dense, name);
        let slot = layout.resource_slots[index];
        assert_eq!(layout.slots[slot].representative, index);
        assert_eq!(layout.slots[slot].capacity, layout.resource_capacities[index]);
    }
    // The last recorded requirement of a Resource counts.
    assert_eq!(layout.resource_capacities[position(&dense, "first")], 4);
    assert_eq!(layout.resource_capacities[source], 2);
    // Fixed buffers always reject overflow.
    assert_eq!(layout.resource_policies[position(&dense, "third")], CapacityPolicy::RejectOverflow);
    assert_eq!(layout.resource_policies[position(&dense, "first")], CapacityPolicy::GrowAndMeasure);
}

#[test]
fn unplanned_layout_requires_every_requirement() {
    let (dense, _, resources, _) = chain();
    let partial = vec![(ResourceId::new("source"), ResourceRequirement { capacity: 2 })];
    assert!(matches!(
        allocate_slots(&dense, &partial, None, &resources, CapacityPolicy::GrowAndMeasure),
        Err(BuildError::RuntimePreparation { message }) if message == "missing requirement for first"
    ));
}

#[test]
fn planned_layout_shares_slots_with_the_largest_capacity() {
    let (dense, _, resources, graph) = chain();
    let plan = plan_storage(&graph, &resources, &requirements()).unwrap();
    let layout = allocate_slots(&dense, &requirements(), Some(&plan), &resources, CapacityPolicy::RejectOverflow).unwrap();
    assert_eq!(layout.slots.len(), plan.report().slot_count);
    let first = position(&dense, "first");
    for assignment in &plan.report().assignments {
        let index = position(&dense, assignment.resource.as_str());
        assert_eq!(layout.resource_slots[index], assignment.slot);
        assert_eq!(layout.resource_capacities[index], assignment.capacity);
        assert!(layout.slots[assignment.slot].capacity >= assignment.capacity);
    }
    assert_eq!(layout.resource_slots[position(&dense, "source")], NO_RUNTIME_SLOT);
    let slot = layout.resource_slots[first];
    assert_eq!(layout.slots[slot], SlotSpec { representative: first, capacity: layout.slots[slot].capacity });
}

#[test]
fn missing_descriptor_is_a_preparation_error() {
    let (dense, _, _, _) = chain();
    let empty = ResourceRegistry::default();
    assert!(matches!(
        allocate_slots(&dense, &requirements(), None, &empty, CapacityPolicy::GrowAndMeasure),
        Err(BuildError::RuntimePreparation { .. })
    ));
    assert!(resource_policies(&dense, &empty, CapacityPolicy::GrowAndMeasure).is_err());
}

#[test]
fn unit_descriptors_must_match_the_compiled_port_order() {
    let (dense, units, _, _) = chain();
    assert!(validate_unit_descriptors(&dense, &units).is_ok());
    let mut reordered = UnitRegistry::default();
    reordered
        .register(UnitDescriptor {
            unit_type: UnitTypeName::new("test.map/v1"),
            inputs: vec![PortDescriptor::of::<Vec<u8>>("in", words())],
            outputs: vec![PortDescriptor::of::<Vec<u32>>("out", words())],
        })
        .unwrap();
    assert!(matches!(
        validate_unit_descriptors(&dense, &reordered),
        Err(BuildError::Factory(FactoryError::UnknownUnitType { .. })) | Err(BuildError::RuntimePreparation { .. })
    ));
    reordered
        .register(UnitDescriptor {
            unit_type: UnitTypeName::new("test.fix/v1"),
            inputs: vec![PortDescriptor::of::<Vec<u32>>("in", words())],
            outputs: vec![PortDescriptor::of::<Vec<u32>>("out", fixed_words())],
        })
        .unwrap();
    assert!(matches!(
        validate_unit_descriptors(&dense, &reordered),
        Err(BuildError::RuntimePreparation { message }) if message == "Unit a (test.map/v1) ordered input port contract differs at ordinal 0"
    ));
}

#[test]
fn module_inputs_must_match_plan_set_and_types() {
    let (dense, _, _, _) = chain();
    let handle = dense.input_handle::<Vec<u32>>(&ResourceId::new("source")).unwrap();
    let mut inputs = ModuleInputs::with_capacity(1);
    assert!(matches!(
        inputs.validate(&dense),
        Err(RunError::RuntimeBinding { message }) if message == "module inputs do not exactly match required inputs"
    ));
    inputs.bind(&handle).unwrap();
    assert!(inputs.validate(&dense).is_ok());
    assert_eq!(inputs.bind(&handle), Err(InputBindingError::Duplicate { resource: handle.resource() }));

    let other = chain().0;
    let _ = other;
    let (foreign, _, _, _) = {
        let (units, resources) = registries();
        let module = ParsedModule {
            schema: "unit-compose/v0alpha1".into(),
            name: "chain".into(),
            inputs: vec![ParsedModuleInput { resource: ResourceId::new("source"), semantic_type: words() }],
            units: vec![map("a", "test.map/v1", "source", "first")],
            outputs: vec![ResourceId::new("first")],
        };
        let graph = module.resolve(&units, &resources).unwrap().compile().unwrap();
        (graph.clone().into_dense(8).unwrap(), units, resources, graph)
    };
    assert!(matches!(
        inputs.validate(&foreign),
        Err(RunError::RuntimeBinding { message }) if message == "input handle belongs to a different graph plan"
    ));
    inputs.clear();
    assert!(inputs.bindings().is_empty());
    let _ = ConcreteType::of::<u8>();
}

#[test]
fn host_output_is_valid_only_after_a_completed_copy() {
    let mut target = HostOutput::new(5u32);
    assert!(!target.is_valid());
    assert_eq!(target.get(), None);
    *target.storage_mut() = 9;
    assert_eq!(target.get(), None);
    assert_eq!(target.raw(), &9);
    target.mark_valid();
    assert_eq!(target.get(), Some(&9));
    target.invalidate();
    assert!(!target.is_valid());
}

#[test]
fn latest_publication_into_a_shared_slot_wins() {
    let mut book = PublicationBook::new(vec![NO_RUNTIME_SLOT, 0, 0, 1], 2);
    assert!(book.require_published(1).is_err());
    book.publish(1);
    assert!(book.require_published(1).is_ok());
    book.publish(3);
    assert!(book.require_published(1).is_ok());
    book.publish(2);
    assert!(book.require_published(2).is_ok());
    assert!(matches!(
        book.require_published(1),
        Err(RunError::RuntimeBinding { message }) if message == "Resource index 1 is unpublished"
    ));
    assert!(book.require_published(3).is_ok());
    assert!(matches!(
        book.require_published(0),
        Err(RunError::RuntimeBinding { message }) if message == "Resource index 0 has no runtime slot"
    ));
    book.invalidate();
    assert!(book.require_published(2).is_err());
}

#[test]
fn compiled_units_have_disjoint_bindings() {
    let (dense, _, _, _) = chain();
    assert_eq!(check_disjoint_bindings(&dense), Ok(()));
}

#[test]
fn a_unit_writing_what_it_reads_is_rejected() {
    let (mut dense, _, _, _) = chain();
    let looped = dense.units[1].inputs[0].clone();
    dense.units[1].outputs.push(looped);
    let unit = dense.units[1].id.as_str().to_owned();
    assert_eq!(
        check_disjoint_bindings(&dense),
        Err(BuildError::RuntimePreparation {
            message: format!("Unit {unit} does not have disjoint live inputs and pending outputs")
        })
    );
}

#[test]
fn an_input_slot_shared_with_an_output_is_rejected() {
    let (dense, _, _, _) = chain();
    let mut slots = vec![NO_RUNTIME_SLOT; dense.resources.len()];
    slots[position(&dense, "first")] = 0;
    slots[position(&dense, "second")] = 1;
    slots[position(&dense, "third")] = 0;
    assert_eq!(check_slot_aliasing(&dense, &slots), Ok(()));
    slots[position(&dense, "third")] = 1;
    let unit = dense
        .units
        .iter()
        .find(|u| u.outputs[0].resource.get() == position(&dense, "third"))
        .unwrap()
        .id
        .as_str()
        .to_owned();
    assert_eq!(
        check_slot_aliasing(&dense, &slots),
        Err(BuildError::RuntimePreparation { message: format!("Unit {unit} has aliased live input and pending output slots") })
    );
}
