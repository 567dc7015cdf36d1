use unit_compose::frontend::{output_requirements, BoundSources, UnitRequirements};
use unit_compose::ids::{ResourceId, SemanticType, UnitId, UnitTypeName};
use unit_compose::types::{ConcreteType, ResolvedBinding, ResolvedUnit};

fn output(port: &str, resource: &str, semantic: &str) -> ResolvedBinding {
    ResolvedBinding {
        port: port.to_owned(),
        resource: ResourceId::new(resource),
        semantic_type: SemanticType::new(semantic).unwrap(),
        concrete_type: ConcreteType::of::<u32>(),
    }
}

fn unit() -> ResolvedUnit {
    ResolvedUnit {
        id: UnitId::new("source"),
        unit_type: UnitTypeName::new("Source"),
        inputs: vec![],
        outputs: vec![
            output("configured", "a", "test.A/v1"),
            output("hosted", "b", "test.B/v1"),
            output("adapted", "c", "test.C/v1"),
        ],
    }
}

#[test]
fn output_capacity_prefers_configuration_then_host_then_adapter() {
    let resolved = UnitRequirements { output_capacities: vec![("configured".to_owned(), 3), ("configured".to_owned(), 5)], workspace_bytes: 0 };
    let bounds = BoundSources {
        host: vec![(ResourceId::new("a"), 100), (ResourceId::new("b"), 7)],
        adapters: vec![(SemanticType::new("test.B/v1").unwrap(), 50), (SemanticType::new("test.C/v1").unwrap(), 9)],
    };
    let requirements = output_requirements(&unit(), &resolved, &bounds).unwrap();
    let listed: Vec<(&str, usize)> = requirements.iter().map(|(id, q)| (id.as_str(), q.capacity)).collect();
    assert_eq!(listed, vec![("a", 5), ("b", 7), ("c", 9)]);
}

#[test]
fn an_output_without_any_capacity_is_reported_by_its_resource() {
    let resolved = UnitRequirements { output_capacities: vec![("configured".to_owned(), 3)], workspace_bytes: 0 };
    let bounds = BoundSources { host: vec![(ResourceId::new("b"), 7)], adapters: vec![] };
    let missing = output_requirements(&unit(), &resolved, &bounds).unwrap_err();
    assert_eq!(missing.as_str(), "c");
}
