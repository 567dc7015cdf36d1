use unit_compose::module::{check_declared_domains, check_probe_declarations, check_probe_uniqueness, check_unique_domains, UnitWorkspace};
use unit_compose::options::{
    strict_global_allocator_capability, AllocationCapability, AllocationDomain, AllocationEvidence,
    AllocationOperations,
};
use unit_compose::report::{AllocationDomainProbe, RunError};

struct Probe(&'static str);

impl AllocationDomainProbe for Probe {
    fn domain(&self) -> &str {
        self.0
    }

    fn begin(&mut self) {}

    fn finish(&mut self) -> AllocationOperations {
        AllocationOperations::default()
    }
}

fn violation(domain: &str) -> Result<(), RunError> {
    Err(RunError::AllocationProfileViolation { domain: domain.to_owned(), operations: AllocationOperations::default() })
}

#[test]
fn instrumented_domains_need_a_probe_when_profiling() {
    let capability = strict_global_allocator_capability();
    assert_eq!(check_probe_declarations(&capability, &[], true), violation("rust-global"));
    assert_eq!(check_probe_declarations(&capability, &[], false), Ok(()));
    let mut global = Probe("rust-global");
    assert_eq!(check_probe_declarations(&capability, &[&mut global], true), Ok(()));
}

#[test]
fn probes_must_observe_a_declared_instrumented_domain() {
    let capability = strict_global_allocator_capability();
    let mut global = Probe("rust-global");
    let mut gpu = Probe("gpu");
    assert_eq!(check_probe_declarations(&capability, &[&mut global, &mut gpu], true), violation("gpu"));
    let certified = AllocationCapability::inspect(
        vec![AllocationDomain { name: "arena".to_owned(), evidence: AllocationEvidence::Certified { source: "audit".to_owned() } }],
        true,
    );
    let mut arena = Probe("arena");
    assert_eq!(check_probe_declarations(&certified, &[&mut arena], true), violation("arena"));
    assert_eq!(check_probe_declarations(&certified, &[], true), Ok(()));
}

#[test]
fn a_domain_is_probed_at_most_once() {
    let mut first = Probe("rust-global");
    let mut second = Probe("rust-global");
    let mut other = Probe("gpu");
    assert_eq!(check_probe_uniqueness(&[&mut first, &mut other]), Ok(()));
    assert_eq!(check_probe_uniqueness(&[&mut first, &mut other, &mut second]), violation("rust-global"));
}

#[test]
fn workspace_exposes_the_prepared_bytes() {
    let mut bytes = vec![0u8; 5];
    let mut workspace = UnitWorkspace::new(&mut bytes);
    assert_eq!(workspace.len(), 5);
    assert!(!workspace.is_empty());
    workspace.bytes()[2] = 7;
    assert_eq!(bytes[2], 7);
}

#[test]
fn declared_domains_are_checked_by_their_names() {
    let capability = strict_global_allocator_capability();
    assert_eq!(check_declared_domains(&capability, &vec![], true), violation("rust-global"));
    assert_eq!(check_declared_domains(&capability, &vec!["rust-global".to_owned()], true), Ok(()));
    assert_eq!(
        check_declared_domains(&capability, &vec!["rust-global".to_owned(), "disk".to_owned(), "gpu".to_owned()], false),
        violation("disk")
    );
}

#[test]
fn a_repeated_domain_is_named_where_it_repeats() {
    let domains = vec!["a".to_owned(), "b".to_owned(), "a".to_owned(), "b".to_owned()];
    assert_eq!(check_unique_domains(&domains), violation("a"));
    assert_eq!(check_unique_domains(&vec!["a".to_owned(), "b".to_owned()]), Ok(()));
}
