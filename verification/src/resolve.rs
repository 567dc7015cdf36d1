//! Unit contract registration and name resolution: a parsed Module becomes a
//! resolved Module whose bindings carry semantic and concrete types.

use vstd::prelude::*;

use crate::descriptor::ResourceRegistry;
use crate::ids::{ResourceId, UnitId, UnitTypeName};

use crate::text::{lemma_seq_lt_total, lemma_seq_lt_irreflexive, seq_lt, text_lt};
use crate::types::{CompileError, ParsedModule, ParsedUnit, PortDescriptor, ResolvedBinding, ResolvedModule, ResolvedModuleInput, ResolvedUnit, UnitDescriptor};

verus! {

/// Failure of a decoded configuration or of resolving its requirements.
#[derive(Clone, Debug, PartialEq, Eq)]
pub enum ConfigurationError {
    UnknownField { path: String, field: String },
    Invalid { path: String, message: String },
    SourceType { unit_type: UnitTypeName, expected: String },
    ConfigurationType { unit_type: UnitTypeName, expected: String, actual: String },
    UnresolvedRequirement { path: String, message: String },
}

/// Failure of constructing a registered implementation.
#[derive(Clone, Debug, PartialEq, Eq)]
pub enum FactoryError {
    UnknownUnitType { unit_type: UnitTypeName },
    MissingFactory { unit_type: UnitTypeName },
    ConfigurationType { unit_type: UnitTypeName, expected: String, actual: String },
    Construction { unit_type: UnitTypeName, message: String },
    ImplementationType { unit_type: UnitTypeName, expected: String, actual: String },
    MissingExecutor { unit_type: UnitTypeName },
    ExecutorImplementationType { unit_type: UnitTypeName, registered: String, executor: String },
}

/// Registration failure detected before a Module can be constructed.
#[derive(Clone, Debug, PartialEq, Eq)]
pub enum RegistrationError {
    Compile(Box<CompileError>),
    DuplicateUnitType { unit_type: UnitTypeName },
    UnknownUnitType { unit_type: UnitTypeName },
    DuplicateFactory { unit_type: UnitTypeName },
    FactoryConfigurationType { unit_type: UnitTypeName, registered: String, factory: String },
    DuplicateExecutor { unit_type: UnitTypeName },
    ExecutorImplementationType { unit_type: UnitTypeName, registered: String, executor: String },
}

/// Port names of a descriptor list are pairwise distinct.
pub open spec fn port_names_distinct(ports: Seq<PortDescriptor>) -> bool {
    forall|a: int, b: int| 0 <= a < b < ports.len() ==> #[trigger] ports[a].name@ != #[trigger] ports[b].name@
}

/// A descriptor declares each input and each output port once.
pub open spec fn descriptor_valid(d: UnitDescriptor) -> bool {
    port_names_distinct(d.inputs@) && port_names_distinct(d.outputs@)
}

fn names_distinct(ports: &Vec<PortDescriptor>) -> (r: bool)
    ensures
        r == port_names_distinct(ports@),
{
    let mut b: usize = 0;
    while b < ports.len()
        invariant
            b <= ports@.len(),
            forall|x: int, y: int| 0 <= x < y < b ==> #[trigger] ports@[x].name@ != #[trigger] ports@[y].name@,
        decreases ports@.len() - b,
    {
        let mut a: usize = 0;
        while a < b
            invariant
                a <= b < ports@.len(),
                forall|x: int, y: int| 0 <= x < y < b ==> #[trigger] ports@[x].name@ != #[trigger] ports@[y].name@,
                forall|x: int| 0 <= x < a ==> #[trigger] ports@[x].name@ != ports@[b as int].name@,
            decreases b - a,
        {
            if ports[a].name == ports[b].name {
                return false;
            }
            a = a + 1;
        }
        b = b + 1;
    }
    true
}

/// Rejects a descriptor that declares a port name twice on one side.
pub fn validate_descriptor_ports(descriptor: &UnitDescriptor) -> (r: Result<(), CompileError>)
    ensures
        r is Ok <==> descriptor_valid(*descriptor),
        r matches Err(e) ==> e is DuplicateDescriptorPort && e->DuplicateDescriptorPort_unit_type@
            == descriptor.unit_type@,
{
    if names_distinct(&descriptor.inputs) && names_distinct(&descriptor.outputs) {
        Ok(())
    } else {
        Err(CompileError::DuplicateDescriptorPort { unit_type: descriptor.unit_type.clone() })
    }
}

/// Registry of Unit contracts compiled into a host binary: at most one
/// descriptor per Unit type name.
pub struct UnitRegistry {
    descriptors: Vec<UnitDescriptor>,
}

impl UnitRegistry {
    /// The registered descriptors in registration order.
    pub closed spec fn entries(&self) -> Seq<UnitDescriptor> {
        self.descriptors@
    }

    /// Names are registered once and every descriptor is valid.
    pub open spec fn wf(&self) -> bool {
        &&& forall|i: int, j: int|
            0 <= i < j < self.entries().len() ==> #[trigger] self.entries()[i].unit_type@
                != #[trigger] self.entries()[j].unit_type@
        &&& forall|i: int| 0 <= i < self.entries().len() ==> descriptor_valid(#[trigger] self.entries()[i])
    }

    /// A descriptor named `name` is registered.
    pub open spec fn knows(&self, name: Seq<char>) -> bool {
        exists|i: int| 0 <= i < self.entries().len() && #[trigger] self.entries()[i].unit_type@ == name
    }

    /// An empty registry.
    pub fn new() -> (r: Self)
        ensures
            r.wf(),
            r.entries().len() == 0,
    {
        UnitRegistry { descriptors: Vec::new() }
    }

    fn find(&self, name: &UnitTypeName) -> (r: Option<usize>)
        ensures
            r is None <==> !self.knows(name@),
            r matches Some(i) ==> i < self.entries().len() && self.entries()[i as int].unit_type@ == name@,
    {
        let mut i: usize = 0;
        while i < self.descriptors.len()
            invariant
                i <= self.descriptors@.len(),
                forall|k: int| 0 <= k < i ==> #[trigger] self.entries()[k].unit_type@ != name@,
            decreases self.descriptors@.len() - i,
        {
            if self.descriptors[i].unit_type == *name {
                assert(self.entries()[i as int].unit_type@ == name@);
                return Some(i);
            }
            i = i + 1;
        }
        None
    }

    /// Registers the graph contract of one Unit type: its ports are validated
    /// first, then the name must be new.
    pub fn register(&mut self, descriptor: UnitDescriptor) -> (r: Result<(), RegistrationError>)
        requires
            old(self).wf(),
        ensures
            final(self).wf(),
            r is Ok <==> descriptor_valid(descriptor) && !old(self).knows(descriptor.unit_type@),
            r is Ok ==> final(self).entries() == old(self).entries().push(descriptor),
            r is Err ==> final(self).entries() == old(self).entries(),
            r matches Err(RegistrationError::Compile(e)) ==> !descriptor_valid(descriptor)
                && (*e) is DuplicateDescriptorPort && (*e)->DuplicateDescriptorPort_unit_type@
                == descriptor.unit_type@,
            r matches Err(RegistrationError::DuplicateUnitType { unit_type }) ==> descriptor_valid(descriptor)
                && unit_type@ == descriptor.unit_type@ && old(self).knows(descriptor.unit_type@),
            r matches Err(e) ==> e is Compile || e is DuplicateUnitType,
    {
        match validate_descriptor_ports(&descriptor) {
            Ok(()) => {},
            Err(e) => {
                return Err(RegistrationError::Compile(Box::new(e)));
            },
        }
        match self.find(&descriptor.unit_type) {
            Some(_) => Err(RegistrationError::DuplicateUnitType { unit_type: descriptor.unit_type.clone() }),
            None => {
                let ghost before = self.entries();
                self.descriptors.push(descriptor);
                proof {
                    assert forall|i: int, j: int|
                        0 <= i < j < self.entries().len() implies #[trigger] self.entries()[i].unit_type@
                            != #[trigger] self.entries()[j].unit_type@ by {
                        assert(self.entries()[i] == before[i]);
                        if j < before.len() {
                            assert(self.entries()[j] == before[j]);
                        }
                    }
                    assert forall|i: int| 0 <= i < self.entries().len() implies descriptor_valid(#[trigger] self.entries()[i]) by {
                        if i < before.len() {
                            assert(self.entries()[i] == before[i]);
                        }
                    }
                }
                Ok(())
            },
        }
    }

    /// The descriptor registered under `name`.
    pub fn get(&self, name: &UnitTypeName) -> (r: Option<&UnitDescriptor>)
        requires
            self.wf(),
        ensures
            r is None <==> !self.knows(name@),
            r matches Some(d) ==> d.unit_type@ == name@ && self.entries().contains(*d),
    {
        match self.find(name) {
            Some(i) => Some(&self.descriptors[i]),
            None => None,
        }
    }
}

impl Default for UnitRegistry {
    fn default() -> (r: Self)
        ensures
            r.wf(),
            r.entries().len() == 0,
    {
        UnitRegistry::new()
    }
}

/// Binding names supplied for a port list are pairwise distinct.
pub open spec fn supplied_distinct(bindings: Seq<(String, ResourceId)>) -> bool {
    forall|a: int, b: int| 0 <= a < b < bindings.len() ==> #[trigger] bindings[a].0@ != #[trigger] bindings[b].0@
}

/// Some binding names port `name`.
pub open spec fn supplied(bindings: Seq<(String, ResourceId)>, name: Seq<char>) -> bool {
    exists|k: int| 0 <= k < bindings.len() && #[trigger] bindings[k].0@ == name
}

/// Some descriptor port is named `name`.
pub open spec fn declared(ports: Seq<PortDescriptor>, name: Seq<char>) -> bool {
    exists|k: int| 0 <= k < ports.len() && #[trigger] ports[k].name@ == name
}

/// Port `d` resolves: it is bound, its semantic type is registered, and the
/// registered representation is the port's.
pub open spec fn port_resolvable(bindings: Seq<(String, ResourceId)>, d: PortDescriptor, resources: ResourceRegistry) -> bool {
    &&& supplied(bindings, d.name@)
    &&& resources.registers(d.semantic_type@, d.concrete_type)
}

/// Every binding names a declared port, names are distinct, and every port resolves.
pub open spec fn bindings_resolvable(bindings: Seq<(String, ResourceId)>, ports: Seq<PortDescriptor>, resources: ResourceRegistry) -> bool {
    &&& supplied_distinct(bindings)
    &&& forall|k: int| 0 <= k < bindings.len() ==> declared(ports, (#[trigger] bindings[k]).0@)
    &&& forall|k: int| 0 <= k < ports.len() ==> port_resolvable(bindings, #[trigger] ports[k], resources)
}

/// `b` is port `d` bound to the Resource its binding names.
pub open spec fn binding_for(bindings: Seq<(String, ResourceId)>, d: PortDescriptor, b: ResolvedBinding) -> bool {
    &&& b.port@ == d.name@
    &&& b.semantic_type@ == d.semantic_type@
    &&& b.concrete_type == d.concrete_type
    &&& exists|k: int| 0 <= k < bindings.len() && #[trigger] bindings[k].0@ == d.name@ && bindings[k].1@ == b.resource@
}

/// `b` is one of the ports of `ports`, bound as `bindings` say.
pub open spec fn bound_port(bindings: Seq<(String, ResourceId)>, ports: Seq<PortDescriptor>, b: ResolvedBinding) -> bool {
    exists|j: int| 0 <= j < ports.len() && #[trigger] binding_for(bindings, ports[j], b)
}

/// `out` binds every port of `ports` once, ordered by port name.
pub open spec fn resolved_bindings(out: Seq<ResolvedBinding>, bindings: Seq<(String, ResourceId)>, ports: Seq<PortDescriptor>) -> bool {
    &&& out.len() == ports.len()
    &&& forall|k: int| 0 <= k < out.len() ==> bound_port(bindings, ports, #[trigger] out[k])
    &&& forall|a: int, b: int| 0 <= a < b < out.len() ==> seq_lt(#[trigger] out[a].port@, #[trigger] out[b].port@)
}

fn find_binding(bindings: &Vec<(String, ResourceId)>, name: &String) -> (r: Option<usize>)
    ensures
        r is None <==> !supplied(bindings@, name@),
        r matches Some(k) ==> k < bindings@.len() && bindings@[k as int].0@ == name@,
{
    let mut k: usize = 0;
    while k < bindings.len()
        invariant
            k <= bindings@.len(),
            forall|t: int| 0 <= t < k ==> #[trigger] bindings@[t].0@ != name@,
        decreases bindings@.len() - k,
    {
        if bindings[k].0 == *name {
            return Some(k);
        }
        k = k + 1;
    }
    None
}

fn find_port(ports: &Vec<PortDescriptor>, name: &String) -> (r: bool)
    ensures
        r == declared(ports@, name@),
{
    let mut k: usize = 0;
    while k < ports.len()
        invariant
            k <= ports@.len(),
            forall|t: int| 0 <= t < k ==> #[trigger] ports@[t].name@ != name@,
        decreases ports@.len() - k,
    {
        if ports[k].name == *name {
            return true;
        }
        k = k + 1;
    }
    false
}

fn bindings_distinct(bindings: &Vec<(String, ResourceId)>) -> (r: bool)
    ensures
        r == supplied_distinct(bindings@),
{
    let mut b: usize = 0;
    while b < bindings.len()
        invariant
            b <= bindings@.len(),
            forall|x: int, y: int| 0 <= x < y < b ==> #[trigger] bindings@[x].0@ != #[trigger] bindings@[y].0@,
        decreases bindings@.len() - b,
    {
        let mut a: usize = 0;
        while a < b
            invariant
                a <= b < bindings@.len(),
                forall|x: int, y: int| 0 <= x < y < b ==> #[trigger] bindings@[x].0@ != #[trigger] bindings@[y].0@,
                forall|x: int| 0 <= x < a ==> #[trigger] bindings@[x].0@ != bindings@[b as int].0@,
            decreases b - a,
        {
            if bindings[a].0 == bindings[b].0 {
                return false;
            }
            a = a + 1;
        }
        b = b + 1;
    }
    true
}

/// The least supplied port name that the descriptor does not declare.
fn least_undeclared(bindings: &Vec<(String, ResourceId)>, ports: &Vec<PortDescriptor>) -> (r: Option<usize>)
    ensures
        r is None <==> forall|k: int| 0 <= k < bindings@.len() ==> declared(ports@, (#[trigger] bindings@[k]).0@),
        r matches Some(k) ==> k < bindings@.len() && !declared(ports@, bindings@[k as int].0@)
            && forall|t: int| 0 <= t < bindings@.len() && !declared(ports@, (#[trigger] bindings@[t]).0@)
                ==> !seq_lt(bindings@[t].0@, bindings@[k as int].0@),
{
    let mut best: Option<usize> = None;
    let mut k: usize = 0;
    while k < bindings.len()
        invariant
            k <= bindings@.len(),
            best is None ==> forall|t: int| 0 <= t < k ==> declared(ports@, (#[trigger] bindings@[t]).0@),
            best matches Some(b) ==> b < k && !declared(ports@, bindings@[b as int].0@)
                && forall|t: int| 0 <= t < k && !declared(ports@, (#[trigger] bindings@[t]).0@)
                    ==> !seq_lt(bindings@[t].0@, bindings@[b as int].0@),
        decreases bindings@.len() - k,
    {
        if !find_port(ports, &bindings[k].0) {
            match best {
                None => {
                    proof {
                        lemma_seq_lt_irreflexive(bindings@[k as int].0@);
                    }
                    best = Some(k);
                },
                Some(b) => {
                    if text_lt(bindings[k].0.as_str(), bindings[b].0.as_str()) {
                        proof {
                            assert forall|t: int| 0 <= t < k + 1 && !declared(ports@, (#[trigger] bindings@[t]).0@)
                                implies !seq_lt(bindings@[t].0@, bindings@[k as int].0@) by {
                                if t < k && seq_lt(bindings@[t].0@, bindings@[k as int].0@) {
                                    crate::text::lemma_seq_lt_transitive(bindings@[t].0@, bindings@[k as int].0@, bindings@[b as int].0@);
                                }
                                if t == k {
                                    lemma_seq_lt_irreflexive(bindings@[t].0@);
                                }
                            }
                        }
                        best = Some(k);
                    } else {
                        proof {
                            lemma_seq_lt_total(bindings@[k as int].0@, bindings@[b as int].0@);
                        }
                    }
                },
            }
        }
        k = k + 1;
    }
    best
}

/// Binds the descriptor's ports to the supplied Resources. Binding names must
/// be distinct and declared (the least undeclared name is reported), then
/// each port in descriptor order must be bound and typed by the registry.
pub fn resolve_ports(
    unit: &UnitId,
    bindings: &Vec<(String, ResourceId)>,
    ports: &Vec<PortDescriptor>,
    resources: &ResourceRegistry,
    unit_type: UnitTypeName,
    input: bool,
) -> (r: Result<Vec<ResolvedBinding>, CompileError>)
    requires
        resources.wf(),
        port_names_distinct(ports@),
    ensures
        r is Ok <==> bindings_resolvable(bindings@, ports@, *resources),
        r matches Ok(out) ==> resolved_bindings(out@, bindings@, ports@),
        r matches Err(CompileError::DuplicatePortBinding { unit: u, unit_type: t }) ==> !supplied_distinct(bindings@)
            && u@ == unit@ && t@ == unit_type@,
        r matches Err(CompileError::UnknownPort { unit: u, unit_type: t, port, input: side }) ==> supplied_distinct(bindings@)
            && u@ == unit@ && t@ == unit_type@ && side == input && supplied(bindings@, port@) && !declared(ports@, port@)
            && forall|k: int| 0 <= k < bindings@.len() && !declared(ports@, (#[trigger] bindings@[k]).0@)
                ==> !seq_lt(bindings@[k].0@, port@),
        r matches Err(CompileError::MissingPort { unit: u, unit_type: t, port, input: side }) ==> u@ == unit@
            && t@ == unit_type@ && side == input && declared(ports@, port@) && !supplied(bindings@, port@),
        r matches Err(CompileError::UnknownResourceType { semantic_type }) ==> exists|k: int|
            0 <= k < ports@.len() && #[trigger] ports@[k].semantic_type@ == semantic_type@ && !resources.knows(semantic_type@),
        r matches Err(CompileError::ConcreteTypeMismatch { unit: u, port, semantic_type, expected, registered }) ==> u@ == unit@
            && exists|k: int|
                0 <= k < ports@.len() && #[trigger] ports@[k].name@ == port@ && ports@[k].semantic_type@ == semantic_type@
                    && ports@[k].concrete_type == expected && expected != registered
                    && resources.registers(semantic_type@, registered),
        r matches Err(e) ==> e is DuplicatePortBinding || e is UnknownPort || e is MissingPort
            || e is UnknownResourceType || e is ConcreteTypeMismatch,
{
    if !bindings_distinct(bindings) {
        return Err(CompileError::DuplicatePortBinding { unit: unit.clone(), unit_type });
    }
    match least_undeclared(bindings, ports) {
        Some(k) => {
            return Err(CompileError::UnknownPort {
                unit: unit.clone(),
                unit_type,
                port: bindings[k].0.clone(),
                input,
            });
        },
        None => {},
    }
    let mut resolved: Vec<ResolvedBinding> = Vec::new();
    let mut i: usize = 0;
    while i < ports.len()
        invariant
            resources.wf(),
            i <= ports@.len(),
            resolved@.len() == i,
            forall|t: int| 0 <= t < i ==> port_resolvable(bindings@, #[trigger] ports@[t], *resources),
            forall|t: int| 0 <= t < i ==> binding_for(bindings@, ports@[t], #[trigger] resolved@[t]),
        decreases ports@.len() - i,
    {
        let port = &ports[i];
        let b = match find_binding(bindings, &port.name) {
            Some(b) => b,
            None => {
                proof {
                    assert(declared(ports@, port.name@));
                    assert(!port_resolvable(bindings@, ports@[i as int], *resources));
                }
                return Err(CompileError::MissingPort {
                    unit: unit.clone(),
                    unit_type,
                    port: port.name.clone(),
                    input,
                });
            },
        };
        let descriptor = match resources.get(&port.semantic_type) {
            Some(d) => d,
            None => {
                proof {
                    assert(!port_resolvable(bindings@, ports@[i as int], *resources));
                    assert(ports@[i as int].semantic_type@ == port.semantic_type@);
                }
                return Err(CompileError::UnknownResourceType { semantic_type: port.semantic_type.clone() });
            },
        };
        let registered = descriptor.concrete_type();
        if !registered.same_as(port.concrete_type) {
            proof {
                if resources.registers(port.semantic_type@, port.concrete_type) {
                    resources.lemma_registers_unique(port.semantic_type@, registered, port.concrete_type);
                }
                assert(!port_resolvable(bindings@, ports@[i as int], *resources));
            }
            return Err(CompileError::ConcreteTypeMismatch {
                unit: unit.clone(),
                port: port.name.clone(),
                semantic_type: port.semantic_type.clone(),
                expected: port.concrete_type,
                registered,
            });
        }
        let out = ResolvedBinding {
            port: port.name.clone(),
            resource: bindings[b].1.clone(),
            semantic_type: port.semantic_type.clone(),
            concrete_type: port.concrete_type,
        };
        proof {
            assert(resources.registers(port.semantic_type@, registered));
            assert(bindings@[b as int].0@ == ports@[i as int].name@);
        }
        resolved.push(out);
        i = i + 1;
    }
    proof {
        assert forall|a: int, b: int| 0 <= a < b < resolved@.len() implies #[trigger] resolved@[a].port@ != #[trigger] resolved@[b].port@ by {
            assert(binding_for(bindings@, ports@[a], resolved@[a]));
            assert(binding_for(bindings@, ports@[b], resolved@[b]));
        }
    }
    let sorted = crate::compile::sort_bindings(&resolved);
    proof {
        assert forall|k: int| 0 <= k < sorted@.len() implies bound_port(bindings@, ports@, #[trigger] sorted@[k]) by {
            let t = choose|t: int| 0 <= t < resolved@.len() && #[trigger] crate::compile::binding_same(sorted@[k], resolved@[t]);
            assert(binding_for(bindings@, ports@[t], resolved@[t]));
            let w = choose|w: int| 0 <= w < bindings@.len() && #[trigger] bindings@[w].0@ == ports@[t].name@ && bindings@[w].1@ == resolved@[t].resource@;
            assert(binding_for(bindings@, ports@[t], sorted@[k]));
        }
    }
    Ok(sorted)
}


/// The descriptor registered for the unit's type resolves both sides of the unit.
pub open spec fn unit_resolvable(u: ParsedUnit, units: UnitRegistry, resources: ResourceRegistry) -> bool {
    exists|i: int|
        0 <= i < units.entries().len() && #[trigger] units.entries()[i].unit_type@ == u.unit_type@
            && bindings_resolvable(u.inputs@, units.entries()[i].inputs@, resources)
            && bindings_resolvable(u.outputs@, units.entries()[i].outputs@, resources)
}

/// Every Module input type is registered and every unit resolves.
pub open spec fn module_resolvable(m: ParsedModule, units: UnitRegistry, resources: ResourceRegistry) -> bool {
    &&& forall|k: int| 0 <= k < m.inputs@.len() ==> resources.knows((#[trigger] m.inputs@[k]).semantic_type@)
    &&& forall|k: int| 0 <= k < m.units@.len() ==> unit_resolvable(#[trigger] m.units@[k], units, resources)
}

/// `r` is `p` with its ports bound as its registered descriptor declares.
pub open spec fn unit_resolved(p: ParsedUnit, r: ResolvedUnit, units: UnitRegistry) -> bool {
    &&& r.id@ == p.id@
    &&& r.unit_type@ == p.unit_type@
    &&& exists|i: int|
        0 <= i < units.entries().len() && #[trigger] units.entries()[i].unit_type@ == p.unit_type@
            && resolved_bindings(r.inputs@, p.inputs@, units.entries()[i].inputs@)
            && resolved_bindings(r.outputs@, p.outputs@, units.entries()[i].outputs@)
}

/// `r` is the resolved form of `m`.
pub open spec fn resolved_from(m: ParsedModule, r: ResolvedModule, units: UnitRegistry, resources: ResourceRegistry) -> bool {
    &&& r.schema@ == m.schema@
    &&& r.name@ == m.name@
    &&& r.outputs@.len() == m.outputs@.len()
    &&& forall|k: int| 0 <= k < r.outputs@.len() ==> (#[trigger] r.outputs@[k])@ == m.outputs@[k]@
    &&& r.inputs@.len() == m.inputs@.len()
    &&& forall|k: int|
        0 <= k < r.inputs@.len() ==> (#[trigger] r.inputs@[k]).resource@ == m.inputs@[k].resource@
            && r.inputs@[k].semantic_type@ == m.inputs@[k].semantic_type@
            && resources.registers(r.inputs@[k].semantic_type@, r.inputs@[k].concrete_type)
    &&& r.units@.len() == m.units@.len()
    &&& forall|k: int| 0 <= k < r.units@.len() ==> unit_resolved(m.units@[k], #[trigger] r.units@[k], units)
}

impl ParsedModule {
    /// Resolves Module inputs against the Resource registry and each unit's
    /// bindings against its registered descriptor.
    pub fn resolve(self, units: &UnitRegistry, resources: &ResourceRegistry) -> (r: Result<ResolvedModule, CompileError>)
        requires
            units.wf(),
            resources.wf(),
        ensures
            r is Ok <==> module_resolvable(self, *units, *resources),
            r matches Ok(out) ==> resolved_from(self, out, *units, *resources),
            r matches Err(CompileError::UnknownUnitType { unit, unit_type }) ==> exists|k: int|
                0 <= k < self.units@.len() && #[trigger] self.units@[k].id@ == unit@
                    && self.units@[k].unit_type@ == unit_type@ && !units.knows(unit_type@),
            r matches Err(e) ==> e is UnknownResourceType || e is UnknownUnitType || e is DuplicatePortBinding
                || e is UnknownPort || e is MissingPort || e is ConcreteTypeMismatch,
    {
        let mut inputs: Vec<ResolvedModuleInput> = Vec::new();
        let mut k: usize = 0;
        while k < self.inputs.len()
            invariant
                resources.wf(),
                k <= self.inputs@.len(),
                inputs@.len() == k,
                forall|t: int| 0 <= t < k ==> resources.knows((#[trigger] self.inputs@[t]).semantic_type@),
                forall|t: int|
                    0 <= t < k ==> (#[trigger] inputs@[t]).resource@ == self.inputs@[t].resource@
                        && inputs@[t].semantic_type@ == self.inputs@[t].semantic_type@
                        && resources.registers(inputs@[t].semantic_type@, inputs@[t].concrete_type),
            decreases self.inputs@.len() - k,
        {
            let input = &self.inputs[k];
            match resources.get(&input.semantic_type) {
                Some(d) => {
                    inputs.push(ResolvedModuleInput {
                        resource: input.resource.clone(),
                        semantic_type: input.semantic_type.clone(),
                        concrete_type: d.concrete_type(),
                    });
                },
                None => {
                    return Err(CompileError::UnknownResourceType { semantic_type: input.semantic_type.clone() });
                },
            }
            k = k + 1;
        }
        let mut resolved: Vec<ResolvedUnit> = Vec::new();
        let mut i: usize = 0;
        while i < self.units.len()
            invariant
                units.wf(),
                resources.wf(),
                forall|t: int| 0 <= t < self.inputs@.len() ==> resources.knows((#[trigger] self.inputs@[t]).semantic_type@),
                i <= self.units@.len(),
                resolved@.len() == i,
                forall|t: int| 0 <= t < i ==> unit_resolvable(#[trigger] self.units@[t], *units, *resources),
                forall|t: int| 0 <= t < i ==> unit_resolved(self.units@[t], #[trigger] resolved@[t], *units),
            decreases self.units@.len() - i,
        {
            let unit = &self.units[i];
            let descriptor = match units.get(&unit.unit_type) {
                Some(d) => d,
                None => {
                    proof {
                        assert(!unit_resolvable(self.units@[i as int], *units, *resources));
                    }
                    return Err(CompileError::UnknownUnitType { unit: unit.id.clone(), unit_type: unit.unit_type.clone() });
                },
            };
            let ghost di = choose|x: int| 0 <= x < units.entries().len() && units.entries()[x] == *descriptor;
            proof {
                assert(descriptor_valid(units.entries()[di]));
                assert forall|x: int|
                    0 <= x < units.entries().len() && #[trigger] units.entries()[x].unit_type@ == unit.unit_type@ implies x == di by {
                    if x < di {
                        assert(units.entries()[x].unit_type@ != units.entries()[di].unit_type@);
                    } else if di < x {
                        assert(units.entries()[di].unit_type@ != units.entries()[x].unit_type@);
                    }
                }
            }
            let ins = match resolve_ports(&unit.id, &unit.inputs, &descriptor.inputs, resources, descriptor.unit_type.clone(), true) {
                Ok(v) => v,
                Err(e) => {
                    return Err(e);
                },
            };
            let outs = match resolve_ports(&unit.id, &unit.outputs, &descriptor.outputs, resources, descriptor.unit_type.clone(), false) {
                Ok(v) => v,
                Err(e) => {
                    return Err(e);
                },
            };
            let ru = ResolvedUnit { id: unit.id.clone(), unit_type: unit.unit_type.clone(), inputs: ins, outputs: outs };
            proof {
                assert(unit_resolvable(self.units@[i as int], *units, *resources));
                assert(unit_resolved(self.units@[i as int], ru, *units));
            }
            resolved.push(ru);
            i = i + 1;
        }
        let mut outputs: Vec<ResourceId> = Vec::new();
        let mut k: usize = 0;
        while k < self.outputs.len()
            invariant
                k <= self.outputs@.len(),
                outputs@.len() == k,
                forall|t: int| 0 <= t < k ==> (#[trigger] outputs@[t])@ == self.outputs@[t]@,
            decreases self.outputs@.len() - k,
        {
            outputs.push(self.outputs[k].clone());
            k = k + 1;
        }
        Ok(ResolvedModule {
            schema: self.schema.clone(),
            name: self.name.clone(),
            inputs,
            units: resolved,
            outputs,
        })
    }
}

} // verus!
