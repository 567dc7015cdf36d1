//! Graph-level data: port contracts, parsed/resolved/compiled Module forms
//! and the compile failure vocabulary.

use vstd::prelude::*;
use vstd::std_specs::cmp::PartialEqSpecImpl;

use crate::ids::{ResourceId, SemanticType, UnitId, UnitTypeName};

verus! {

#[verifier::external_type_specification]
#[verifier::external_body]
pub struct ExTypeId(core::any::TypeId);

/// `TypeId::of`: the identity of the Rust type `T`.
#[verifier::external_body]
fn type_id_of<T: ?Sized + 'static>() -> core::any::TypeId {
    core::any::TypeId::of::<T>()
}

/// `TypeId == TypeId`: two identities compare equal exactly when they are
/// the same value (the same Rust type).
#[verifier::external_body]
fn type_ids_equal(a: core::any::TypeId, b: core::any::TypeId) -> (r: bool)
    ensures
        r == (a == b),
{
    a == b
}

/// `{:?}` of a `TypeId`: diagnostic text whose content nothing here relies on.
#[verifier::external_body]
fn type_id_text(id: core::any::TypeId) -> String {
    format!("{:?}", id)
}

/// Concrete Rust representation expected by a port.
#[derive(Clone, Copy, Debug)]
pub struct ConcreteType {
    id: core::any::TypeId,
}

impl ConcreteType {
    /// The representation of the Rust type `T`.
    pub fn of<T: ?Sized + 'static>() -> ConcreteType {
        ConcreteType { id: type_id_of::<T>() }
    }

    /// Compares two representations.
    pub fn same_as(self, other: ConcreteType) -> (r: bool)
        ensures
            r == (self == other),
    {
        type_ids_equal(self.id, other.id)
    }

    /// Diagnostic text for the representation.
    pub fn text(self) -> String {
        type_id_text(self.id)
    }
}

impl PartialEq for ConcreteType {
    fn eq(&self, other: &Self) -> (r: bool) {
        type_ids_equal(self.id, other.id)
    }
}

impl PartialEqSpecImpl for ConcreteType {
    open spec fn obeys_eq_spec() -> bool {
        true
    }

    open spec fn eq_spec(&self, other: &Self) -> bool {
        *self == *other
    }
}

impl Eq for ConcreteType {
}

/// Static contract for one required input or output port.
#[derive(Debug, PartialEq, Eq)]
pub struct PortDescriptor {
    pub name: String,
    pub semantic_type: SemanticType,
    pub concrete_type: ConcreteType,
}

impl PortDescriptor {
    /// A port named `name` carrying `semantic_type` as the Rust type `T`.
    pub fn of<T: ?Sized + 'static>(name: &str, semantic_type: SemanticType) -> (r: PortDescriptor)
        ensures
            r.name@ == name@,
            r.semantic_type@ == semantic_type@,
    {
        PortDescriptor { name: name.to_owned(), semantic_type, concrete_type: ConcreteType::of::<T>() }
    }

    /// A field-by-field copy.
    pub fn copy(&self) -> (r: PortDescriptor)
        ensures
            r.name@ == self.name@,
            r.semantic_type@ == self.semantic_type@,
            r.concrete_type == self.concrete_type,
    {
        PortDescriptor {
            name: self.name.clone(),
            semantic_type: self.semantic_type.clone(),
            concrete_type: self.concrete_type,
        }
    }
}

impl Clone for PortDescriptor {
    fn clone(&self) -> (r: Self)
        ensures
            r.name@ == self.name@,
            r.semantic_type@ == self.semantic_type@,
            r.concrete_type == self.concrete_type,
    {
        self.copy()
    }
}

/// Graph-relevant static metadata for a registered Unit type.
#[derive(Debug, PartialEq, Eq)]
pub struct UnitDescriptor {
    pub unit_type: UnitTypeName,
    pub inputs: Vec<PortDescriptor>,
    pub outputs: Vec<PortDescriptor>,
}

/// Syntax-independent parse boundary.
#[derive(Debug, PartialEq, Eq)]
pub struct ParsedModule {
    pub schema: String,
    pub name: String,
    pub inputs: Vec<ParsedModuleInput>,
    pub units: Vec<ParsedUnit>,
    pub outputs: Vec<ResourceId>,
}

#[derive(Debug, PartialEq, Eq)]
pub struct ParsedModuleInput {
    pub resource: ResourceId,
    pub semantic_type: SemanticType,
}

#[derive(Debug, PartialEq, Eq)]
pub struct ParsedUnit {
    pub id: UnitId,
    pub unit_type: UnitTypeName,
    pub inputs: Vec<(String, ResourceId)>,
    pub outputs: Vec<(String, ResourceId)>,
}

/// One resolved required port binding.
#[derive(Debug, PartialEq, Eq)]
pub struct ResolvedBinding {
    pub port: String,
    pub resource: ResourceId,
    pub semantic_type: SemanticType,
    pub concrete_type: ConcreteType,
}

impl ResolvedBinding {
    /// A field-by-field copy.
    pub fn copy(&self) -> (r: ResolvedBinding)
        ensures
            r.port@ == self.port@,
            r.resource@ == self.resource@,
            r.semantic_type@ == self.semantic_type@,
            r.concrete_type == self.concrete_type,
    {
        ResolvedBinding {
            port: self.port.clone(),
            resource: self.resource.clone(),
            semantic_type: self.semantic_type.clone(),
            concrete_type: self.concrete_type,
        }
    }
}

impl Clone for ResolvedBinding {
    fn clone(&self) -> (r: Self)
        ensures
            r.port@ == self.port@,
            r.resource@ == self.resource@,
            r.semantic_type@ == self.semantic_type@,
            r.concrete_type == self.concrete_type,
    {
        self.copy()
    }
}

#[derive(Debug, PartialEq, Eq)]
pub struct ResolvedModuleInput {
    pub resource: ResourceId,
    pub semantic_type: SemanticType,
    pub concrete_type: ConcreteType,
}

#[derive(Debug, PartialEq, Eq)]
pub struct ResolvedUnit {
    pub id: UnitId,
    pub unit_type: UnitTypeName,
    pub inputs: Vec<ResolvedBinding>,
    pub outputs: Vec<ResolvedBinding>,
}

/// Validated descriptor identities and typed bindings consumed by graph
/// compilation.
#[derive(Debug, PartialEq, Eq)]
pub struct ResolvedModule {
    pub schema: String,
    pub name: String,
    pub inputs: Vec<ResolvedModuleInput>,
    pub units: Vec<ResolvedUnit>,
    pub outputs: Vec<ResourceId>,
}

/// Who publishes a Resource.
#[derive(Debug, PartialEq, Eq)]
pub enum Producer {
    ModuleInput,
    Unit { unit: UnitId, port: String },
}

impl Producer {
    /// A copy of the producer.
    pub fn copy(&self) -> (r: Producer)
        ensures
            r is ModuleInput <==> self is ModuleInput,
            r is Unit ==> r->unit@ == self->unit@ && r->port@ == self->port@,
    {
        match self {
            Producer::ModuleInput => Producer::ModuleInput,
            Producer::Unit { unit, port } => Producer::Unit { unit: unit.clone(), port: port.clone() },
        }
    }
}

impl Clone for Producer {
    fn clone(&self) -> (r: Self)
        ensures
            r is ModuleInput <==> self is ModuleInput,
            r is Unit ==> r->unit@ == self->unit@ && r->port@ == self->port@,
    {
        self.copy()
    }
}

#[derive(Debug, PartialEq, Eq)]
pub struct Consumer {
    pub unit: UnitId,
    pub port: String,
}

impl Clone for Consumer {
    fn clone(&self) -> (r: Self)
        ensures
            r.unit@ == self.unit@,
            r.port@ == self.port@,
    {
        Consumer { unit: self.unit.clone(), port: self.port.clone() }
    }
}

#[derive(Clone, Debug, PartialEq, Eq)]
pub struct CompiledResource {
    pub id: ResourceId,
    pub semantic_type: SemanticType,
    pub concrete_type: ConcreteType,
    pub producer: Producer,
    pub consumers: Vec<Consumer>,
}

#[derive(Clone, Debug, PartialEq, Eq)]
pub struct CompiledUnit {
    pub id: UnitId,
    pub unit_type: UnitTypeName,
    pub inputs: Vec<ResolvedBinding>,
    pub outputs: Vec<ResolvedBinding>,
    pub dependencies: Vec<UnitId>,
}

/// Normalized fixed graph. Equality is structural and independent of source order.
#[derive(Clone, Debug, PartialEq, Eq)]
pub struct CompiledGraph {
    pub schema: String,
    pub module: String,
    pub units: Vec<CompiledUnit>,
    pub resources: Vec<CompiledResource>,
    pub module_outputs: Vec<ResourceId>,
    pub execution_order: Vec<UnitId>,
}

/// Graph compilation and resolution failure.
#[derive(Clone, Debug, PartialEq, Eq)]
pub enum CompileError {
    DuplicateUnitType { unit_type: UnitTypeName },
    DuplicateDescriptorPort { unit_type: UnitTypeName },
    UnknownUnitType { unit: UnitId, unit_type: UnitTypeName },
    UnknownResourceType { semantic_type: SemanticType },
    MissingPort { unit: UnitId, unit_type: UnitTypeName, port: String, input: bool },
    UnknownPort { unit: UnitId, unit_type: UnitTypeName, port: String, input: bool },
    DuplicatePortBinding { unit: UnitId, unit_type: UnitTypeName },
    ConcreteTypeMismatch {
        unit: UnitId,
        port: String,
        semantic_type: SemanticType,
        expected: ConcreteType,
        registered: ConcreteType,
    },
    DuplicateUnit { unit: UnitId },
    DuplicateResolvedPort { unit: UnitId },
    DuplicateProducer { resource: ResourceId, first: Producer, second: Producer },
    UnknownResource { unit: UnitId, port: String, resource: ResourceId },
    UnknownModuleOutput { resource: ResourceId },
    DuplicateModuleOutput,
    SemanticTypeMismatch {
        unit: UnitId,
        port: String,
        resource: ResourceId,
        expected: SemanticType,
        actual: SemanticType,
    },
    ConcreteBindingMismatch {
        unit: UnitId,
        port: String,
        resource: ResourceId,
        expected: ConcreteType,
        actual: ConcreteType,
    },
    Cycle { path: Vec<UnitId> },
    DenseUnitMissing { unit: UnitId },
    DenseResourceMissing { resource: ResourceId },
}

} // verus!
