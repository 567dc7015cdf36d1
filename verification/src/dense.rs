//! Dense, index-addressed form of a compiled graph and typed Module handles.

use vstd::prelude::*;

use crate::ids::{ResourceId, SemanticType, UnitId, UnitTypeName};
use crate::types::{CompileError, CompiledGraph, ConcreteType, Producer, ResolvedBinding};

verus! {

/// Position of a unit in the dense graph.
#[derive(Clone, Copy, Debug, PartialEq, Eq, PartialOrd, Ord, Hash, Structural)]
pub struct UnitIndex(usize);

impl UnitIndex {
    pub closed spec fn value(self) -> usize {
        self.0
    }

    /// The position.
    pub fn get(self) -> (r: usize)
        ensures
            r == self.value(),
    {
        self.0
    }
}

/// Position of a Resource in the dense graph.
#[derive(Clone, Copy, Debug, PartialEq, Eq, PartialOrd, Ord, Hash, Structural)]
pub struct ResourceIndex(usize);

impl ResourceIndex {
    pub closed spec fn value(self) -> usize {
        self.0
    }

    /// The position.
    pub fn get(self) -> (r: usize)
        ensures
            r == self.value(),
    {
        self.0
    }
}

#[derive(Clone, Debug, PartialEq, Eq)]
pub struct DenseBinding {
    pub port: String,
    pub resource: ResourceIndex,
    pub concrete_type: ConcreteType,
}

#[derive(Clone, Debug, PartialEq, Eq)]
pub struct DenseUnit {
    pub id: UnitId,
    pub unit_type: UnitTypeName,
    pub inputs: Vec<DenseBinding>,
    pub outputs: Vec<DenseBinding>,
    pub dependencies: Vec<UnitIndex>,
}

#[derive(Clone, Debug, PartialEq, Eq)]
pub struct DenseResource {
    pub id: ResourceId,
    pub semantic_type: SemanticType,
    pub concrete_type: ConcreteType,
}

/// Index-addressed graph: units and Resources keep the compiled order; the
/// Module input and output sets hold increasing Resource positions.
#[derive(Clone, Debug, PartialEq, Eq)]
pub struct DenseGraph {
    plan_token: u64,
    pub units: Vec<DenseUnit>,
    pub resources: Vec<DenseResource>,
    pub execution_order: Vec<UnitIndex>,
    module_inputs: Vec<ResourceIndex>,
    module_outputs: Vec<ResourceIndex>,
}

#[derive(Clone, Debug, PartialEq, Eq)]
pub enum HandleError {
    UnknownResource { resource: ResourceId },
    NotModuleInput { resource: ResourceId },
    NotModuleOutput { resource: ResourceId },
    ConcreteType { resource: ResourceId, expected: ConcreteType, actual: ConcreteType },
}

/// Typed handle of a Module input Resource of one prepared plan.
#[derive(Debug, PartialEq, Eq)]
pub struct InputHandle<T> {
    resource: ResourceIndex,
    plan_token: u64,
    marker: core::marker::PhantomData<T>,
}

impl<T> Clone for InputHandle<T> {
    fn clone(&self) -> (r: Self)
        ensures
            r == *self,
    {
        InputHandle { resource: self.resource, plan_token: self.plan_token, marker: core::marker::PhantomData }
    }
}

impl<T> Copy for InputHandle<T> {
}

impl<T> InputHandle<T> {
    pub closed spec fn spec_resource(&self) -> ResourceIndex {
        self.resource
    }

    pub closed spec fn spec_plan_token(&self) -> u64 {
        self.plan_token
    }

    /// The Resource position.
    pub fn resource(&self) -> (r: ResourceIndex)
        ensures
            r == self.spec_resource(),
    {
        self.resource
    }

    /// The plan the handle belongs to.
    pub fn plan_token(&self) -> (r: u64)
        ensures
            r == self.spec_plan_token(),
    {
        self.plan_token
    }
}

/// Typed handle of a Module output Resource of one prepared plan.
#[derive(Debug, PartialEq, Eq)]
pub struct OutputHandle<T> {
    resource: ResourceIndex,
    plan_token: u64,
    marker: core::marker::PhantomData<T>,
}

impl<T> Clone for OutputHandle<T> {
    fn clone(&self) -> (r: Self)
        ensures
            r == *self,
    {
        OutputHandle { resource: self.resource, plan_token: self.plan_token, marker: core::marker::PhantomData }
    }
}

impl<T> Copy for OutputHandle<T> {
}

impl<T> OutputHandle<T> {
    pub closed spec fn spec_resource(&self) -> ResourceIndex {
        self.resource
    }

    pub closed spec fn spec_plan_token(&self) -> u64 {
        self.plan_token
    }

    /// The Resource position.
    pub fn resource(&self) -> (r: ResourceIndex)
        ensures
            r == self.spec_resource(),
    {
        self.resource
    }

    /// The plan the handle belongs to.
    pub fn plan_token(&self) -> (r: u64)
        ensures
            r == self.spec_plan_token(),
    {
        self.plan_token
    }
}

/// Some entry of `set` is position `j`.
pub open spec fn holds_position(set: Seq<ResourceIndex>, j: int) -> bool {
    exists|t: int| 0 <= t < set.len() && (#[trigger] set[t]).value() == j
}

/// The last position whose unit id is `id`, as a map built in order keeps it.
pub open spec fn last_unit(units: Seq<crate::types::CompiledUnit>, id: Seq<char>, k: int) -> bool {
    &&& 0 <= k < units.len()
    &&& units[k].id@ == id
    &&& forall|j: int| k < j < units.len() ==> #[trigger] units[j].id@ != id
}

/// The last position whose Resource id is `id`.
pub open spec fn last_resource(res: Seq<crate::types::CompiledResource>, id: Seq<char>, k: int) -> bool {
    &&& 0 <= k < res.len()
    &&& res[k].id@ == id
    &&& forall|j: int| k < j < res.len() ==> #[trigger] res[j].id@ != id
}

pub open spec fn unit_known(units: Seq<crate::types::CompiledUnit>, id: Seq<char>) -> bool {
    exists|k: int| 0 <= k < units.len() && #[trigger] units[k].id@ == id
}

pub open spec fn resource_known(res: Seq<crate::types::CompiledResource>, id: Seq<char>) -> bool {
    exists|k: int| 0 <= k < res.len() && #[trigger] res[k].id@ == id
}

fn unit_position(units: &Vec<crate::types::CompiledUnit>, id: &UnitId) -> (r: Option<UnitIndex>)
    ensures
        r is None <==> !unit_known(units@, id@),
        r matches Some(x) ==> last_unit(units@, id@, x.value() as int),
{
    let mut k: usize = units.len();
    while k > 0
        invariant
            k <= units@.len(),
            forall|j: int| k <= j < units@.len() ==> #[trigger] units@[j].id@ != id@,
        decreases k,
    {
        k = k - 1;
        if units[k].id == *id {
            return Some(UnitIndex(k));
        }
    }
    None
}

fn resource_position(res: &Vec<crate::types::CompiledResource>, id: &ResourceId) -> (r: Option<ResourceIndex>)
    ensures
        r is None <==> !resource_known(res@, id@),
        r matches Some(x) ==> last_resource(res@, id@, x.value() as int),
{
    let mut k: usize = res.len();
    while k > 0
        invariant
            k <= res@.len(),
            forall|j: int| k <= j < res@.len() ==> #[trigger] res@[j].id@ != id@,
        decreases k,
    {
        k = k - 1;
        if res[k].id == *id {
            return Some(ResourceIndex(k));
        }
    }
    None
}

/// `d` is `b` with its Resource named by position.
pub open spec fn dense_binding_of(g: CompiledGraph, b: ResolvedBinding, d: DenseBinding) -> bool {
    &&& d.port@ == b.port@
    &&& d.concrete_type == b.concrete_type
    &&& last_resource(g.resources@, b.resource@, d.resource.value() as int)
}

/// Every binding, dependency, scheduled unit and Module output names a
/// unit or Resource of the graph.
pub open spec fn dense_complete(g: CompiledGraph) -> bool {
    &&& forall|i: int, k: int|
        0 <= i < g.units@.len() && 0 <= k < g.units@[i].inputs@.len() ==> resource_known(
            g.resources@,
            (#[trigger] g.units@[i].inputs@[k]).resource@,
        )
    &&& forall|i: int, k: int|
        0 <= i < g.units@.len() && 0 <= k < g.units@[i].outputs@.len() ==> resource_known(
            g.resources@,
            (#[trigger] g.units@[i].outputs@[k]).resource@,
        )
    &&& forall|i: int, k: int|
        0 <= i < g.units@.len() && 0 <= k < g.units@[i].dependencies@.len() ==> unit_known(
            g.units@,
            (#[trigger] g.units@[i].dependencies@[k])@,
        )
    &&& forall|k: int| 0 <= k < g.execution_order@.len() ==> unit_known(g.units@, (#[trigger] g.execution_order@[k])@)
    &&& forall|k: int| 0 <= k < g.module_outputs@.len() ==> resource_known(g.resources@, (#[trigger] g.module_outputs@[k])@)
}

/// `d` is the dense form of the compiled unit `u`.
pub open spec fn dense_unit_of(g: CompiledGraph, u: crate::types::CompiledUnit, d: DenseUnit) -> bool {
    &&& d.id@ == u.id@
    &&& d.unit_type@ == u.unit_type@
    &&& d.inputs@.len() == u.inputs@.len()
    &&& forall|k: int| 0 <= k < d.inputs@.len() ==> dense_binding_of(g, u.inputs@[k], #[trigger] d.inputs@[k])
    &&& d.outputs@.len() == u.outputs@.len()
    &&& forall|k: int| 0 <= k < d.outputs@.len() ==> dense_binding_of(g, u.outputs@[k], #[trigger] d.outputs@[k])
    &&& d.dependencies@.len() == u.dependencies@.len()
    &&& forall|k: int|
        0 <= k < d.dependencies@.len() ==> last_unit(g.units@, u.dependencies@[k]@, (#[trigger] d.dependencies@[k]).value() as int)
}

impl DenseGraph {
    pub closed spec fn spec_plan_token(&self) -> u64 {
        self.plan_token
    }

    pub closed spec fn spec_units(&self) -> Seq<DenseUnit> {
        self.units@
    }

    pub closed spec fn spec_resources(&self) -> Seq<DenseResource> {
        self.resources@
    }

    pub closed spec fn spec_execution_order(&self) -> Seq<UnitIndex> {
        self.execution_order@
    }

    /// Resource positions published by Module inputs, increasing.
    pub closed spec fn spec_module_inputs(&self) -> Seq<ResourceIndex> {
        self.module_inputs@
    }

    /// Resource positions named as Module outputs, increasing.
    pub closed spec fn spec_module_outputs(&self) -> Seq<ResourceIndex> {
        self.module_outputs@
    }

    /// The Resources, in compiled order.
    pub fn resources(&self) -> (r: &Vec<DenseResource>)
        ensures
            r@ == self.spec_resources(),
    {
        &self.resources
    }

    /// The Units, in compiled order.
    pub fn units(&self) -> (r: &Vec<DenseUnit>)
        ensures
            r@ == self.spec_units(),
    {
        &self.units
    }

    /// The plan token.
    pub fn plan_token(&self) -> (r: u64)
        ensures
            r == self.spec_plan_token(),
    {
        self.plan_token
    }

    /// Resource positions published by Module inputs.
    pub fn module_inputs(&self) -> (r: &Vec<ResourceIndex>)
        ensures
            r@ == self.spec_module_inputs(),
    {
        &self.module_inputs
    }

    /// Resource positions named as Module outputs.
    pub fn module_outputs(&self) -> (r: &Vec<ResourceIndex>)
        ensures
            r@ == self.spec_module_outputs(),
    {
        &self.module_outputs
    }

    /// The first Resource position whose id is `resource`.
    fn resource_index(&self, resource: &ResourceId) -> (r: Result<ResourceIndex, HandleError>)
        ensures
            r matches Ok(x) ==> x.value() < self.spec_resources().len() && self.spec_resources()[x.value() as int].id@ == resource@
                && forall|j: int| 0 <= j < x.value() ==> #[trigger] self.spec_resources()[j].id@ != resource@,
            r matches Err(e) ==> e is UnknownResource && e->UnknownResource_resource@ == resource@
                && forall|j: int| 0 <= j < self.spec_resources().len() ==> #[trigger] self.spec_resources()[j].id@ != resource@,
    {
        let mut k: usize = 0;
        while k < self.resources.len()
            invariant
                k <= self.spec_resources().len(),
                forall|j: int| 0 <= j < k ==> #[trigger] self.spec_resources()[j].id@ != resource@,
            decreases self.spec_resources().len() - k,
        {
            if self.resources[k].id == *resource {
                return Ok(ResourceIndex(k));
            }
            k = k + 1;
        }
        Err(HandleError::UnknownResource { resource: resource.clone() })
    }

    fn holds(set: &Vec<ResourceIndex>, x: ResourceIndex) -> (r: bool)
        ensures
            r == set@.contains(x),
    {
        let mut k: usize = 0;
        while k < set.len()
            invariant
                k <= set@.len(),
                forall|j: int| 0 <= j < k ==> set@[j] != x,
            decreases set@.len() - k,
        {
            if set[k] == x {
                return true;
            }
            k = k + 1;
        }
        false
    }

    /// A typed handle for the Module input Resource `resource`: it must exist,
    /// be a Module input, and be stored as `T`.
    pub fn input_handle<T: 'static>(&self, resource: &ResourceId) -> (r: Result<InputHandle<T>, HandleError>)
        ensures
            r matches Ok(h) ==> h.spec_plan_token() == self.spec_plan_token()
                && self.spec_module_inputs().contains(h.spec_resource())
                && h.spec_resource().value() < self.spec_resources().len()
                && self.spec_resources()[h.spec_resource().value() as int].id@ == resource@,
            r matches Err(HandleError::UnknownResource { resource: x }) ==> x@ == resource@
                && forall|j: int| 0 <= j < self.spec_resources().len() ==> #[trigger] self.spec_resources()[j].id@ != resource@,
            r matches Err(HandleError::NotModuleInput { resource: x }) ==> x@ == resource@
                && exists|j: int| 0 <= j < self.spec_resources().len() && #[trigger] self.spec_resources()[j].id@ == resource@
                    && !holds_position(self.spec_module_inputs(), j),
            r matches Err(HandleError::ConcreteType { resource: x, expected, actual }) ==> x@ == resource@
                && expected != actual && exists|j: int| 0 <= j < self.spec_resources().len()
                    && #[trigger] self.spec_resources()[j].id@ == resource@ && self.spec_resources()[j].concrete_type == expected,
            r matches Err(e) ==> !(e is NotModuleOutput),
            (r is Err && r->Err_0 is UnknownResource) <==> forall|j: int|
                0 <= j < self.spec_resources().len() ==> #[trigger] self.spec_resources()[j].id@ != resource@,
            (exists|j: int| #[trigger] first_named(self.spec_resources(), resource@, j) && !holds_position(self.spec_module_inputs(), j))
                ==> r is Err && r->Err_0 is NotModuleInput,
            r matches Err(HandleError::ConcreteType { .. }) ==> exists|j: int|
                #[trigger] first_named(self.spec_resources(), resource@, j) && holds_position(self.spec_module_inputs(), j),
    {
        let index = match self.resource_index(resource) {
            Ok(x) => x,
            Err(e) => {
                return Err(e);
            },
        };
        if !Self::holds(&self.module_inputs, index) {
            return Err(HandleError::NotModuleInput { resource: resource.clone() });
        }
        let expected = self.resources[index.0].concrete_type;
        let actual = ConcreteType::of::<T>();
        if !expected.same_as(actual) {
            proof {
                assert(first_named(self.spec_resources(), resource@, index.value() as int));
            }
            return Err(HandleError::ConcreteType { resource: self.resources[index.0].id.clone(), expected, actual });
        }
        Ok(InputHandle { resource: index, plan_token: self.plan_token, marker: core::marker::PhantomData })
    }

    /// A typed handle for the Module output Resource `resource`: it must exist,
    /// be a Module output, and be stored as `T`.
    pub fn output_handle<T: 'static>(&self, resource: &ResourceId) -> (r: Result<OutputHandle<T>, HandleError>)
        ensures
            r matches Ok(h) ==> h.spec_plan_token() == self.spec_plan_token()
                && self.spec_module_outputs().contains(h.spec_resource())
                && h.spec_resource().value() < self.spec_resources().len()
                && self.spec_resources()[h.spec_resource().value() as int].id@ == resource@,
            r matches Err(HandleError::UnknownResource { resource: x }) ==> x@ == resource@
                && forall|j: int| 0 <= j < self.spec_resources().len() ==> #[trigger] self.spec_resources()[j].id@ != resource@,
            r matches Err(HandleError::NotModuleOutput { resource: x }) ==> x@ == resource@
                && exists|j: int| 0 <= j < self.spec_resources().len() && #[trigger] self.spec_resources()[j].id@ == resource@
                    && !holds_position(self.spec_module_outputs(), j),
            r matches Err(HandleError::ConcreteType { resource: x, expected, actual }) ==> x@ == resource@
                && expected != actual && exists|j: int| 0 <= j < self.spec_resources().len()
                    && #[trigger] self.spec_resources()[j].id@ == resource@ && self.spec_resources()[j].concrete_type == expected,
            r matches Err(e) ==> !(e is NotModuleInput),
            (r is Err && r->Err_0 is UnknownResource) <==> forall|j: int|
                0 <= j < self.spec_resources().len() ==> #[trigger] self.spec_resources()[j].id@ != resource@,
            (exists|j: int| #[trigger] first_named(self.spec_resources(), resource@, j) && !holds_position(self.spec_module_outputs(), j))
                ==> r is Err && r->Err_0 is NotModuleOutput,
            r matches Err(HandleError::ConcreteType { .. }) ==> exists|j: int|
                #[trigger] first_named(self.spec_resources(), resource@, j) && holds_position(self.spec_module_outputs(), j),
    {
        let index = match self.resource_index(resource) {
            Ok(x) => x,
            Err(e) => {
                return Err(e);
            },
        };
        if !Self::holds(&self.module_outputs, index) {
            return Err(HandleError::NotModuleOutput { resource: resource.clone() });
        }
        let expected = self.resources[index.0].concrete_type;
        let actual = ConcreteType::of::<T>();
        if !expected.same_as(actual) {
            proof {
                assert(first_named(self.spec_resources(), resource@, index.value() as int));
            }
            return Err(HandleError::ConcreteType { resource: self.resources[index.0].id.clone(), expected, actual });
        }
        Ok(OutputHandle { resource: index, plan_token: self.plan_token, marker: core::marker::PhantomData })
    }
}

/// Resource `j` is the first of `resources` named `id`.
pub open spec fn first_named(resources: Seq<DenseResource>, id: Seq<char>, j: int) -> bool {
    &&& 0 <= j < resources.len()
    &&& resources[j].id@ == id
    &&& forall|i: int| 0 <= i < j ==> (#[trigger] resources[i]).id@ != id
}

fn dense_bindings(g: &CompiledGraph, bs: &Vec<ResolvedBinding>) -> (r: Result<Vec<DenseBinding>, CompileError>)
    ensures
        r matches Ok(out) ==> out@.len() == bs@.len() && forall|k: int|
            0 <= k < out@.len() ==> dense_binding_of(*g, bs@[k], #[trigger] out@[k]),
        r is Ok <==> forall|k: int| 0 <= k < bs@.len() ==> resource_known(g.resources@, (#[trigger] bs@[k]).resource@),
        r matches Err(e) ==> e is DenseResourceMissing && !resource_known(g.resources@, e->DenseResourceMissing_resource@)
            && exists|k: int| 0 <= k < bs@.len() && (#[trigger] bs@[k]).resource@ == e->DenseResourceMissing_resource@,
{
    let mut out: Vec<DenseBinding> = Vec::new();
    let mut k: usize = 0;
    while k < bs.len()
        invariant
            k <= bs@.len(),
            out@.len() == k,
            forall|t: int| 0 <= t < k ==> dense_binding_of(*g, bs@[t], #[trigger] out@[t]),
            forall|t: int| 0 <= t < k ==> resource_known(g.resources@, (#[trigger] bs@[t]).resource@),
        decreases bs@.len() - k,
    {
        match resource_position(&g.resources, &bs[k].resource) {
            Some(x) => {
                out.push(DenseBinding { port: bs[k].port.clone(), resource: x, concrete_type: bs[k].concrete_type });
            },
            None => {
                return Err(CompileError::DenseResourceMissing { resource: bs[k].resource.clone() });
            },
        }
        k = k + 1;
    }
    Ok(out)
}

fn dense_unit_indices(g: &CompiledGraph, ids: &Vec<UnitId>) -> (r: Result<Vec<UnitIndex>, CompileError>)
    ensures
        r matches Ok(out) ==> out@.len() == ids@.len() && forall|k: int|
            0 <= k < out@.len() ==> last_unit(g.units@, ids@[k]@, (#[trigger] out@[k]).value() as int),
        r is Ok <==> forall|k: int| 0 <= k < ids@.len() ==> unit_known(g.units@, (#[trigger] ids@[k])@),
        r matches Err(e) ==> e is DenseUnitMissing && !unit_known(g.units@, e->DenseUnitMissing_unit@)
            && exists|k: int| 0 <= k < ids@.len() && (#[trigger] ids@[k])@ == e->DenseUnitMissing_unit@,
{
    let mut out: Vec<UnitIndex> = Vec::new();
    let mut k: usize = 0;
    while k < ids.len()
        invariant
            k <= ids@.len(),
            out@.len() == k,
            forall|t: int| 0 <= t < k ==> last_unit(g.units@, ids@[t]@, (#[trigger] out@[t]).value() as int),
            forall|t: int| 0 <= t < k ==> unit_known(g.units@, (#[trigger] ids@[t])@),
        decreases ids@.len() - k,
    {
        match unit_position(&g.units, &ids[k]) {
            Some(x) => {
                out.push(x);
            },
            None => {
                return Err(CompileError::DenseUnitMissing { unit: ids[k].clone() });
            },
        }
        k = k + 1;
    }
    Ok(out)
}

impl CompiledGraph {
    /// Replaces names by positions: each binding, dependency, scheduled unit
    /// and Module output is looked up by id (the last entry with that id).
    pub fn into_dense(self, plan_token: u64) -> (r: Result<DenseGraph, CompileError>)
        ensures
            r is Ok <==> dense_complete(self),
            r matches Ok(d) ==> d.spec_plan_token() == plan_token
                && d.spec_units().len() == self.units@.len()
                && (forall|i: int| 0 <= i < d.spec_units().len() ==> dense_unit_of(self, self.units@[i], #[trigger] d.spec_units()[i]))
                && d.spec_resources().len() == self.resources@.len()
                && (forall|k: int| 0 <= k < d.spec_resources().len() ==> (#[trigger] d.spec_resources()[k]).id@ == self.resources@[k].id@
                    && d.spec_resources()[k].semantic_type@ == self.resources@[k].semantic_type@
                    && d.spec_resources()[k].concrete_type == self.resources@[k].concrete_type)
                && d.spec_execution_order().len() == self.execution_order@.len()
                && (forall|k: int| 0 <= k < d.spec_execution_order().len() ==> last_unit(
                    self.units@,
                    self.execution_order@[k]@,
                    (#[trigger] d.spec_execution_order()[k]).value() as int,
                ))
                && (forall|x: ResourceIndex| d.spec_module_inputs().contains(x) <==> x.value() < self.resources@.len()
                    && (#[trigger] self.resources@[x.value() as int]).producer is ModuleInput)
                && (forall|x: ResourceIndex| d.spec_module_outputs().contains(x) <==> x.value() < self.resources@.len()
                    && exists|k: int| 0 <= k < self.module_outputs@.len()
                        && last_resource(self.resources@, (#[trigger] self.module_outputs@[k])@, x.value() as int))
                && (forall|a: int, b: int| 0 <= a < b < d.spec_module_inputs().len() ==>
                    (#[trigger] d.spec_module_inputs()[a]).value() < (#[trigger] d.spec_module_inputs()[b]).value())
                && (forall|a: int, b: int| 0 <= a < b < d.spec_module_outputs().len() ==>
                    (#[trigger] d.spec_module_outputs()[a]).value() < (#[trigger] d.spec_module_outputs()[b]).value()),
            r matches Err(e) ==> e is DenseResourceMissing || e is DenseUnitMissing,
    {
        let mut units: Vec<DenseUnit> = Vec::new();
        let mut i: usize = 0;
        while i < self.units.len()
            invariant
                i <= self.units@.len(),
                units@.len() == i,
                forall|t: int| 0 <= t < i ==> dense_unit_of(self, self.units@[t], #[trigger] units@[t]),
                forall|t: int, k: int|
                    0 <= t < i && 0 <= k < self.units@[t].inputs@.len() ==> resource_known(self.resources@, (#[trigger] self.units@[t].inputs@[k]).resource@),
                forall|t: int, k: int|
                    0 <= t < i && 0 <= k < self.units@[t].outputs@.len() ==> resource_known(self.resources@, (#[trigger] self.units@[t].outputs@[k]).resource@),
                forall|t: int, k: int|
                    0 <= t < i && 0 <= k < self.units@[t].dependencies@.len() ==> unit_known(self.units@, (#[trigger] self.units@[t].dependencies@[k])@),
            decreases self.units@.len() - i,
        {
            let u = &self.units[i];
            let inputs = match dense_bindings(&self, &u.inputs) {
                Ok(v) => v,
                Err(e) => {
                    proof {
                        let k = choose|k: int| 0 <= k < u.inputs@.len() && (#[trigger] u.inputs@[k]).resource@ == e->DenseResourceMissing_resource@;
                        assert(!resource_known(self.resources@, self.units@[i as int].inputs@[k].resource@));
                    }
                    return Err(e);
                },
            };
            let outputs = match dense_bindings(&self, &u.outputs) {
                Ok(v) => v,
                Err(e) => {
                    proof {
                        let k = choose|k: int| 0 <= k < u.outputs@.len() && (#[trigger] u.outputs@[k]).resource@ == e->DenseResourceMissing_resource@;
                        assert(!resource_known(self.resources@, self.units@[i as int].outputs@[k].resource@));
                    }
                    return Err(e);
                },
            };
            let dependencies = match dense_unit_indices(&self, &u.dependencies) {
                Ok(v) => v,
                Err(e) => {
                    proof {
                        let k = choose|k: int| 0 <= k < u.dependencies@.len() && (#[trigger] u.dependencies@[k])@ == e->DenseUnitMissing_unit@;
                        assert(!unit_known(self.units@, self.units@[i as int].dependencies@[k]@));
                    }
                    return Err(e);
                },
            };
            units.push(DenseUnit { id: u.id.clone(), unit_type: u.unit_type.clone(), inputs, outputs, dependencies });
            i = i + 1;
        }
        let execution_order = match dense_unit_indices(&self, &self.execution_order) {
            Ok(v) => v,
            Err(e) => {
                proof {
                    let k = choose|k: int| 0 <= k < self.execution_order@.len() && (#[trigger] self.execution_order@[k])@ == e->DenseUnitMissing_unit@;
                    assert(!unit_known(self.units@, self.execution_order@[k]@));
                }
                return Err(e);
            },
        };
        let mut module_inputs: Vec<ResourceIndex> = Vec::new();
        let mut k: usize = 0;
        while k < self.resources.len()
            invariant
                k <= self.resources@.len(),
                forall|x: ResourceIndex| module_inputs@.contains(x) <==> x.value() < k
                    && (#[trigger] self.resources@[x.value() as int]).producer is ModuleInput,
                forall|t: int| 0 <= t < module_inputs@.len() ==> (#[trigger] module_inputs@[t]).value() < k,
                forall|a: int, b: int| 0 <= a < b < module_inputs@.len() ==>
                    (#[trigger] module_inputs@[a]).value() < (#[trigger] module_inputs@[b]).value(),
            decreases self.resources@.len() - k,
        {
            let ghost before = module_inputs@;
            let is_input = match self.resources[k].producer {
                Producer::ModuleInput => true,
                _ => false,
            };
            if is_input {
                module_inputs.push(ResourceIndex(k));
            }
            proof {
                assert forall|x: ResourceIndex| module_inputs@.contains(x) <==> x.value() < k + 1
                    && (#[trigger] self.resources@[x.value() as int]).producer is ModuleInput by {
                    if module_inputs@.contains(x) {
                        let t = choose|t: int| 0 <= t < module_inputs@.len() && module_inputs@[t] == x;
                        if t < before.len() {
                            assert(before[t] == x);
                            assert(before.contains(x));
                        }
                    }
                    if x.value() < k + 1 && self.resources@[x.value() as int].producer is ModuleInput {
                        if x.value() < k {
                            assert(before.contains(x));
                            let t = choose|t: int| 0 <= t < before.len() && before[t] == x;
                            assert(module_inputs@[t] == x);
                        } else {
                            assert(module_inputs@[before.len() as int] == x);
                        }
                    }
                }
            }
            k = k + 1;
        }
        let mut output_positions: Vec<ResourceIndex> = Vec::new();
        let mut k: usize = 0;
        while k < self.module_outputs.len()
            invariant
                k <= self.module_outputs@.len(),
                output_positions@.len() == k,
                forall|t: int| 0 <= t < k ==> last_resource(self.resources@, self.module_outputs@[t]@, (#[trigger] output_positions@[t]).value() as int),
                forall|t: int| 0 <= t < k ==> resource_known(self.resources@, (#[trigger] self.module_outputs@[t])@),
            decreases self.module_outputs@.len() - k,
        {
            match resource_position(&self.resources, &self.module_outputs[k]) {
                Some(x) => {
                    output_positions.push(x);
                },
                None => {
                    proof {
                        assert(!resource_known(self.resources@, self.module_outputs@[k as int]@));

                    }
                    return Err(CompileError::DenseResourceMissing { resource: self.module_outputs[k].clone() });
                },
            }
            k = k + 1;
        }
        let mut module_outputs: Vec<ResourceIndex> = Vec::new();
        let mut k: usize = 0;
        while k < self.resources.len()
            invariant
                k <= self.resources@.len(),
                output_positions@.len() == self.module_outputs@.len(),
                forall|t: int| 0 <= t < output_positions@.len() ==> last_resource(self.resources@, self.module_outputs@[t]@, (#[trigger] output_positions@[t]).value() as int),
                forall|x: ResourceIndex| module_outputs@.contains(x) <==> x.value() < k
                    && output_positions@.contains(x),
                forall|t: int| 0 <= t < module_outputs@.len() ==> (#[trigger] module_outputs@[t]).value() < k,
                forall|a: int, b: int| 0 <= a < b < module_outputs@.len() ==>
                    (#[trigger] module_outputs@[a]).value() < (#[trigger] module_outputs@[b]).value(),
            decreases self.resources@.len() - k,
        {
            let ghost before = module_outputs@;
            if Self::listed_position(&output_positions, k) {
                module_outputs.push(ResourceIndex(k));
            }
            proof {
                assert forall|x: ResourceIndex| module_outputs@.contains(x) <==> x.value() < k + 1
                    && output_positions@.contains(x) by {
                    if module_outputs@.contains(x) {
                        let t = choose|t: int| 0 <= t < module_outputs@.len() && module_outputs@[t] == x;
                        if t < before.len() {
                            assert(before[t] == x);
                            assert(before.contains(x));
                        }
                    }
                    if x.value() < k + 1 && output_positions@.contains(x) {
                        if x.value() < k {
                            assert(before.contains(x));
                            let t = choose|t: int| 0 <= t < before.len() && before[t] == x;
                            assert(module_outputs@[t] == x);
                        } else {
                            assert(x == ResourceIndex(k));
                            assert(module_outputs@[before.len() as int] == x);
                        }
                    }
                }
            }
            k = k + 1;
        }
        let mut resources: Vec<DenseResource> = Vec::new();
        let mut k: usize = 0;
        while k < self.resources.len()
            invariant
                k <= self.resources@.len(),
                resources@.len() == k,
                forall|t: int| 0 <= t < k ==> (#[trigger] resources@[t]).id@ == self.resources@[t].id@
                    && resources@[t].semantic_type@ == self.resources@[t].semantic_type@
                    && resources@[t].concrete_type == self.resources@[t].concrete_type,
            decreases self.resources@.len() - k,
        {
            let res = &self.resources[k];
            resources.push(DenseResource { id: res.id.clone(), semantic_type: res.semantic_type.clone(), concrete_type: res.concrete_type });
            k = k + 1;
        }
        proof {
            assert forall|x: ResourceIndex| module_outputs@.contains(x) <==> x.value() < self.resources@.len()
                && exists|k: int| 0 <= k < self.module_outputs@.len()
                    && last_resource(self.resources@, (#[trigger] self.module_outputs@[k])@, x.value() as int) by {
                if output_positions@.contains(x) {
                    let t = choose|t: int| 0 <= t < output_positions@.len() && output_positions@[t] == x;
                    assert(last_resource(self.resources@, self.module_outputs@[t]@, output_positions@[t].value() as int));
                }
                if exists|k: int| 0 <= k < self.module_outputs@.len()
                    && last_resource(self.resources@, (#[trigger] self.module_outputs@[k])@, x.value() as int) {
                    let k = choose|k: int| 0 <= k < self.module_outputs@.len()
                        && last_resource(self.resources@, (#[trigger] self.module_outputs@[k])@, x.value() as int);
                    let y = output_positions@[k];
                    assert(last_resource(self.resources@, self.module_outputs@[k]@, y.value() as int));
                    assert(y.value() == x.value());
                    assert(y == x);
                }
            }
        }
        Ok(DenseGraph { plan_token, units, resources, execution_order, module_inputs, module_outputs })
    }

    fn listed_position(set: &Vec<ResourceIndex>, k: usize) -> (r: bool)
        ensures
            r == set@.contains(ResourceIndex(k)),
    {
        let mut t: usize = 0;
        while t < set.len()
            invariant
                t <= set@.len(),
                forall|j: int| 0 <= j < t ==> set@[j] != ResourceIndex(k),
            decreases set@.len() - t,
        {
            if set[t].0 == k {
                return true;
            }
            t = t + 1;
        }
        false
    }
}

} // verus!
