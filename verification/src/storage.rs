//! Host input contracts, Resource lifetimes over the sequential schedule,
//! and conservative first-fit storage slot planning.

use vstd::prelude::*;

use crate::descriptor::{ResourceDescriptor, ResourceRegistry, StorageRepresentation};
use crate::ids::{ResourceId, SemanticType, UnitId};
use crate::sort::{empty_keys, is_perm, lemma_pair_lt_primary, lemma_sorted_strict, pair_lt, sort_by_keys};
use crate::text::{chars_of, lemma_seq_lt_irreflexive, lemma_seq_lt_total, lemma_seq_lt_transitive, seq_lt};
use crate::types::{CompiledGraph, CompiledResource, ConcreteType, Producer};

verus! {

/// What the prepared plan accepts for one host input Resource.
#[derive(Clone, Debug, PartialEq, Eq)]
pub struct PreparedInputSpec {
    pub resource: ResourceId,
    pub semantic_type: SemanticType,
    pub concrete_type: ConcreteType,
    pub maximum_capacity: usize,
    pub plan_token: u64,
}

impl PreparedInputSpec {
    /// A field-by-field copy.
    pub fn copy(&self) -> (r: Self)
        ensures
            same_spec(r, *self),
    {
        PreparedInputSpec {
            resource: self.resource.clone(),
            semantic_type: self.semantic_type.clone(),
            concrete_type: self.concrete_type,
            maximum_capacity: self.maximum_capacity,
            plan_token: self.plan_token,
        }
    }

    /// The contract of a host input stored as `T`.
    pub fn of<T: 'static>(resource: ResourceId, semantic_type: SemanticType, maximum_capacity: usize, plan_token: u64) -> (r: Self)
        ensures
            r.resource@ == resource@,
            r.semantic_type@ == semantic_type@,
            r.maximum_capacity == maximum_capacity,
            r.plan_token == plan_token,
    {
        PreparedInputSpec { resource, semantic_type, concrete_type: ConcreteType::of::<T>(), maximum_capacity, plan_token }
    }
}

/// One host-supplied input.
#[derive(Clone, Debug, PartialEq, Eq)]
pub struct ModuleInput {
    pub resource: ResourceId,
    pub semantic_type: SemanticType,
    pub concrete_type: ConcreteType,
    pub capacity: usize,
    pub plan_token: u64,
}

impl ModuleInput {
    /// A host input of type `T`.
    pub fn of<T: 'static>(resource: ResourceId, semantic_type: SemanticType, capacity: usize, plan_token: u64) -> (r: Self)
        ensures
            r.resource@ == resource@,
            r.semantic_type@ == semantic_type@,
            r.capacity == capacity,
            r.plan_token == plan_token,
    {
        ModuleInput { resource, semantic_type, concrete_type: ConcreteType::of::<T>(), capacity, plan_token }
    }
}

#[derive(Clone, Debug, PartialEq, Eq)]
pub enum InputValidationError {
    DuplicatePrepared { resource: ResourceId },
    Duplicate { resource: ResourceId },
    Missing { resource: ResourceId },
    Unknown { resource: ResourceId },
    SemanticType { resource: ResourceId },
    ConcreteType { resource: ResourceId, expected: ConcreteType, actual: ConcreteType },
    Capacity { resource: ResourceId, supplied: usize, maximum: usize },
    PreparedPlan { resource: ResourceId },
}

/// The complete prepared host-input set, ordered by Resource id.
#[derive(Debug, PartialEq, Eq)]
pub struct PreparedInputPlan {
    inputs: Vec<PreparedInputSpec>,
}

/// Two contracts agree field by field.
pub open spec fn same_spec(a: PreparedInputSpec, b: PreparedInputSpec) -> bool {
    &&& a.resource@ == b.resource@
    &&& a.semantic_type@ == b.semantic_type@
    &&& a.concrete_type == b.concrete_type
    &&& a.maximum_capacity == b.maximum_capacity
    &&& a.plan_token == b.plan_token
}

/// `e` agrees with some contract of `s`.
pub open spec fn spec_listed(s: Seq<PreparedInputSpec>, e: PreparedInputSpec) -> bool {
    exists|j: int| 0 <= j < s.len() && #[trigger] same_spec(e, s[j])
}

/// `s` names each Resource once, in increasing id order.
pub open spec fn specs_sorted(s: Seq<PreparedInputSpec>) -> bool {
    forall|a: int, b: int| 0 <= a < b < s.len() ==> seq_lt(#[trigger] s[a].resource@, #[trigger] s[b].resource@)
}

/// The host inputs name distinct Resources.
pub open spec fn supplied_unique(s: Seq<ModuleInput>) -> bool {
    forall|a: int, b: int| 0 <= a < b < s.len() ==> #[trigger] s[a].resource@ != #[trigger] s[b].resource@
}

/// The plan holds a contract for Resource `x`.
pub open spec fn planned(p: Seq<PreparedInputSpec>, x: Seq<char>) -> bool {
    exists|k: int| 0 <= k < p.len() && #[trigger] p[k].resource@ == x
}

/// Host input `m` satisfies contract `e`.
pub open spec fn meets(m: ModuleInput, e: PreparedInputSpec) -> bool {
    &&& m.resource@ == e.resource@
    &&& m.semantic_type@ == e.semantic_type@
    &&& m.concrete_type == e.concrete_type
    &&& m.capacity <= e.maximum_capacity
    &&& m.plan_token == e.plan_token
}

/// Some host input satisfies contract `e`.
pub open spec fn supplied_for(s: Seq<ModuleInput>, e: PreparedInputSpec) -> bool {
    exists|k: int| 0 <= k < s.len() && #[trigger] meets(s[k], e)
}

/// The host inputs are exactly the planned Resources, each within contract.
pub open spec fn inputs_accepted(p: Seq<PreparedInputSpec>, s: Seq<ModuleInput>) -> bool {
    &&& supplied_unique(s)
    &&& forall|k: int| 0 <= k < s.len() ==> planned(p, (#[trigger] s[k]).resource@)
    &&& forall|k: int| 0 <= k < p.len() ==> supplied_for(s, #[trigger] p[k])
}

impl PreparedInputPlan {
    pub closed spec fn entries(&self) -> Seq<PreparedInputSpec> {
        self.inputs@
    }

    /// A plan keeps its contracts in increasing Resource order.
    #[verifier::type_invariant]
    spec fn kept_sorted(&self) -> bool {
        specs_sorted(self.inputs@)
    }


    /// Builds the plan; the first contract whose Resource was already given
    /// is reported.
    pub fn new(inputs: Vec<PreparedInputSpec>) -> (r: Result<Self, InputValidationError>)
        ensures
            r matches Ok(plan) ==> specs_sorted(plan.entries()) && plan.entries().len() == inputs@.len()
                && forall|k: int| 0 <= k < plan.entries().len() ==> spec_listed(inputs@, #[trigger] plan.entries()[k]),
            r is Ok <==> forall|a: int, b: int| 0 <= a < b < inputs@.len() ==> #[trigger] inputs@[a].resource@ != #[trigger] inputs@[b].resource@,
            r matches Err(e) ==> e is DuplicatePrepared && exists|a: int, b: int| 0 <= a < b < inputs@.len()
                && #[trigger] inputs@[a].resource@ == e->DuplicatePrepared_resource@ && #[trigger] inputs@[b].resource@ == e->DuplicatePrepared_resource@,
    {
        let mut b: usize = 0;
        while b < inputs.len()
            invariant
                b <= inputs@.len(),
                forall|x: int, y: int| 0 <= x < y < b ==> #[trigger] inputs@[x].resource@ != #[trigger] inputs@[y].resource@,
            decreases inputs@.len() - b,
        {
            let mut a: usize = 0;
            while a < b
                invariant
                    a <= b < inputs@.len(),
                    forall|x: int, y: int| 0 <= x < y < b ==> #[trigger] inputs@[x].resource@ != #[trigger] inputs@[y].resource@,
                    forall|x: int| 0 <= x < a ==> #[trigger] inputs@[x].resource@ != inputs@[b as int].resource@,
                decreases b - a,
            {
                if inputs[a].resource == inputs[b].resource {
                    return Err(InputValidationError::DuplicatePrepared { resource: inputs[b].resource.clone() });
                }
                a = a + 1;
            }
            b = b + 1;
        }
        let mut k1: Vec<Vec<char>> = Vec::new();
        let mut i: usize = 0;
        while i < inputs.len()
            invariant
                i <= inputs@.len(),
                k1@.len() == i,
                forall|t: int| 0 <= t < i ==> (#[trigger] k1@[t])@ == inputs@[t].resource@,
            decreases inputs@.len() - i,
        {
            k1.push(chars_of(inputs[i].resource.as_str()));
            i = i + 1;
        }
        let k2 = empty_keys(k1.len());
        let p = sort_by_keys(&k1, &k2);
        let ghost s1 = k1@.map_values(|v: Vec<char>| v@);
        let ghost s2 = k2@.map_values(|v: Vec<char>| v@);
        proof {
            assert forall|a: int, b: int| 0 <= a < b < s1.len() implies #[trigger] s1[a] != #[trigger] s1[b] || s2[a] != s2[b] by {
                assert(s1[a] == inputs@[a].resource@ && s1[b] == inputs@[b].resource@);
            }
            lemma_sorted_strict(p@, s1, s2);
        }
        let mut out: Vec<PreparedInputSpec> = Vec::new();
        let mut t: usize = 0;
        while t < p.len()
            invariant
                is_perm(p@, inputs@.len()),
                s1 == k1@.map_values(|v: Vec<char>| v@),
                s2 == k2@.map_values(|v: Vec<char>| v@),
                s1.len() == inputs@.len(),
                s2.len() == inputs@.len(),
                forall|w: int| 0 <= w < inputs@.len() ==> (#[trigger] s1[w]) == inputs@[w].resource@,
                forall|w: int| 0 <= w < inputs@.len() ==> (#[trigger] s2[w]) == Seq::<char>::empty(),
                forall|a: int, b: int|
                    0 <= a < b < p@.len() ==> pair_lt(
                        s1[#[trigger] p@[a] as int],
                        s2[p@[a] as int],
                        s1[#[trigger] p@[b] as int],
                        s2[p@[b] as int],
                    ),
                t <= p@.len(),
                out@.len() == t,
                forall|w: int| 0 <= w < t ==> same_spec(#[trigger] out@[w], inputs@[p@[w] as int]),
            decreases p@.len() - t,
        {
            out.push(inputs[p[t]].copy());
            t = t + 1;
        }
        proof {
            assert forall|a: int, b: int| 0 <= a < b < out@.len() implies seq_lt(#[trigger] out@[a].resource@, #[trigger] out@[b].resource@) by {
                let x = p@[a] as int;
                let y = p@[b] as int;
                lemma_pair_lt_primary(s1[x], s1[y]);
            }
            assert forall|k: int| 0 <= k < out@.len() implies spec_listed(inputs@, #[trigger] out@[k]) by {
                assert(same_spec(out@[k], inputs@[p@[k] as int]));
            }
        }
        Ok(PreparedInputPlan { inputs: out })
    }
}


fn find_supplied(supplied: &[ModuleInput], resource: &ResourceId) -> (r: Option<usize>)
    ensures
        r is None <==> forall|k: int| 0 <= k < supplied@.len() ==> (#[trigger] supplied@[k]).resource@ != resource@,
        r matches Some(k) ==> k < supplied@.len() && supplied@[k as int].resource@ == resource@,
{
    let mut k: usize = 0;
    while k < supplied.len()
        invariant
            k <= supplied@.len(),
            forall|t: int| 0 <= t < k ==> (#[trigger] supplied@[t]).resource@ != resource@,
        decreases supplied@.len() - k,
    {
        if supplied[k].resource == *resource {
            return Some(k);
        }
        k = k + 1;
    }
    None
}

/// The Resource a validation error names.
pub open spec fn failed_resource(e: InputValidationError) -> Seq<char> {
    match e {
        InputValidationError::DuplicatePrepared { resource } => resource@,
        InputValidationError::Duplicate { resource } => resource@,
        InputValidationError::Missing { resource } => resource@,
        InputValidationError::Unknown { resource } => resource@,
        InputValidationError::SemanticType { resource } => resource@,
        InputValidationError::ConcreteType { resource, .. } => resource@,
        InputValidationError::Capacity { resource, .. } => resource@,
        InputValidationError::PreparedPlan { resource } => resource@,
    }
}

/// Which check a rejection came from: repeated inputs are reported first,
/// then an unplanned input, then the first planned contract, in Resource
/// order, that the inputs do not meet.
pub open spec fn rejected_in_order(entries: Seq<PreparedInputSpec>, supplied: Seq<ModuleInput>, e: InputValidationError) -> bool {
    &&& !(e is Duplicate) ==> supplied_unique(supplied)
    &&& !(e is Duplicate || e is Unknown) ==> (forall|k: int|
        0 <= k < supplied.len() ==> planned(entries, (#[trigger] supplied[k]).resource@)) && exists|x: int|
        0 <= x < entries.len() && entries[x].resource@ == failed_resource(e) && forall|j: int|
            0 <= j < x ==> supplied_for(supplied, #[trigger] entries[j])
}

/// What a rejection of `supplied` against the prepared plan `entries`
/// reports: the error's Resource is where the listed defect lies.
pub open spec fn rejects_with(entries: Seq<PreparedInputSpec>, supplied: Seq<ModuleInput>, e: InputValidationError) -> bool {
    &&& (e matches InputValidationError::Duplicate { resource } ==> exists|a: int, b: int|
                0 <= a < b < supplied.len() && #[trigger] supplied[a].resource@ == resource@
                    && #[trigger] supplied[b].resource@ == resource@)
    &&& (e matches InputValidationError::Unknown { resource } ==> supplied_unique(supplied)
                && !planned(entries, resource@)
                && (exists|k: int| 0 <= k < supplied.len() && (#[trigger] supplied[k]).resource@ == resource@)
                && forall|k: int| 0 <= k < supplied.len() && !planned(entries, (#[trigger] supplied[k]).resource@)
                    ==> !seq_lt(supplied[k].resource@, resource@))
    &&& (e matches InputValidationError::Missing { resource } ==> planned(entries, resource@)
                && forall|k: int| 0 <= k < supplied.len() ==> (#[trigger] supplied[k]).resource@ != resource@)
    &&& (e matches InputValidationError::SemanticType { resource } ==> exists|e: int, k: int|
                0 <= e < entries.len() && 0 <= k < supplied.len() && #[trigger] entries[e].resource@ == resource@
                    && #[trigger] supplied[k].resource@ == resource@ && supplied[k].semantic_type@ != entries[e].semantic_type@)
    &&& (e matches InputValidationError::ConcreteType { resource, expected, actual } ==> exists|e: int, k: int|
                0 <= e < entries.len() && 0 <= k < supplied.len() && #[trigger] entries[e].resource@ == resource@
                    && #[trigger] supplied[k].resource@ == resource@ && expected == entries[e].concrete_type
                    && actual == supplied[k].concrete_type && expected != actual)
    &&& (e matches InputValidationError::Capacity { resource, supplied: c, maximum } ==> exists|e: int, k: int|
                0 <= e < entries.len() && 0 <= k < supplied.len() && #[trigger] entries[e].resource@ == resource@
                    && #[trigger] supplied[k].resource@ == resource@ && c == supplied[k].capacity
                    && maximum == entries[e].maximum_capacity && c > maximum)
    &&& (e matches InputValidationError::PreparedPlan { resource } ==> exists|e: int, k: int|
                0 <= e < entries.len() && 0 <= k < supplied.len() && #[trigger] entries[e].resource@ == resource@
                    && #[trigger] supplied[k].resource@ == resource@ && supplied[k].plan_token != entries[e].plan_token)
    &&& !(e is DuplicatePrepared)
}

impl PreparedInputPlan {
    fn find_planned(&self, resource: &ResourceId) -> (r: bool)
        ensures
            r == planned(self.entries(), resource@),
    {
        let mut k: usize = 0;
        while k < self.inputs.len()
            invariant
                k <= self.inputs@.len(),
                forall|t: int| 0 <= t < k ==> (#[trigger] self.inputs@[t]).resource@ != resource@,
            decreases self.inputs@.len() - k,
        {
            if self.inputs[k].resource == *resource {
                return true;
            }
            k = k + 1;
        }
        false
    }

    /// Checks the complete host-input set against the plan: Resources are
    /// supplied once (the first repeated one is reported), only planned
    /// Resources are supplied (the least unplanned id is reported), and each
    /// planned Resource, in id order, is present with its semantic type,
    /// representation, a capacity within bounds, and the plan's token.
    pub fn validate(&self, supplied: &[ModuleInput]) -> (r: Result<(), InputValidationError>)
        ensures
            r is Ok <==> inputs_accepted(self.entries(), supplied@),
            r matches Err(InputValidationError::Duplicate { resource }) ==> exists|a: int, b: int|
                0 <= a < b < supplied@.len() && #[trigger] supplied@[a].resource@ == resource@
                    && #[trigger] supplied@[b].resource@ == resource@,
            r matches Err(InputValidationError::Unknown { resource }) ==> supplied_unique(supplied@)
                && !planned(self.entries(), resource@)
                && (exists|k: int| 0 <= k < supplied@.len() && (#[trigger] supplied@[k]).resource@ == resource@)
                && forall|k: int| 0 <= k < supplied@.len() && !planned(self.entries(), (#[trigger] supplied@[k]).resource@)
                    ==> !seq_lt(supplied@[k].resource@, resource@),
            r matches Err(InputValidationError::Missing { resource }) ==> planned(self.entries(), resource@)
                && forall|k: int| 0 <= k < supplied@.len() ==> (#[trigger] supplied@[k]).resource@ != resource@,
            r matches Err(InputValidationError::SemanticType { resource }) ==> exists|e: int, k: int|
                0 <= e < self.entries().len() && 0 <= k < supplied@.len() && #[trigger] self.entries()[e].resource@ == resource@
                    && #[trigger] supplied@[k].resource@ == resource@ && supplied@[k].semantic_type@ != self.entries()[e].semantic_type@,
            r matches Err(InputValidationError::ConcreteType { resource, expected, actual }) ==> exists|e: int, k: int|
                0 <= e < self.entries().len() && 0 <= k < supplied@.len() && #[trigger] self.entries()[e].resource@ == resource@
                    && #[trigger] supplied@[k].resource@ == resource@ && expected == self.entries()[e].concrete_type
                    && actual == supplied@[k].concrete_type && expected != actual,
            r matches Err(InputValidationError::Capacity { resource, supplied: c, maximum }) ==> exists|e: int, k: int|
                0 <= e < self.entries().len() && 0 <= k < supplied@.len() && #[trigger] self.entries()[e].resource@ == resource@
                    && #[trigger] supplied@[k].resource@ == resource@ && c == supplied@[k].capacity
                    && maximum == self.entries()[e].maximum_capacity && c > maximum,
            r matches Err(InputValidationError::PreparedPlan { resource }) ==> exists|e: int, k: int|
                0 <= e < self.entries().len() && 0 <= k < supplied@.len() && #[trigger] self.entries()[e].resource@ == resource@
                    && #[trigger] supplied@[k].resource@ == resource@ && supplied@[k].plan_token != self.entries()[e].plan_token,
            r matches Err(e) ==> rejects_with(self.entries(), supplied@, e),
            r matches Err(e) ==> rejected_in_order(self.entries(), supplied@, e),
            r matches Err(e) ==> !(e is DuplicatePrepared),
    {
        proof {
            use_type_invariant(self);
        }
        let mut b: usize = 0;
        while b < supplied.len()
            invariant
                b <= supplied@.len(),
                forall|x: int, y: int| 0 <= x < y < b ==> #[trigger] supplied@[x].resource@ != #[trigger] supplied@[y].resource@,
            decreases supplied@.len() - b,
        {
            let mut a: usize = 0;
            while a < b
                invariant
                    a <= b < supplied@.len(),
                    forall|x: int, y: int| 0 <= x < y < b ==> #[trigger] supplied@[x].resource@ != #[trigger] supplied@[y].resource@,
                    forall|x: int| 0 <= x < a ==> #[trigger] supplied@[x].resource@ != supplied@[b as int].resource@,
                decreases b - a,
            {
                if supplied[a].resource == supplied[b].resource {
                    return Err(InputValidationError::Duplicate { resource: supplied[b].resource.clone() });
                }
                a = a + 1;
            }
            b = b + 1;
        }
        let mut best: Option<usize> = None;
        let mut k: usize = 0;
        while k < supplied.len()
            invariant
                k <= supplied@.len(),
                best is None ==> forall|t: int| 0 <= t < k ==> planned(self.entries(), (#[trigger] supplied@[t]).resource@),
                best matches Some(x) ==> x < k && !planned(self.entries(), supplied@[x as int].resource@)
                    && forall|t: int| 0 <= t < k && !planned(self.entries(), (#[trigger] supplied@[t]).resource@)
                        ==> !seq_lt(supplied@[t].resource@, supplied@[x as int].resource@),
            decreases supplied@.len() - k,
        {
            if !self.find_planned(&supplied[k].resource) {
                match best {
                    None => {
                        proof {
                            lemma_seq_lt_irreflexive(supplied@[k as int].resource@);
                        }
                        best = Some(k);
                    },
                    Some(x) => {
                        if supplied[k].resource.less_than(&supplied[x].resource) {
                            proof {
                                assert forall|t: int| 0 <= t < k + 1 && !planned(self.entries(), (#[trigger] supplied@[t]).resource@)
                                    implies !seq_lt(supplied@[t].resource@, supplied@[k as int].resource@) by {
                                    if t < k && seq_lt(supplied@[t].resource@, supplied@[k as int].resource@) {
                                        lemma_seq_lt_transitive(supplied@[t].resource@, supplied@[k as int].resource@, supplied@[x as int].resource@);
                                    }
                                    if t == k {
                                        lemma_seq_lt_irreflexive(supplied@[t].resource@);
                                    }
                                }
                            }
                            best = Some(k);
                        } else {
                            proof {
                                lemma_seq_lt_total(supplied@[k as int].resource@, supplied@[x as int].resource@);
                            }
                        }
                    },
                }
            }
            k = k + 1;
        }
        match best {
            Some(x) => {
                return Err(InputValidationError::Unknown { resource: supplied[x].resource.clone() });
            },
            None => {},
        }
        let mut e: usize = 0;
        while e < self.inputs.len()
            invariant
                e <= self.inputs@.len(),
                supplied_unique(supplied@),
                forall|t: int| 0 <= t < supplied@.len() ==> planned(self.entries(), (#[trigger] supplied@[t]).resource@),
                forall|t: int| 0 <= t < e ==> supplied_for(supplied@, #[trigger] self.entries()[t]),
            decreases self.inputs@.len() - e,
        {
            let expected = &self.inputs[e];
            proof {
                assert(self.entries()[e as int].resource@ == expected.resource@);
            }
            let k = match find_supplied(supplied, &expected.resource) {
                Some(k) => k,
                None => {
                    proof {
                        assert(planned(self.entries(), expected.resource@)) by {
                            assert(self.entries()[e as int].resource@ == expected.resource@);
                        }
                    }
                    return Err(InputValidationError::Missing { resource: expected.resource.clone() });
                },
            };
            let actual = &supplied[k];
            proof {
                assert(self.entries()[e as int] == *expected);
                assert forall|j: int| 0 <= j < supplied@.len() && #[trigger] meets(supplied@[j], *expected) implies j == k by {
                    if j < k {
                        assert(supplied@[j].resource@ != supplied@[k as int].resource@);
                    } else if k < j {
                        assert(supplied@[k as int].resource@ != supplied@[j].resource@);
                    }
                }
            }
            if actual.semantic_type != expected.semantic_type {
                return Err(InputValidationError::SemanticType { resource: expected.resource.clone() });
            }
            if !expected.concrete_type.same_as(actual.concrete_type) {
                return Err(InputValidationError::ConcreteType {
                    resource: expected.resource.clone(),
                    expected: expected.concrete_type,
                    actual: actual.concrete_type,
                });
            }
            if actual.capacity > expected.maximum_capacity {
                return Err(InputValidationError::Capacity {
                    resource: expected.resource.clone(),
                    supplied: actual.capacity,
                    maximum: expected.maximum_capacity,
                });
            }
            if actual.plan_token != expected.plan_token {
                return Err(InputValidationError::PreparedPlan { resource: expected.resource.clone() });
            }
            proof {
                assert(meets(supplied@[k as int], self.entries()[e as int]));
            }
            e = e + 1;
        }
        Ok(())
    }
}


/// Inclusive sequential execution interval for one logical Resource.
#[derive(Clone, Copy, Debug, PartialEq, Eq, Structural)]
pub struct LiveRange {
    pub start: usize,
    pub end: usize,
}

impl LiveRange {
    pub open spec fn spec_overlaps(self, other: Self) -> bool {
        self.start <= other.end && other.start <= self.end
    }

    /// The two inclusive intervals share a step.
    pub fn overlaps(self, other: Self) -> (r: bool)
        ensures
            r == self.spec_overlaps(other),
    {
        self.start <= other.end && other.start <= self.end
    }
}

/// Unit-resolved quantity. Representation details deliberately remain absent.
#[derive(Clone, Copy, Debug, PartialEq, Eq, Structural)]
pub struct ResourceRequirement {
    pub capacity: usize,
}

#[derive(Clone, Debug, PartialEq, Eq)]
pub struct SlotAssignment {
    pub resource: ResourceId,
    pub slot: usize,
    pub live_range: LiveRange,
    pub capacity: usize,
    pub bytes: usize,
}

#[derive(Clone, Debug, PartialEq, Eq)]
pub struct StorageReport {
    pub assignments: Vec<SlotAssignment>,
    pub slot_count: usize,
    pub estimated_peak_bytes: usize,
}

#[derive(Clone, Debug, PartialEq, Eq)]
pub struct StoragePlan {
    report: StorageReport,
}

impl StoragePlan {
    pub closed spec fn spec_report(&self) -> StorageReport {
        self.report
    }

    /// The planned assignments and their totals.
    pub fn report(&self) -> (r: &StorageReport)
        ensures
            *r == self.spec_report(),
    {
        &self.report
    }
}

#[derive(Clone, Debug, PartialEq, Eq)]
pub enum PlanningError {
    MissingDescriptor { resource: ResourceId },
    MissingRequirement { resource: ResourceId },
    SizeOverflow { resource: ResourceId },
    InvalidGraph { resource: ResourceId },
}

/// `p` is the last schedule position of unit `id` (a map built in order keeps it).
pub open spec fn scheduled_at(order: Seq<UnitId>, id: Seq<char>, p: int) -> bool {
    &&& 0 <= p < order.len()
    &&& order[p]@ == id
    &&& forall|q: int| p < q < order.len() ==> #[trigger] order[q]@ != id
}

/// Unit `id` is scheduled.
pub open spec fn scheduled(order: Seq<UnitId>, id: Seq<char>) -> bool {
    exists|p: int| 0 <= p < order.len() && #[trigger] order[p]@ == id
}

/// The Module outputs name `x`.
pub open spec fn output_named(g: CompiledGraph, x: Seq<char>) -> bool {
    exists|k: int| 0 <= k < g.module_outputs@.len() && #[trigger] g.module_outputs@[k]@ == x
}

/// The producer and every consumer of `res` are scheduled.
pub open spec fn placed(g: CompiledGraph, res: CompiledResource) -> bool {
    &&& (res.producer is Unit ==> scheduled(g.execution_order@, res.producer->unit@))
    &&& forall|c: int| 0 <= c < res.consumers@.len() ==> scheduled(g.execution_order@, (#[trigger] res.consumers@[c]).unit@)
}

/// Consumer `c` of `res` runs at step `p`.
pub open spec fn consumed_at(g: CompiledGraph, res: CompiledResource, c: int, p: int) -> bool {
    0 <= c < res.consumers@.len() && scheduled_at(g.execution_order@, res.consumers@[c].unit@, p)
}

/// `r` starts where `res` is produced (step 0 for a Module input) and ends at
/// its last consumer, or at the run end for a Module output.
pub open spec fn live_range_of(g: CompiledGraph, res: CompiledResource, r: LiveRange) -> bool {
    &&& (res.producer is ModuleInput ==> r.start == 0)
    &&& (res.producer is Unit ==> scheduled_at(g.execution_order@, res.producer->unit@, r.start as int))
    &&& if output_named(g, res.id@) {
        r.end == g.execution_order@.len()
    } else {
        &&& r.start <= r.end
        &&& forall|c: int, p: int| #[trigger] consumed_at(g, res, c, p) ==> p <= r.end
        &&& (r.end == r.start || exists|c: int| #[trigger] consumed_at(g, res, c, r.end as int))
    }
}

fn schedule_position(order: &Vec<UnitId>, id: &UnitId) -> (r: Option<usize>)
    ensures
        r is None <==> !scheduled(order@, id@),
        r matches Some(p) ==> scheduled_at(order@, id@, p as int),
{
    let mut k: usize = order.len();
    while k > 0
        invariant
            k <= order@.len(),
            forall|q: int| k <= q < order@.len() ==> #[trigger] order@[q]@ != id@,
        decreases k,
    {
        k = k - 1;
        if order[k] == *id {
            return Some(k);
        }
    }
    None
}

fn output_listed(g: &CompiledGraph, id: &ResourceId) -> (r: bool)
    ensures
        r == output_named(*g, id@),
{
    let mut k: usize = 0;
    while k < g.module_outputs.len()
        invariant
            k <= g.module_outputs@.len(),
            forall|t: int| 0 <= t < k ==> (#[trigger] g.module_outputs@[t])@ != id@,
        decreases g.module_outputs@.len() - k,
    {
        if g.module_outputs[k] == *id {
            return true;
        }
        k = k + 1;
    }
    false
}

fn range_for(g: &CompiledGraph, res: &CompiledResource) -> (r: Result<LiveRange, PlanningError>)
    ensures
        r is Ok <==> placed(*g, *res),
        r matches Ok(x) ==> live_range_of(*g, *res, x),
        r matches Err(e) ==> e is InvalidGraph && e->InvalidGraph_resource@ == res.id@,
{
    let start = match &res.producer {
        Producer::ModuleInput => 0,
        Producer::Unit { unit, .. } => match schedule_position(&g.execution_order, unit) {
            Some(p) => p,
            None => {
                return Err(PlanningError::InvalidGraph { resource: res.id.clone() });
            },
        },
    };
    let mut end = start;
    let mut c: usize = 0;
    while c < res.consumers.len()
        invariant
            c <= res.consumers@.len(),
            start <= end,
            res.producer is Unit ==> scheduled(g.execution_order@, res.producer->unit@),
            res.producer is ModuleInput ==> start == 0,
            res.producer is Unit ==> scheduled_at(g.execution_order@, res.producer->unit@, start as int),
            forall|t: int| 0 <= t < c ==> scheduled(g.execution_order@, (#[trigger] res.consumers@[t]).unit@),
            forall|t: int, p: int| 0 <= t < c && #[trigger] consumed_at(*g, *res, t, p) ==> p <= end,
            end == start || exists|t: int| 0 <= t < c && #[trigger] consumed_at(*g, *res, t, end as int),
        decreases res.consumers@.len() - c,
    {
        match schedule_position(&g.execution_order, &res.consumers[c].unit) {
            Some(p) => {
                proof {
                    assert(consumed_at(*g, *res, c as int, p as int));
                    assert forall|t: int, q: int| 0 <= t < c && #[trigger] consumed_at(*g, *res, t, q) && t == c implies q == p by {
                    }
                }
                if p > end {
                    end = p;
                }
                proof {
                    assert forall|t: int, q: int| 0 <= t < c + 1 && #[trigger] consumed_at(*g, *res, t, q) implies q <= end by {
                        if t == c {
                            if q != p {
                                if q < p {
                                    assert(g.execution_order@[q]@ != res.consumers@[c as int].unit@);
                                } else {
                                    assert(g.execution_order@[p as int]@ != res.consumers@[c as int].unit@);
                                }
                            }
                        }
                    }
                }
            },
            None => {
                return Err(PlanningError::InvalidGraph { resource: res.id.clone() });
            },
        }
        c = c + 1;
    }
    if output_listed(g, &res.id) {
        end = g.execution_order.len();
    }
    Ok(LiveRange { start, end })
}

/// The live range recorded for `id`: the last entry naming it.
pub open spec fn range_listed(ranges: Seq<(ResourceId, LiveRange)>, id: Seq<char>, r: LiveRange) -> bool {
    exists|k: int|
        0 <= k < ranges.len() && #[trigger] ranges[k].0@ == id && ranges[k].1 == r
            && forall|q: int| k < q < ranges.len() ==> (#[trigger] ranges[q]).0@ != id
}

/// Calculates lifetimes from the normalized sequential schedule, one entry
/// per Resource in graph order. Module outputs remain live through the
/// synthetic run-end step.
pub fn calculate_live_ranges(graph: &CompiledGraph) -> (r: Result<Vec<(ResourceId, LiveRange)>, PlanningError>)
    ensures
        r is Ok <==> forall|k: int| 0 <= k < graph.resources@.len() ==> placed(*graph, #[trigger] graph.resources@[k]),
        r matches Ok(ranges) ==> ranges@.len() == graph.resources@.len() && forall|k: int|
            0 <= k < ranges@.len() ==> (#[trigger] ranges@[k]).0@ == graph.resources@[k].id@
                && live_range_of(*graph, graph.resources@[k], ranges@[k].1),
        r matches Err(e) ==> e is InvalidGraph && exists|k: int|
            0 <= k < graph.resources@.len() && (#[trigger] graph.resources@[k]).id@ == e->InvalidGraph_resource@
                && !placed(*graph, graph.resources@[k]),
{
    let mut ranges: Vec<(ResourceId, LiveRange)> = Vec::new();
    let mut k: usize = 0;
    while k < graph.resources.len()
        invariant
            k <= graph.resources@.len(),
            ranges@.len() == k,
            forall|t: int| 0 <= t < k ==> placed(*graph, #[trigger] graph.resources@[t]),
            forall|t: int|
                0 <= t < k ==> (#[trigger] ranges@[t]).0@ == graph.resources@[t].id@
                    && live_range_of(*graph, graph.resources@[t], ranges@[t].1),
        decreases graph.resources@.len() - k,
    {
        match range_for(graph, &graph.resources[k]) {
            Ok(x) => {
                ranges.push((graph.resources[k].id.clone(), x));
            },
            Err(e) => {
                return Err(e);
            },
        }
        k = k + 1;
    }
    Ok(ranges)
}

/// The live range recorded for `id` in a list built by `calculate_live_ranges`.
pub fn live_range(ranges: &Vec<(ResourceId, LiveRange)>, id: &ResourceId) -> (r: Option<LiveRange>)
    ensures
        r is None <==> forall|k: int| 0 <= k < ranges@.len() ==> (#[trigger] ranges@[k]).0@ != id@,
        r matches Some(x) ==> range_listed(ranges@, id@, x),
{
    let mut k: usize = ranges.len();
    while k > 0
        invariant
            k <= ranges@.len(),
            forall|q: int| k <= q < ranges@.len() ==> (#[trigger] ranges@[q]).0@ != id@,
        decreases k,
    {
        k = k - 1;
        if ranges[k].0 == *id {
            return Some(ranges[k].1);
        }
    }
    None
}


/// The requirement recorded for `id`: the last entry naming it.
pub open spec fn requirement_listed(reqs: Seq<(ResourceId, ResourceRequirement)>, id: Seq<char>, q: ResourceRequirement) -> bool {
    exists|k: int|
        0 <= k < reqs.len() && #[trigger] reqs[k].0@ == id && reqs[k].1 == q
            && forall|t: int| k < t < reqs.len() ==> (#[trigger] reqs[t]).0@ != id
}

pub(crate) fn requirement_for(reqs: &Vec<(ResourceId, ResourceRequirement)>, id: &ResourceId) -> (r: Option<ResourceRequirement>)
    ensures
        r is None <==> forall|k: int| 0 <= k < reqs@.len() ==> (#[trigger] reqs@[k]).0@ != id@,
        r matches Some(q) ==> requirement_listed(reqs@, id@, q),
{
    let mut k: usize = reqs.len();
    while k > 0
        invariant
            k <= reqs@.len(),
            forall|t: int| k <= t < reqs@.len() ==> (#[trigger] reqs@[t]).0@ != id@,
        decreases k,
    {
        k = k - 1;
        if reqs[k].0 == *id {
            return Some(reqs[k].1);
        }
    }
    None
}

/// `r` is the live range of the last Resource of `g` named `id`.
pub open spec fn live_range_named(g: CompiledGraph, id: Seq<char>, r: LiveRange) -> bool {
    exists|p: int|
        0 <= p < g.resources@.len() && #[trigger] g.resources@[p].id@ == id
            && (forall|q: int| p < q < g.resources@.len() ==> (#[trigger] g.resources@[q]).id@ != id)
            && live_range_of(g, g.resources@[p], r)
}

/// Elements a Resource's storage holds: one for a fixed value, else what the
/// unit requirement asks.
pub open spec fn physical_capacity(d: ResourceDescriptor, q: ResourceRequirement) -> int {
    if d.spec_representation() == StorageRepresentation::FixedValue {
        1
    } else {
        q.capacity as int
    }
}

/// `a` places the unit-produced Resource `res` with the capacity and byte
/// size its registered descriptor and its requirement give.
pub open spec fn assignment_for(
    g: CompiledGraph,
    registry: ResourceRegistry,
    reqs: Seq<(ResourceId, ResourceRequirement)>,
    res: CompiledResource,
    a: SlotAssignment,
) -> bool {
    &&& res.producer is Unit
    &&& a.resource@ == res.id@
    &&& live_range_named(g, res.id@, a.live_range)
    &&& exists|j: int, q: ResourceRequirement|
        #![trigger registry.entries()[j], requirement_listed(reqs, res.id@, q)]
        0 <= j < registry.entries().len() && registry.entries()[j].semantic() == res.semantic_type@
            && requirement_listed(reqs, res.id@, q) && a.capacity == physical_capacity(registry.entries()[j], q)
            && a.bytes == registry.entries()[j].spec_element_size() * a.capacity
}

/// `a` places one of the first `n` Resources of `g`.
pub open spec fn assigned_among(
    g: CompiledGraph,
    registry: ResourceRegistry,
    reqs: Seq<(ResourceId, ResourceRequirement)>,
    a: SlotAssignment,
    n: int,
) -> bool {
    exists|i: int| 0 <= i < n && #[trigger] assignment_for(g, registry, reqs, g.resources@[i], a)
}

/// Some assignment names Resource `id`.
pub open spec fn resource_assigned(assignments: Seq<SlotAssignment>, id: Seq<char>) -> bool {
    exists|k: int| 0 <= k < assignments.len() && (#[trigger] assignments[k]).resource@ == id
}

/// No assignment before position `a` uses the slot of assignment `a`: it is
/// the one that opened the slot.
pub open spec fn opens_slot(assignments: Seq<SlotAssignment>, a: int) -> bool {
    forall|k: int| 0 <= k < a ==> (#[trigger] assignments[k]).slot != assignments[a].slot
}

/// Registered descriptor `j` describes the Resource that `a` places.
pub open spec fn described_by(g: CompiledGraph, registry: ResourceRegistry, a: SlotAssignment, j: int) -> bool {
    &&& 0 <= j < registry.entries().len()
    &&& exists|p: int|
        0 <= p < g.resources@.len() && (#[trigger] g.resources@[p]).id@ == a.resource@
            && g.resources@[p].semantic_type@ == registry.entries()[j].semantic()
}

/// `a` may share the slot that `opener` opened: its storage fits in the
/// opener's capacity and the two descriptors are interchangeable.
pub open spec fn shares_compatibly(g: CompiledGraph, registry: ResourceRegistry, opener: SlotAssignment, a: SlotAssignment) -> bool {
    &&& a.capacity <= opener.capacity
    &&& exists|i: int, j: int|
        described_by(g, registry, opener, i) && described_by(g, registry, a, j)
            && #[trigger] registry.entries()[i].spec_compatible(&registry.entries()[j])
}

/// Slot `t`, as the first `n` assignments left it, could take a Resource
/// with descriptor `desc`, capacity `capacity` and live range `range`: the
/// assignment that opened it has a compatible descriptor and at least that
/// capacity, and no assignment in it overlaps the range.
pub open spec fn usable_for(
    registry: ResourceRegistry,
    a: Seq<SlotAssignment>,
    descs: Seq<int>,
    n: int,
    t: int,
    desc: int,
    capacity: usize,
    range: LiveRange,
) -> bool {
    exists|f: int|
        #![trigger a[f]]
        0 <= f < n && a[f].slot == t && opens_slot(a, f) && registry.entries()[descs[f]].spec_compatible(
            &registry.entries()[desc],
        ) && capacity <= a[f].capacity && forall|j: int|
            0 <= j < n && #[trigger] a[j].slot == t ==> !a[j].live_range.spec_overlaps(range)
}

/// First fit: no assignment skips a slot that could have taken it. Every
/// slot numbered below an assignment's slot was unusable when it was made,
/// so a new slot is opened only when no earlier one fits.
pub open spec fn first_fit(registry: ResourceRegistry, a: Seq<SlotAssignment>, descs: Seq<int>) -> bool {
    forall|k: int, t: int|
        0 <= k < a.len() && 0 <= t < a[k].slot ==> !#[trigger] usable_for(
            registry,
            a,
            descs,
            k,
            t,
            descs[k],
            a[k].capacity,
            a[k].live_range,
        )
}

/// Whether a slot could take a Resource depends only on the assignments
/// made before it.
proof fn lemma_usable_prefix(
    registry: ResourceRegistry,
    a: Seq<SlotAssignment>,
    descs: Seq<int>,
    x: SlotAssignment,
    dx: int,
    n: int,
    t: int,
    desc: int,
    capacity: usize,
    range: LiveRange,
)
    requires
        0 <= n <= a.len(),
        descs.len() == a.len(),
    ensures
        usable_for(registry, a.push(x), descs.push(dx), n, t, desc, capacity, range) == usable_for(
            registry,
            a,
            descs,
            n,
            t,
            desc,
            capacity,
            range,
        ),
{
    let a2 = a.push(x);
    let d2 = descs.push(dx);
    assert forall|f: int| 0 <= f < n implies opens_slot(a2, f) == opens_slot(a, f) && a2[f] == a[f] && d2[f] == descs[f] by {
        assert forall|k: int| 0 <= k < f implies a2[k] == a[k] by {}
    }
    if usable_for(registry, a2, d2, n, t, desc, capacity, range) {
        let f = choose|f: int|
            #![trigger a2[f]]
            0 <= f < n && a2[f].slot == t && opens_slot(a2, f) && registry.entries()[d2[f]].spec_compatible(
                &registry.entries()[desc],
            ) && capacity <= a2[f].capacity && forall|j: int|
                0 <= j < n && #[trigger] a2[j].slot == t ==> !a2[j].live_range.spec_overlaps(range);
        assert forall|j: int| 0 <= j < n && #[trigger] a[j].slot == t implies !a[j].live_range.spec_overlaps(range) by {
            assert(a2[j] == a[j]);
        }
        assert(a[f] == a2[f]);
    }
    if usable_for(registry, a, descs, n, t, desc, capacity, range) {
        let f = choose|f: int|
            #![trigger a[f]]
            0 <= f < n && a[f].slot == t && opens_slot(a, f) && registry.entries()[descs[f]].spec_compatible(
                &registry.entries()[desc],
            ) && capacity <= a[f].capacity && forall|j: int|
                0 <= j < n && #[trigger] a[j].slot == t ==> !a[j].live_range.spec_overlaps(range);
        assert forall|j: int| 0 <= j < n && #[trigger] a2[j].slot == t implies !a2[j].live_range.spec_overlaps(range) by {
            assert(a2[j] == a[j]);
        }
        assert(a2[f] == a[f]);
    }
}

/// Adding an assignment to slot `slot` keeps first fit when no slot below
/// it could take the assignment.
proof fn lemma_first_fit_push(registry: ResourceRegistry, before: Seq<SlotAssignment>, descs: Seq<int>, x: SlotAssignment, dx: int)
    requires
        descs.len() == before.len(),
        first_fit(registry, before, descs),
        forall|t: int| 0 <= t < x.slot ==> !usable_for(registry, before, descs, before.len() as int, t, dx, x.capacity, x.live_range),
    ensures
        first_fit(registry, before.push(x), descs.push(dx)),
{
    let a = before.push(x);
    let d = descs.push(dx);
    assert forall|k: int, t: int| 0 <= k < a.len() && 0 <= t < a[k].slot implies !#[trigger] usable_for(
        registry,
        a,
        d,
        k,
        t,
        d[k],
        a[k].capacity,
        a[k].live_range,
    ) by {
        lemma_usable_prefix(registry, before, descs, x, dx, k, t, d[k], a[k].capacity, a[k].live_range);
        if k < before.len() {
            assert(a[k] == before[k]);
            assert(d[k] == descs[k]);
        }
    }
}

/// A slot whose opener is `g` cannot take a Resource its opener's
/// descriptor is incompatible with, whose capacity exceeds the opener's, or
/// whose range overlaps an assignment already in it.
proof fn lemma_slot_unusable(
    registry: ResourceRegistry,
    a: Seq<SlotAssignment>,
    descs: Seq<int>,
    g: int,
    t: int,
    desc: int,
    capacity: usize,
    range: LiveRange,
)
    requires
        0 <= g < a.len(),
        a[g].slot == t,
        opens_slot(a, g),
        !registry.entries()[descs[g]].spec_compatible(&registry.entries()[desc]) || a[g].capacity < capacity || exists|j: int|
            0 <= j < a.len() && a[j].slot == t && a[j].live_range.spec_overlaps(range),
    ensures
        !usable_for(registry, a, descs, a.len() as int, t, desc, capacity, range),
{
    if usable_for(registry, a, descs, a.len() as int, t, desc, capacity, range) {
        let f = choose|f: int|
            #![trigger a[f]]
            0 <= f < a.len() && a[f].slot == t && opens_slot(a, f) && registry.entries()[descs[f]].spec_compatible(
                &registry.entries()[desc],
            ) && capacity <= a[f].capacity && forall|j: int|
                0 <= j < a.len() && #[trigger] a[j].slot == t ==> !a[j].live_range.spec_overlaps(range);
        if f < g {
            assert(a[f].slot != a[g].slot);
        } else if g < f {
            assert(a[g].slot != a[f].slot);
        }
        if exists|j: int| 0 <= j < a.len() && a[j].slot == t && a[j].live_range.spec_overlaps(range) {
            let j = choose|j: int| 0 <= j < a.len() && a[j].slot == t && a[j].live_range.spec_overlaps(range);
            assert(!a[j].live_range.spec_overlaps(range));
        }
    }
}

/// Descriptor `j` is registered for the semantic type of `res`, and `q` is
/// the requirement recorded for it (the last entry naming it).
pub open spec fn described_requirement(
    registry: ResourceRegistry,
    reqs: Seq<(ResourceId, ResourceRequirement)>,
    res: CompiledResource,
    j: int,
    q: ResourceRequirement,
) -> bool {
    &&& 0 <= j < registry.entries().len()
    &&& registry.entries()[j].semantic() == res.semantic_type@
    &&& requirement_listed(reqs, res.id@, q)
}

/// Bytes of one backing of `d` holding what `q` asks.
pub open spec fn backing_bytes(d: ResourceDescriptor, q: ResourceRequirement) -> int {
    d.spec_element_size() * physical_capacity(d, q)
}

/// A Unit-produced Resource can be stored: its semantic type has a
/// descriptor, a requirement names it, and its backing size fits in usize.
pub open spec fn storable(registry: ResourceRegistry, reqs: Seq<(ResourceId, ResourceRequirement)>, res: CompiledResource) -> bool {
    res.producer is Unit ==> exists|j: int, q: ResourceRequirement|
        #[trigger] described_requirement(registry, reqs, res, j, q) && backing_bytes(registry.entries()[j], q) <= usize::MAX
}

/// The backing size of a storable Resource.
pub open spec fn resource_bytes(registry: ResourceRegistry, reqs: Seq<(ResourceId, ResourceRequirement)>, res: CompiledResource) -> int {
    let (j, q) = choose|j: int, q: ResourceRequirement| #[trigger] described_requirement(registry, reqs, res, j, q);
    backing_bytes(registry.entries()[j], q)
}

/// The backing sizes of the Unit-produced Resources, summed.
pub open spec fn stored_bytes(
    registry: ResourceRegistry,
    reqs: Seq<(ResourceId, ResourceRequirement)>,
    resources: Seq<CompiledResource>,
) -> int
    decreases resources.len(),
{
    if resources.len() == 0 {
        0
    } else {
        stored_bytes(registry, reqs, resources.drop_last()) + if resources.last().producer is Unit {
            resource_bytes(registry, reqs, resources.last())
        } else {
            0
        }
    }
}

/// The assignments that open a slot, counted.
pub open spec fn opener_count(assignments: Seq<SlotAssignment>) -> nat
    decreases assignments.len(),
{
    if assignments.len() == 0 {
        0
    } else {
        opener_count(assignments.drop_last()) + if opens_slot(assignments, assignments.len() - 1) {
            1nat
        } else {
            0nat
        }
    }
}

/// The bytes of the assignments that open a slot: one backing per slot.
pub open spec fn opener_bytes(assignments: Seq<SlotAssignment>) -> int
    decreases assignments.len(),
{
    if assignments.len() == 0 {
        0
    } else {
        opener_bytes(assignments.drop_last()) + if opens_slot(assignments, assignments.len() - 1) {
            assignments.last().bytes as int
        } else {
            0
        }
    }
}

/// The sum of a sequence of sizes.
pub open spec fn size_sum(xs: Seq<usize>) -> int
    decreases xs.len(),
{
    if xs.len() == 0 {
        0
    } else {
        size_sum(xs.drop_last()) + xs.last()
    }
}

proof fn lemma_size_sum_prefix(xs: Seq<usize>, k: int)
    requires
        0 <= k <= xs.len(),
    ensures
        size_sum(xs.take(k)) <= size_sum(xs),
    decreases xs.len(),
{
    if k < xs.len() {
        assert(xs.drop_last().take(k) =~= xs.take(k));
        lemma_size_sum_prefix(xs.drop_last(), k);
    } else {
        assert(xs.take(k) =~= xs);
    }
}

proof fn lemma_requirement_listed_unique(reqs: Seq<(ResourceId, ResourceRequirement)>, id: Seq<char>, a: ResourceRequirement, b: ResourceRequirement)
    requires
        requirement_listed(reqs, id, a),
        requirement_listed(reqs, id, b),
    ensures
        a == b,
{
    let ka = choose|k: int| 0 <= k < reqs.len() && #[trigger] reqs[k].0@ == id && reqs[k].1 == a
        && forall|t: int| k < t < reqs.len() ==> (#[trigger] reqs[t]).0@ != id;
    let kb = choose|k: int| 0 <= k < reqs.len() && #[trigger] reqs[k].0@ == id && reqs[k].1 == b
        && forall|t: int| k < t < reqs.len() ==> (#[trigger] reqs[t]).0@ != id;
    if ka < kb {
        assert(reqs[kb].0@ != id);
    } else if kb < ka {
        assert(reqs[ka].0@ != id);
    }
}

proof fn lemma_resource_bytes(registry: ResourceRegistry, reqs: Seq<(ResourceId, ResourceRequirement)>, res: CompiledResource, j: int, q: ResourceRequirement)
    requires
        registry.wf(),
        described_requirement(registry, reqs, res, j, q),
    ensures
        resource_bytes(registry, reqs, res) == backing_bytes(registry.entries()[j], q),
{
    let (j2, q2) = choose|j: int, q: ResourceRequirement| #[trigger] described_requirement(registry, reqs, res, j, q);
    assert(described_requirement(registry, reqs, res, j2, q2));
    lemma_requirement_listed_unique(reqs, res.id@, q, q2);
    if j != j2 {
        if j < j2 {
            assert(registry.entries()[j].semantic() != registry.entries()[j2].semantic());
        } else {
            assert(registry.entries()[j2].semantic() != registry.entries()[j].semantic());
        }
    }
}

/// First-fit conservative assignment. Slots alias only for compatible
/// descriptors with sufficient capacity and disjoint live ranges.
#[verifier::rlimit(80)]
#[verifier::spinoff_prover]
pub fn plan_storage(graph: &CompiledGraph, registry: &ResourceRegistry, requirements: &Vec<(ResourceId, ResourceRequirement)>) -> (r: Result<StoragePlan, PlanningError>)
    requires
        registry.wf(),
    ensures
        r matches Ok(plan) ==> {
            let rep = plan.spec_report();
            &&& forall|a: int, b: int|
                0 <= a < b < rep.assignments@.len() && #[trigger] rep.assignments@[a].slot == #[trigger] rep.assignments@[b].slot
                    ==> !rep.assignments@[a].live_range.spec_overlaps(rep.assignments@[b].live_range)
            &&& forall|a: int, b: int|
                0 <= a < b < rep.assignments@.len() && #[trigger] rep.assignments@[a].slot == #[trigger] rep.assignments@[b].slot
                    && opens_slot(rep.assignments@, a)
                    ==> shares_compatibly(*graph, *registry, rep.assignments@[a], rep.assignments@[b])
            &&& forall|k: int| 0 <= k < rep.assignments@.len() ==> (#[trigger] rep.assignments@[k]).slot < rep.slot_count
            &&& forall|k: int| 0 <= k < rep.assignments@.len() ==> assigned_among(*graph, *registry, requirements@, #[trigger] rep.assignments@[k], graph.resources@.len() as int)
            &&& forall|i: int| 0 <= i < graph.resources@.len() && (#[trigger] graph.resources@[i]).producer is Unit
                ==> resource_assigned(rep.assignments@, graph.resources@[i].id@)
        },
        r matches Err(PlanningError::InvalidGraph { resource }) ==> exists|k: int|
            0 <= k < graph.resources@.len() && (#[trigger] graph.resources@[k]).id@ == resource@ && !placed(*graph, graph.resources@[k]),
        r matches Err(PlanningError::MissingDescriptor { resource }) ==> exists|k: int|
            0 <= k < graph.resources@.len() && (#[trigger] graph.resources@[k]).id@ == resource@
                && graph.resources@[k].producer is Unit && !registry.knows(graph.resources@[k].semantic_type@),
        r matches Err(PlanningError::MissingRequirement { resource }) ==> graph.resources@.len() > 0 && forall|t: int|
            0 <= t < requirements@.len() ==> (#[trigger] requirements@[t]).0@ != resource@,
        r is Ok ==> (forall|k: int| 0 <= k < graph.resources@.len() ==> placed(*graph, #[trigger] graph.resources@[k]))
            && forall|k: int| 0 <= k < graph.resources@.len() ==> storable(*registry, requirements@, #[trigger] graph.resources@[k]),
        (forall|k: int| 0 <= k < graph.resources@.len() ==> placed(*graph, #[trigger] graph.resources@[k]))
            && (forall|k: int| 0 <= k < graph.resources@.len() ==> storable(*registry, requirements@, #[trigger] graph.resources@[k]))
            && stored_bytes(*registry, requirements@, graph.resources@) <= usize::MAX ==> r is Ok,
        r matches Err(PlanningError::SizeOverflow { resource }) ==> (exists|k: int|
            0 <= k < graph.resources@.len() && (#[trigger] graph.resources@[k]).id@ == resource@ && !storable(
                *registry,
                requirements@,
                graph.resources@[k],
            )) || ((forall|k: int| 0 <= k < graph.resources@.len() ==> storable(*registry, requirements@, #[trigger] graph.resources@[k]))
            && stored_bytes(*registry, requirements@, graph.resources@) > usize::MAX),
        r matches Ok(plan) ==> exists|descs: Seq<int>|
            descs.len() == plan.spec_report().assignments@.len() && (forall|k: int|
                0 <= k < descs.len() ==> described_by(*graph, *registry, #[trigger] plan.spec_report().assignments@[k], descs[k]))
                && #[trigger] first_fit(*registry, plan.spec_report().assignments@, descs),
        r matches Ok(plan) ==> plan.spec_report().slot_count == opener_count(plan.spec_report().assignments@)
            && plan.spec_report().estimated_peak_bytes == opener_bytes(plan.spec_report().assignments@),
{
    let ranges = match calculate_live_ranges(graph) {
        Ok(r) => r,
        Err(e) => {
            return Err(e);
        },
    };
    let mut slot_desc: Vec<usize> = Vec::new();
    let mut slot_cap: Vec<usize> = Vec::new();
    let mut slot_bytes: Vec<usize> = Vec::new();
    let mut assignments: Vec<SlotAssignment> = Vec::new();
    let ghost mut gdesc: Seq<int> = Seq::empty();
    let ghost mut gfirst: Seq<int> = Seq::empty();
    let mut i: usize = 0;
    while i < graph.resources.len()
        invariant
            registry.wf(),
            gdesc.len() == assignments@.len(),
            gfirst.len() == slot_desc@.len(),
            first_fit(*registry, assignments@, gdesc),
            forall|k: int| 0 <= k < assignments@.len() ==> described_by(*graph, *registry, #[trigger] assignments@[k], gdesc[k]),
            forall|t: int|
                0 <= t < gfirst.len() ==> 0 <= #[trigger] gfirst[t] < assignments@.len() && assignments@[gfirst[t]].slot == t
                    && opens_slot(assignments@, gfirst[t]) && slot_desc@[t] == gdesc[gfirst[t]]
                    && slot_cap@[t] == assignments@[gfirst[t]].capacity,
            forall|a: int, b: int|
                0 <= a < b < assignments@.len() && #[trigger] assignments@[a].slot == #[trigger] assignments@[b].slot
                    && opens_slot(assignments@, a)
                    ==> assignments@[b].capacity <= assignments@[a].capacity
                        && registry.entries()[gdesc[a]].spec_compatible(&registry.entries()[gdesc[b]]),
            i <= graph.resources@.len(),
            ranges@.len() == graph.resources@.len(),
            forall|t: int|
                0 <= t < ranges@.len() ==> (#[trigger] ranges@[t]).0@ == graph.resources@[t].id@
                    && live_range_of(*graph, graph.resources@[t], ranges@[t].1),
            slot_desc@.len() == slot_cap@.len(),
            slot_desc@.len() == slot_bytes@.len(),
            forall|t: int| 0 <= t < slot_desc@.len() ==> #[trigger] slot_desc@[t] < registry.entries().len(),
            forall|a: int, b: int|
                0 <= a < b < assignments@.len() && #[trigger] assignments@[a].slot == #[trigger] assignments@[b].slot
                    ==> !assignments@[a].live_range.spec_overlaps(assignments@[b].live_range),
            forall|k: int| 0 <= k < assignments@.len() ==> (#[trigger] assignments@[k]).slot < slot_desc@.len(),
            forall|k: int| 0 <= k < assignments@.len() ==> assigned_among(*graph, *registry, requirements@, #[trigger] assignments@[k], i as int),
            forall|t: int| 0 <= t < i && (#[trigger] graph.resources@[t]).producer is Unit
                ==> resource_assigned(assignments@, graph.resources@[t].id@),
            assignments@.len() > 0 || slot_desc@.len() == 0,
            forall|k: int| 0 <= k < graph.resources@.len() ==> placed(*graph, #[trigger] graph.resources@[k]),
            forall|t: int| 0 <= t < i ==> storable(*registry, requirements@, #[trigger] graph.resources@[t]),
            size_sum(slot_bytes@) == opener_bytes(assignments@),
            slot_desc@.len() == opener_count(assignments@),
            opener_bytes(assignments@) <= stored_bytes(*registry, requirements@, graph.resources@.take(i as int)),
        decreases graph.resources@.len() - i,
    {
        let res = &graph.resources[i];
        proof {
            assert(graph.resources@.take(i + 1).drop_last() =~= graph.resources@.take(i as int));
            assert(graph.resources@.take(i + 1).last() == graph.resources@[i as int]);
        }
        let is_input = match res.producer {
            Producer::ModuleInput => true,
            _ => false,
        };
        if !is_input {
            let d = match registry.find(&res.semantic_type) {
                Some(d) => d,
                None => {
                    proof {
                        assert forall|j: int, q: ResourceRequirement| !#[trigger] described_requirement(*registry, requirements@, *res, j, q) by {
                            if described_requirement(*registry, requirements@, *res, j, q) {
                                assert(registry.entries()[j].semantic() == res.semantic_type@);
                            }
                        }
                        assert(!storable(*registry, requirements@, graph.resources@[i as int]));
                    }
                    return Err(PlanningError::MissingDescriptor { resource: res.id.clone() });
                },
            };
            let q = match requirement_for(requirements, &res.id) {
                Some(q) => q,
                None => {
                    proof {
                        assert forall|j: int, q: ResourceRequirement| !#[trigger] described_requirement(*registry, requirements@, *res, j, q) by {
                            if described_requirement(*registry, requirements@, *res, j, q) {
                                let k = choose|k: int| 0 <= k < requirements@.len() && #[trigger] requirements@[k].0@ == res.id@
                                    && requirements@[k].1 == q && forall|t: int| k < t < requirements@.len() ==> (#[trigger] requirements@[t]).0@ != res.id@;
                                assert(requirements@[k].0@ != res.id@);
                            }
                        }
                        assert(!storable(*registry, requirements@, graph.resources@[i as int]));
                    }
                    return Err(PlanningError::MissingRequirement { resource: res.id.clone() });
                },
            };
            let range = match live_range(&ranges, &res.id) {
                Some(x) => x,
                None => {
                    proof {
                        assert(ranges@[i as int].0@ == res.id@);
                    }
                    return Err(PlanningError::InvalidGraph { resource: res.id.clone() });
                },
            };
            let descriptor = registry.entry(d);
            let inv = descriptor.invariants();
            let capacity: usize = if inv.representation == StorageRepresentation::FixedValue {
                1
            } else {
                q.capacity
            };
            proof {
                assert(described_requirement(*registry, requirements@, *res, d as int, q));
                assert(capacity == physical_capacity(registry.entries()[d as int], q));
            }
            let bytes = match inv.element_size.checked_mul(capacity) {
                Some(b) => b,
                None => {
                    proof {
                        assert forall|j: int, q2: ResourceRequirement|
                            #[trigger] described_requirement(*registry, requirements@, *res, j, q2) implies backing_bytes(
                            registry.entries()[j],
                            q2,
                        ) > usize::MAX by {
                            lemma_requirement_listed_unique(requirements@, res.id@, q, q2);
                            if j != d as int {
                                if j < d as int {
                                    assert(registry.entries()[j].semantic() != registry.entries()[d as int].semantic());
                                } else {
                                    assert(registry.entries()[d as int].semantic() != registry.entries()[j].semantic());
                                }
                            }
                        }
                        assert(!storable(*registry, requirements@, graph.resources@[i as int]));
                    }
                    return Err(PlanningError::SizeOverflow { resource: res.id.clone() });
                },
            };
            proof {
                assert(backing_bytes(registry.entries()[d as int], q) == bytes);
                lemma_resource_bytes(*registry, requirements@, *res, d as int, q);
                assert(storable(*registry, requirements@, graph.resources@[i as int]));
            }
            let mut s: usize = 0;
            let mut found = false;
            while s < slot_desc.len() && !found
                invariant
                    s <= slot_desc@.len(),
                    slot_desc@.len() == slot_cap@.len(),
                    forall|t: int| 0 <= t < slot_desc@.len() ==> #[trigger] slot_desc@[t] < registry.entries().len(),
                    found ==> s < slot_desc@.len() && forall|k: int|
                        0 <= k < assignments@.len() && #[trigger] assignments@[k].slot == s ==> !assignments@[k].live_range.spec_overlaps(range),
                    found ==> registry.entries()[slot_desc@[s as int] as int].spec_compatible(descriptor) && slot_cap@[s as int] >= capacity,
                    gfirst.len() == slot_desc@.len(),
                    gdesc.len() == assignments@.len(),
                    forall|t: int|
                        0 <= t < gfirst.len() ==> 0 <= #[trigger] gfirst[t] < assignments@.len() && assignments@[gfirst[t]].slot == t
                            && opens_slot(assignments@, gfirst[t]) && slot_desc@[t] == gdesc[gfirst[t]]
                            && slot_cap@[t] == assignments@[gfirst[t]].capacity,
                    *descriptor == registry.entries()[d as int],
                    forall|t: int| 0 <= t < s ==> !usable_for(*registry, assignments@, gdesc, assignments@.len() as int, t, d as int, capacity, range),
                decreases slot_desc@.len() - s + (if found { 0int } else { 1int }),
            {
                if registry.entry(slot_desc[s]).compatible_with(descriptor) && slot_cap[s] >= capacity
                    && StoragePlan::disjoint_in_slot(&assignments, s, range) {
                    found = true;
                } else {
                    proof {
                        let g = gfirst[s as int];
                        if registry.entries()[gdesc[g] as int].spec_compatible(&registry.entries()[d as int]) && assignments@[g].capacity >= capacity {
                            let j = choose|j: int| 0 <= j < assignments@.len() && #[trigger] assignments@[j].slot == s && assignments@[j].live_range.spec_overlaps(range);
                            assert(assignments@[j].slot == s && assignments@[j].live_range.spec_overlaps(range));
                        }
                        lemma_slot_unusable(*registry, assignments@, gdesc, g, s as int, d as int, capacity, range);
                    }
                    s = s + 1;
                }
            }
            let ghost unusable_below = s;
            let ghost sb0 = slot_bytes@;
            let ghost ob0 = opener_bytes(assignments@);
            let ghost oc0 = opener_count(assignments@);
            let slot = if found {
                s
            } else {
                let n = slot_desc.len();
                slot_desc.push(d);
                slot_cap.push(capacity);
                slot_bytes.push(bytes);
                n
            };
            let a = SlotAssignment { resource: res.id.clone(), slot, live_range: range, capacity, bytes };
            proof {
                let ghost_ranges = ranges@;
                let k0 = choose|k: int|
                    0 <= k < ghost_ranges.len() && #[trigger] ghost_ranges[k].0@ == res.id@ && ghost_ranges[k].1 == range
                        && forall|t: int| k < t < ghost_ranges.len() ==> (#[trigger] ghost_ranges[t]).0@ != res.id@;
                assert(live_range_of(*graph, graph.resources@[k0], ranges@[k0].1));
                assert forall|t: int| k0 < t < graph.resources@.len() implies (#[trigger] graph.resources@[t]).id@ != res.id@ by {
                    assert(ranges@[t].0@ == graph.resources@[t].id@);
                }
                assert(live_range_named(*graph, res.id@, range));
                assert(registry.entries()[d as int].semantic() == res.semantic_type@);
                assert(assignment_for(*graph, *registry, requirements@, graph.resources@[i as int], a));
            }
            let ghost before = assignments@;
            let ghost old_first = gfirst;
            let ghost old_desc = gdesc;
            proof {
                assert(a.slot == unusable_below);
                lemma_first_fit_push(*registry, before, old_desc, a, d as int);
            }
            assignments.push(a);
            proof {
                gdesc = gdesc.push(d as int);
                if !found {
                    gfirst = gfirst.push(before.len() as int);
                }
                assert(graph.resources@[i as int].id@ == assignments@[before.len() as int].resource@);
                assert forall|k: int| 0 <= k < assignments@.len() implies described_by(*graph, *registry, #[trigger] assignments@[k], gdesc[k]) by {
                    if k < before.len() {
                        assert(assignments@[k] == before[k]);
                    } else {
                        assert(graph.resources@[i as int].id@ == assignments@[k].resource@);
                    }
                }
                assert forall|x: int| 0 <= x < before.len() && opens_slot(before, x) implies opens_slot(assignments@, x) by {
                    assert forall|k: int| 0 <= k < x implies (#[trigger] assignments@[k]).slot != assignments@[x].slot by {
                        assert(assignments@[k] == before[k]);
                        assert(assignments@[x] == before[x]);
                    }
                }
                assert forall|x: int| 0 <= x < before.len() && opens_slot(assignments@, x) implies opens_slot(before, x) by {
                    assert forall|k: int| 0 <= k < x implies (#[trigger] before[k]).slot != before[x].slot by {
                        assert(assignments@[k] == before[k]);
                        assert(assignments@[x] == before[x]);
                    }
                }
                if !found {
                    assert forall|k: int| 0 <= k < before.len() implies (#[trigger] assignments@[k]).slot != assignments@[before.len() as int].slot by {
                        assert(assignments@[k] == before[k]);
                    }
                    assert(opens_slot(assignments@, before.len() as int));
                }
                assert forall|t: int|
                    0 <= t < gfirst.len() implies 0 <= #[trigger] gfirst[t] < assignments@.len() && assignments@[gfirst[t]].slot == t
                        && opens_slot(assignments@, gfirst[t]) && slot_desc@[t] == gdesc[gfirst[t]]
                        && slot_cap@[t] == assignments@[gfirst[t]].capacity by {
                    if t < old_first.len() {
                        assert(gfirst[t] == old_first[t]);
                        assert(assignments@[old_first[t]] == before[old_first[t]]);
                    }
                }
                assert forall|x: int, y: int|
                    0 <= x < y < assignments@.len() && #[trigger] assignments@[x].slot == #[trigger] assignments@[y].slot
                        && opens_slot(assignments@, x)
                        implies assignments@[y].capacity <= assignments@[x].capacity
                            && registry.entries()[gdesc[x]].spec_compatible(&registry.entries()[gdesc[y]]) by {
                    assert(assignments@[x] == before[x]);
                    if y < before.len() {
                        assert(assignments@[y] == before[y]);
                        assert(opens_slot(before, x));
                    } else if found {
                        let f = old_first[s as int];
                        assert(before[f].slot == s);
                        assert(assignments@[f] == before[f]);
                        if x < f {
                            assert(assignments@[x].slot != assignments@[f].slot);
                        } else if f < x {
                            assert(assignments@[f].slot != assignments@[x].slot);
                        }
                        assert(x == f);
                    } else {
                        assert(before[x].slot < old_first.len());
                    }
                }
                assert forall|x: int, y: int|
                    0 <= x < y < assignments@.len() && #[trigger] assignments@[x].slot == #[trigger] assignments@[y].slot
                        implies !assignments@[x].live_range.spec_overlaps(assignments@[y].live_range) by {
                    if y == before.len() {
                        assert(assignments@[x] == before[x]);
                        if !found {
                            assert(before[x].slot < slot_desc@.len() - 1);
                        }
                    } else {
                        assert(assignments@[x] == before[x] && assignments@[y] == before[y]);
                    }
                }
                assert forall|k: int| 0 <= k < assignments@.len() implies assigned_among(*graph, *registry, requirements@, #[trigger] assignments@[k], i + 1) by {
                    if k < before.len() {
                        assert(assignments@[k] == before[k]);
                        let t = choose|t: int| 0 <= t < i && #[trigger] assignment_for(*graph, *registry, requirements@, graph.resources@[t], before[k]);
                        assert(assignment_for(*graph, *registry, requirements@, graph.resources@[t], assignments@[k]));
                    } else {
                        assert(assignment_for(*graph, *registry, requirements@, graph.resources@[i as int], assignments@[k]));
                    }
                }
                assert forall|t: int| 0 <= t < i + 1 && (#[trigger] graph.resources@[t]).producer is Unit
                    implies resource_assigned(assignments@, graph.resources@[t].id@) by {
                    if t < i {
                        let k = choose|k: int| 0 <= k < before.len() && (#[trigger] before[k]).resource@ == graph.resources@[t].id@;
                        assert(assignments@[k] == before[k]);
                    } else {
                        assert(assignments@[before.len() as int].resource@ == graph.resources@[t].id@);
                    }
                }
                assert(assignments@.drop_last() =~= before);
                if found {
                    let f = old_first[s as int];
                    assert(before[f].slot == s);
                    assert(assignments@[f] == before[f]);
                    assert(!opens_slot(assignments@, before.len() as int));
                    assert(slot_bytes@ == sb0);
                } else {
                    assert(slot_bytes@.drop_last() =~= sb0);
                }
                assert(opener_bytes(assignments@) <= ob0 + bytes);
                assert(slot_desc@.len() == opener_count(assignments@));
                assert(size_sum(slot_bytes@) == opener_bytes(assignments@));
            }
        }
        proof {
            assert(opener_bytes(assignments@) <= stored_bytes(*registry, requirements@, graph.resources@.take(i + 1)));
        }
        i = i + 1;
    }
    proof {
        assert(graph.resources@.take(graph.resources@.len() as int) =~= graph.resources@);
    }
    let mut total: usize = 0;
    let mut s: usize = 0;
    while s < slot_bytes.len()
        invariant
            s <= slot_bytes@.len(),
            assignments@.len() > 0 || slot_bytes@.len() == 0,
            total == size_sum(slot_bytes@.take(s as int)),
            gdesc.len() == assignments@.len(),
            first_fit(*registry, assignments@, gdesc),
            forall|k: int| 0 <= k < assignments@.len() ==> described_by(*graph, *registry, #[trigger] assignments@[k], gdesc[k]),
            size_sum(slot_bytes@) == opener_bytes(assignments@),
            opener_bytes(assignments@) <= stored_bytes(*registry, requirements@, graph.resources@),
            forall|k: int| 0 <= k < graph.resources@.len() ==> placed(*graph, #[trigger] graph.resources@[k]),
            forall|t: int| 0 <= t < graph.resources@.len() ==> storable(*registry, requirements@, #[trigger] graph.resources@[t]),
        decreases slot_bytes@.len() - s,
    {
        proof {
            assert(slot_bytes@.take(s + 1).drop_last() =~= slot_bytes@.take(s as int));
        }
        total = match total.checked_add(slot_bytes[s]) {
            Some(t) => t,
            None => {
                proof {
                    lemma_size_sum_prefix(slot_bytes@, s + 1);
                }
                return Err(PlanningError::SizeOverflow { resource: assignments[0].resource.clone() });
            },
        };
        s = s + 1;
    }
    proof {
        assert(slot_bytes@.take(slot_bytes@.len() as int) =~= slot_bytes@);
        assert(first_fit(*registry, assignments@, gdesc));
    }
    let ghost placed_assignments = assignments@;
    let plan = StoragePlan {
        report: StorageReport { assignments, slot_count: slot_desc.len(), estimated_peak_bytes: total },
    };
    proof {
        assert(plan.spec_report().assignments@ == placed_assignments);
        assert(gdesc.len() == plan.spec_report().assignments@.len() && (forall|k: int|
            0 <= k < gdesc.len() ==> described_by(*graph, *registry, #[trigger] plan.spec_report().assignments@[k], gdesc[k]))
            && first_fit(*registry, plan.spec_report().assignments@, gdesc));
    }
    let result: Result<StoragePlan, PlanningError> = Ok(plan);
    proof {
        assert(result matches Ok(p) ==> exists|descs: Seq<int>|
            descs.len() == p.spec_report().assignments@.len() && (forall|k: int|
                0 <= k < descs.len() ==> described_by(*graph, *registry, #[trigger] p.spec_report().assignments@[k], descs[k]))
                && #[trigger] first_fit(*registry, p.spec_report().assignments@, descs)) by {
            assert(result->Ok_0.spec_report().assignments@ == placed_assignments);
            assert(first_fit(*registry, result->Ok_0.spec_report().assignments@, gdesc));
        }
    }
    result
}

impl StoragePlan {
    fn disjoint_in_slot(assignments: &Vec<SlotAssignment>, slot: usize, range: LiveRange) -> (r: bool)
        ensures
            r == forall|k: int|
                0 <= k < assignments@.len() && #[trigger] assignments@[k].slot == slot ==> !assignments@[k].live_range.spec_overlaps(range),
    {
        let mut k: usize = 0;
        while k < assignments.len()
            invariant
                k <= assignments@.len(),
                forall|t: int|
                    0 <= t < k && #[trigger] assignments@[t].slot == slot ==> !assignments@[t].live_range.spec_overlaps(range),
            decreases assignments@.len() - k,
        {
            if assignments[k].slot == slot && assignments[k].live_range.overlaps(range) {
                return false;
            }
            k = k + 1;
        }
        true
    }
}

} // verus!
