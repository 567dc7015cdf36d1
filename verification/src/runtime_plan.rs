//! Runtime slot layout of a prepared dense graph: which runtime slot holds
//! each Resource, the capacity each slot is prepared with, and the capacity
//! policy each Resource runs under.

use vstd::prelude::*;

use crate::dense::{DenseBinding, DenseGraph, DenseUnit};
use crate::render::push_decimal;
use crate::resolve::{FactoryError, UnitRegistry};
use crate::text::text_eq;
use crate::types::{PortDescriptor, UnitDescriptor};
use crate::ids::ResourceId;
use crate::descriptor::{ResourceDescriptor, ResourceRegistry, StorageRepresentation};
use crate::module::BuildError;
use crate::options::CapacityPolicy;
use crate::storage::{requirement_for, requirement_listed, ResourceRequirement, SlotAssignment, StoragePlan};
use crate::text::push_str;

verus! {

/// Marker of a Resource without a runtime slot (a Module input).
pub const NO_RUNTIME_SLOT: usize = usize::MAX;

/// One runtime slot: the Resource whose adapter allocates it and the
/// capacity it is prepared with.
#[derive(Clone, Copy, Debug, PartialEq, Eq, Structural)]
pub struct SlotSpec {
    pub representative: usize,
    pub capacity: usize,
}

/// Slot layout: per slot its allocation, per Resource its slot, prepared
/// capacity and capacity policy.
#[derive(Clone, Debug, PartialEq, Eq)]
pub struct SlotLayout {
    pub slots: Vec<SlotSpec>,
    pub resource_slots: Vec<usize>,
    pub resource_capacities: Vec<usize>,
    pub resource_policies: Vec<CapacityPolicy>,
}

/// Position of the registered descriptor of `semantic`.
pub open spec fn registered_index(reg: ResourceRegistry, semantic: Seq<char>) -> int {
    choose|i: int| 0 <= i < reg.entries().len() && #[trigger] reg.entries()[i].semantic() == semantic
}

/// The registered descriptor of `semantic`.
pub open spec fn descriptor_for(reg: ResourceRegistry, semantic: Seq<char>) -> ResourceDescriptor {
    reg.entries()[registered_index(reg, semantic)]
}

/// The descriptor that `get` returns is the registered one.
pub proof fn lemma_get_is_descriptor_for(reg: ResourceRegistry, semantic: Seq<char>, d: ResourceDescriptor)
    requires
        reg.wf(),
        d.semantic() == semantic,
        reg.entries().contains(d),
    ensures
        d == descriptor_for(reg, semantic),
        reg.knows(semantic),
{
    let j = choose|j: int| 0 <= j < reg.entries().len() && reg.entries()[j] == d;
    assert(reg.entries()[j].semantic() == semantic);
    let i = registered_index(reg, semantic);
    assert(0 <= i < reg.entries().len() && reg.entries()[i].semantic() == semantic);
    if i != j {
        if i < j {
            assert(reg.entries()[i].semantic() != reg.entries()[j].semantic());
        } else {
            assert(reg.entries()[j].semantic() != reg.entries()[i].semantic());
        }
    }
}

/// Capacity policy of a Resource with descriptor `d`: fixed buffers always
/// reject overflow; other representations follow the Module policy.
pub open spec fn policy_for(d: ResourceDescriptor, policy: CapacityPolicy) -> CapacityPolicy {
    if d.spec_representation() == StorageRepresentation::FixedBuffer {
        CapacityPolicy::RejectOverflow
    } else {
        policy
    }
}

/// Resource position `i` is published by a Module input.
pub open spec fn is_input_position(g: DenseGraph, i: int) -> bool {
    exists|k: int| 0 <= k < g.spec_module_inputs().len() && #[trigger] g.spec_module_inputs()[k].value() == i
}

/// Resource position `i` is produced by a Unit and so has a runtime slot.
pub open spec fn stored(g: DenseGraph, i: int) -> bool {
    0 <= i < g.spec_resources().len() && !is_input_position(g, i)
}

/// Every Resource has a registered descriptor with its concrete type.
pub open spec fn descriptors_match(g: DenseGraph, reg: ResourceRegistry) -> bool {
    forall|i: int| 0 <= i < g.spec_resources().len() ==> #[trigger] reg.registers(g.spec_resources()[i].semantic_type@, g.spec_resources()[i].concrete_type)
}

/// Every Resource has a recorded requirement.
pub open spec fn requirements_cover(g: DenseGraph, reqs: Seq<(ResourceId, ResourceRequirement)>) -> bool {
    forall|i: int| 0 <= i < g.spec_resources().len() ==> #[trigger] requirement_named(reqs, g.spec_resources()[i].id@)
}

/// Some entry of `reqs` names `id`.
pub open spec fn requirement_named(reqs: Seq<(ResourceId, ResourceRequirement)>, id: Seq<char>) -> bool {
    exists|k: int| 0 <= k < reqs.len() && (#[trigger] reqs[k]).0@ == id
}

/// The capacity policies of all Resources.
pub open spec fn policies_of(g: DenseGraph, reg: ResourceRegistry, policy: CapacityPolicy, out: Seq<CapacityPolicy>) -> bool {
    &&& out.len() == g.spec_resources().len()
    &&& forall|i: int| 0 <= i < out.len() ==> #[trigger] out[i] == policy_for(descriptor_for(reg, g.spec_resources()[i].semantic_type@), policy)
}

fn preparation_error(message: &str) -> (r: BuildError)
    ensures
        r matches BuildError::RuntimePreparation { message: m } && m@ == message@,
{
    let mut text = String::new();
    push_str(&mut text, message);
    BuildError::RuntimePreparation { message: text }
}

fn named_error(prefix: &str, id: &ResourceId) -> (r: BuildError)
    ensures
        r matches BuildError::RuntimePreparation { message: m } && m@ == prefix@ + id@,
{
    let mut text = String::new();
    push_str(&mut text, prefix);
    push_str(&mut text, id.as_str());
    BuildError::RuntimePreparation { message: text }
}


/// Number of stored Resources among the first `n` positions.
pub open spec fn stored_count(g: DenseGraph, n: int) -> nat
    decreases n,
{
    if n <= 0 {
        0
    } else {
        stored_count(g, n - 1) + if stored(g, n - 1) { 1nat } else { 0nat }
    }
}

/// Some assignment names `id`.
pub open spec fn has_assignment(a: Seq<SlotAssignment>, id: Seq<char>) -> bool {
    exists|k: int| 0 <= k < a.len() && #[trigger] a[k].resource@ == id
}

/// The assignment naming `id`.
pub open spec fn assignment_of(a: Seq<SlotAssignment>, id: Seq<char>) -> SlotAssignment {
    a[choose|k: int| 0 <= k < a.len() && #[trigger] a[k].resource@ == id]
}

/// No two assignments name the same Resource.
pub open spec fn assignments_distinct(a: Seq<SlotAssignment>) -> bool {
    forall|x: int, y: int| 0 <= x < y < a.len() ==> #[trigger] a[x].resource@ != #[trigger] a[y].resource@
}

/// The slot that the plan assigns to Resource position `i`.
pub open spec fn slot_of(g: DenseGraph, a: Seq<SlotAssignment>, i: int) -> usize {
    assignment_of(a, g.spec_resources()[i].id@).slot
}

/// The capacity that the plan assigns to Resource position `i`.
pub open spec fn capacity_of(g: DenseGraph, a: Seq<SlotAssignment>, i: int) -> usize {
    assignment_of(a, g.spec_resources()[i].id@).capacity
}

/// Stored Resource `i` lives in slot `s`.
pub open spec fn in_slot(g: DenseGraph, a: Seq<SlotAssignment>, i: int, s: int) -> bool {
    stored(g, i) && slot_of(g, a, i) == s
}

/// `r` is the first stored Resource in slot `s`; its adapter allocates the slot.
pub open spec fn representative(g: DenseGraph, a: Seq<SlotAssignment>, s: int, r: int) -> bool {
    in_slot(g, a, r, s) && forall|j: int| 0 <= j < r ==> !#[trigger] in_slot(g, a, j, s)
}

/// The descriptor of Resource position `i`.
pub open spec fn resource_descriptor(g: DenseGraph, reg: ResourceRegistry, i: int) -> ResourceDescriptor {
    descriptor_for(reg, g.spec_resources()[i].semantic_type@)
}

/// A storage plan can be laid out on the graph: one assignment per stored
/// Resource, valid slots, compatible descriptors within each slot, and no
/// empty slot.
pub open spec fn plan_layable(g: DenseGraph, reg: ResourceRegistry, a: Seq<SlotAssignment>, slot_count: usize) -> bool {
    &&& assignments_distinct(a)
    &&& a.len() == stored_count(g, g.spec_resources().len() as int)
    &&& forall|i: int| #[trigger] stored(g, i) ==> has_assignment(a, g.spec_resources()[i].id@) && slot_of(g, a, i) < slot_count
    &&& forall|i: int, r: int|
        stored(g, i) && #[trigger] representative(g, a, slot_of(g, a, i) as int, r) && r < i ==> resource_descriptor(g, reg, r).spec_compatible(
            &resource_descriptor(g, reg, i),
        )
    &&& forall|s: int| 0 <= s < slot_count ==> #[trigger] slot_filled(g, a, s)
}

/// Some stored Resource lives in slot `s`.
pub open spec fn slot_filled(g: DenseGraph, a: Seq<SlotAssignment>, s: int) -> bool {
    exists|i: int| #[trigger] in_slot(g, a, i, s)
}

/// `out` is the layout of the graph under the storage plan.
pub open spec fn planned_layout(g: DenseGraph, a: Seq<SlotAssignment>, slot_count: usize, out: SlotLayout) -> bool {
    let n = g.spec_resources().len();
    &&& out.resource_slots@.len() == n
    &&& out.resource_capacities@.len() == n
    &&& forall|i: int|
        0 <= i < n ==> #[trigger] out.resource_slots@[i] == if stored(g, i) {
            slot_of(g, a, i)
        } else {
            NO_RUNTIME_SLOT
        }
    &&& forall|i: int|
        0 <= i < n ==> #[trigger] out.resource_capacities@[i] == if stored(g, i) {
            capacity_of(g, a, i)
        } else {
            0
        }
    &&& out.slots@.len() == slot_count
    &&& forall|s: int| 0 <= s < slot_count ==> representative(g, a, s, (#[trigger] out.slots@[s]).representative as int)
    &&& forall|s: int, i: int| 0 <= s < slot_count && #[trigger] in_slot(g, a, i, s) ==> capacity_of(g, a, i) <= out.slots@[s].capacity
    &&& forall|s: int| 0 <= s < slot_count ==> capacity_attained(g, a, s, (#[trigger] out.slots@[s]).capacity)
}

/// Some stored Resource in slot `s` has capacity `c`.
pub open spec fn capacity_attained(g: DenseGraph, a: Seq<SlotAssignment>, s: int, c: usize) -> bool {
    exists|i: int| #[trigger] in_slot(g, a, i, s) && capacity_of(g, a, i) == c
}

/// `out` is the layout without a storage plan: one slot per stored
/// Resource, in Resource order, with its recorded requirement.
pub open spec fn unplanned_layout(g: DenseGraph, reqs: Seq<(ResourceId, ResourceRequirement)>, out: SlotLayout) -> bool {
    let n = g.spec_resources().len();
    &&& out.resource_slots@.len() == n
    &&& out.resource_capacities@.len() == n
    &&& forall|i: int|
        0 <= i < n ==> requirement_listed(reqs, g.spec_resources()[i].id@, ResourceRequirement { capacity: #[trigger] out.resource_capacities@[i] })
    &&& forall|i: int| 0 <= i < n && !stored(g, i) ==> #[trigger] out.resource_slots@[i] == NO_RUNTIME_SLOT
    &&& forall|i: int|
        #[trigger] stored(g, i) ==> out.resource_slots@[i] < out.slots@.len() && out.slots@[out.resource_slots@[i] as int] == (SlotSpec {
            representative: i as usize,
            capacity: out.resource_capacities@[i],
        })
    &&& forall|s: int|
        0 <= s < out.slots@.len() ==> stored(g, (#[trigger] out.slots@[s]).representative as int) && out.resource_slots@[out.slots@[s].representative as int] == s
}

/// Whether no two assignments name the same Resource.
fn distinct_assignments(a: &Vec<SlotAssignment>) -> (r: bool)
    ensures
        r == assignments_distinct(a@),
{
    let mut y: usize = 0;
    while y < a.len()
        invariant
            y <= a@.len(),
            forall|x: int, z: int| 0 <= x < z < y ==> #[trigger] a@[x].resource@ != #[trigger] a@[z].resource@,
        decreases a@.len() - y,
    {
        let mut x: usize = 0;
        while x < y
            invariant
                x <= y < a@.len(),
                forall|t: int| 0 <= t < x ==> #[trigger] a@[t].resource@ != a@[y as int].resource@,
            decreases y - x,
        {
            if a[x].resource == a[y].resource {
                return false;
            }
            x = x + 1;
        }
        y = y + 1;
    }
    true
}

/// Number of stored Resources.
fn count_stored(graph: &DenseGraph) -> (r: usize)
    ensures
        r == stored_count(*graph, graph.spec_resources().len() as int),
{
    let n = graph.resources().len();
    let mut c: usize = 0;
    let mut i: usize = 0;
    while i < n
        invariant
            i <= n,
            n == graph.spec_resources().len(),
            c == stored_count(*graph, i as int),
            c <= i,
        decreases n - i,
    {
        if !is_module_input(graph, i) {
            c = c + 1;
        }
        i = i + 1;
    }
    c
}

/// Position of the assignment naming `id`.
fn find_assignment(a: &Vec<SlotAssignment>, id: &ResourceId) -> (r: Option<usize>)
    requires
        assignments_distinct(a@),
    ensures
        r is None <==> !has_assignment(a@, id@),
        r matches Some(k) ==> k < a@.len() && a@[k as int] == assignment_of(a@, id@),
{
    let mut k: usize = 0;
    while k < a.len()
        invariant
            k <= a@.len(),
            assignments_distinct(a@),
            forall|t: int| 0 <= t < k ==> (#[trigger] a@[t]).resource@ != id@,
        decreases a@.len() - k,
    {
        if a[k].resource == *id {
            proof {
                let c = choose|c: int| 0 <= c < a@.len() && #[trigger] a@[c].resource@ == id@;
                if c != k as int {
                    if c < k {
                        assert(a@[c].resource@ != a@[k as int].resource@);
                    } else {
                        assert(a@[k as int].resource@ != a@[c].resource@);
                    }
                }
            }
            return Some(k);
        }
        k = k + 1;
    }
    None
}


/// The layout under a storage plan, without capacity policies.
#[verifier::loop_isolation(false)]
#[verifier::rlimit(40)]
fn layout_from_plan(graph: &DenseGraph, resources: &ResourceRegistry, a: &Vec<SlotAssignment>, slot_count: usize) -> (r: Result<SlotLayout, BuildError>)
    requires
        resources.wf(),
        descriptors_match(*graph, *resources),
    ensures
        r is Ok <==> plan_layable(*graph, *resources, a@, slot_count),
        r matches Ok(out) ==> planned_layout(*graph, a@, slot_count, out),
        r matches Err(e) ==> e is RuntimePreparation,
{
    let all = graph.resources();
    let n = all.len();
    let ghost g = *graph;
    let ghost av = a@;
    if !distinct_assignments(a) || a.len() != count_stored(graph) {
        return Err(preparation_error("storage plan does not contain exactly one assignment per stored Resource"));
    }
    let mut resource_slots: Vec<usize> = Vec::new();
    let mut resource_capacities: Vec<usize> = Vec::new();
    let mut reps: Vec<Option<usize>> = Vec::new();
    let mut caps: Vec<usize> = Vec::new();
    while reps.len() < slot_count
        invariant
            reps@.len() == caps@.len(),
            reps@.len() <= slot_count,
            forall|s: int| 0 <= s < reps@.len() ==> (#[trigger] reps@[s]) is None,
            forall|s: int| 0 <= s < caps@.len() ==> #[trigger] caps@[s] == 0,
        decreases slot_count - reps@.len(),
    {
        reps.push(None);
        caps.push(0);
    }
    let mut i: usize = 0;
    while i < n
        invariant
            i <= n,
            n == g.spec_resources().len(),
            all@ == g.spec_resources(),
            assignments_distinct(av),
            resource_slots@.len() == i,
            resource_capacities@.len() == i,
            reps@.len() == slot_count,
            caps@.len() == slot_count,
            forall|t: int|
                0 <= t < i ==> #[trigger] resource_slots@[t] == if stored(g, t) {
                    slot_of(g, av, t)
                } else {
                    NO_RUNTIME_SLOT
                },
            forall|t: int|
                0 <= t < i ==> #[trigger] resource_capacities@[t] == if stored(g, t) {
                    capacity_of(g, av, t)
                } else {
                    0
                },
            forall|t: int| 0 <= t < i && #[trigger] stored(g, t) ==> has_assignment(av, g.spec_resources()[t].id@) && slot_of(g, av, t) < slot_count,
            forall|t: int, q: int|
                0 <= t < i && stored(g, t) && #[trigger] representative(g, av, slot_of(g, av, t) as int, q) && q < t ==> resource_descriptor(g, *resources, q).spec_compatible(
                    &resource_descriptor(g, *resources, t),
                ),
            forall|s: int| 0 <= s < slot_count ==> ((#[trigger] reps@[s]) is None <==> forall|j: int| 0 <= j < i ==> !in_slot(g, av, j, s)),
            forall|s: int| 0 <= s < slot_count && (#[trigger] reps@[s]) is Some ==> reps@[s]->0 < i && representative(g, av, s, reps@[s]->0 as int),
            forall|s: int, j: int| 0 <= s < slot_count && 0 <= j < i && #[trigger] in_slot(g, av, j, s) ==> capacity_of(g, av, j) <= caps@[s],
            forall|s: int|
                0 <= s < slot_count ==> #[trigger] caps@[s] == 0 || exists|j: int| 0 <= j < i && #[trigger] in_slot(g, av, j, s) && capacity_of(g, av, j) == caps@[s],
            forall|s: int| 0 <= s < slot_count && (#[trigger] reps@[s]) is Some ==> exists|j: int| 0 <= j < i && #[trigger] in_slot(g, av, j, s) && capacity_of(g, av, j) == caps@[s],
        decreases n - i,
    {
        if is_module_input(graph, i) {
            resource_slots.push(NO_RUNTIME_SLOT);
            resource_capacities.push(0);
            proof {
                assert forall|s: int| 0 <= s < slot_count implies ((#[trigger] reps@[s]) is None <==> forall|j: int| 0 <= j < i + 1 ==> !in_slot(g, av, j, s)) by {
                    assert(!in_slot(g, av, i as int, s));
                }
            }
        } else {
            let resource = &all[i];
            let k = match find_assignment(a, &resource.id) {
                None => {
                    proof {
                        assert(stored(g, i as int));
                    }
                    return Err(named_error("storage plan is missing ", &resource.id));
                },
                Some(k) => k,
            };
            let slot = a[k].slot;
            let capacity = a[k].capacity;
            if slot >= slot_count {
                proof {
                    assert(stored(g, i as int));
                }
                return Err(named_error("storage plan assigns a Resource to an invalid slot: ", &resource.id));
            }
            proof {
                assert(slot_of(g, av, i as int) == slot);
                assert(capacity_of(g, av, i as int) == capacity);
                assert(in_slot(g, av, i as int, slot as int));
            }
            resource_slots.push(slot);
            resource_capacities.push(capacity);
            let ghost old_caps = caps@;
            let ghost old_reps = reps@;
            if caps[slot] < capacity {
                caps.set(slot, capacity);
            }
            match reps[slot] {
                Some(rep) => {
                    let left = match resources.get(&all[rep].semantic_type) {
                        Some(d) => d,
                        None => {
                            proof {
                                assert(resources.registers(g.spec_resources()[rep as int].semantic_type@, g.spec_resources()[rep as int].concrete_type));
                            }
                            return Err(preparation_error("storage plan representative descriptor is missing"));
                        },
                    };
                    let right = match resources.get(&resource.semantic_type) {
                        Some(d) => d,
                        None => {
                            proof {
                                assert(resources.registers(g.spec_resources()[i as int].semantic_type@, g.spec_resources()[i as int].concrete_type));
                            }
                            return Err(named_error("missing descriptor for ", &resource.id));
                        },
                    };
                    proof {
                        lemma_get_is_descriptor_for(*resources, g.spec_resources()[rep as int].semantic_type@, *left);
                        lemma_get_is_descriptor_for(*resources, g.spec_resources()[i as int].semantic_type@, *right);
                    }
                    if !left.compatible_with(right) {
                        proof {
                            assert(representative(g, av, slot_of(g, av, i as int) as int, rep as int));
                        }
                        return Err(preparation_error("storage slot mixes incompatible Resource adapters"));
                    }
                },
                None => {
                    reps.set(slot, Some(i));
                    proof {
                        assert forall|j: int| 0 <= j < i implies !#[trigger] in_slot(g, av, j, slot as int) by {
                            assert(old_reps[slot as int] is None);
                        }
                        assert(representative(g, av, slot as int, i as int));
                    }
                },
            }
            proof {
                assert forall|s: int| 0 <= s < slot_count implies ((#[trigger] reps@[s]) is None <==> forall|j: int| 0 <= j < i + 1 ==> !in_slot(g, av, j, s)) by {
                    if s == slot as int {
                        assert(in_slot(g, av, i as int, s));
                    } else {
                        assert(!in_slot(g, av, i as int, s));
                    }
                }
                assert forall|s: int| 0 <= s < slot_count && (#[trigger] reps@[s]) is Some implies exists|j: int| 0 <= j < i + 1 && #[trigger] in_slot(g, av, j, s) && capacity_of(g, av, j) == caps@[s] by {
                    if s == slot as int {
                        if caps@[s] == capacity {
                            assert(in_slot(g, av, i as int, s) && capacity_of(g, av, i as int) == caps@[s]);
                        } else {
                            assert(caps@[s] == old_caps[s]);
                            assert(old_reps[s] is Some || old_caps[s] == 0);
                        }
                    }
                }
            }
        }
        i = i + 1;
    }
    let mut slots: Vec<SlotSpec> = Vec::new();
    let mut s: usize = 0;
    while s < slot_count
        invariant
            s <= slot_count,
            reps@.len() == slot_count,
            caps@.len() == slot_count,
            slots@.len() == s,
            forall|x: int| 0 <= x < s ==> representative(g, av, x, (#[trigger] slots@[x]).representative as int) && slots@[x].capacity == caps@[x] && reps@[x] is Some,
        decreases slot_count - s,
    {
        match reps[s] {
            None => {
                proof {
                    if slot_filled(g, av, s as int) {
                        let j = choose|j: int| #[trigger] in_slot(g, av, j, s as int);
                        assert(0 <= j < n);
                    }
                }
                return Err(preparation_error("storage plan slot has no Resource assignment"));
            },
            Some(rep) => {
                slots.push(SlotSpec { representative: rep, capacity: caps[s] });
            },
        }
        s = s + 1;
    }
    let out = SlotLayout { slots, resource_slots, resource_capacities, resource_policies: Vec::new() };
    proof {
        assert forall|x: int| 0 <= x < slot_count implies #[trigger] slot_filled(g, av, x) by {
            let r = slots@[x].representative as int;
            assert(in_slot(g, av, r, x));
        }
        assert forall|t: int| #[trigger] stored(g, t) implies has_assignment(av, g.spec_resources()[t].id@) && slot_of(g, av, t) < slot_count by {
        }
        assert forall|x: int| 0 <= x < slot_count implies capacity_attained(g, av, x, (#[trigger] out.slots@[x]).capacity) by {
            assert(slots@[x].capacity == caps@[x] && reps@[x] is Some);
            let j = choose|j: int| 0 <= j < n && #[trigger] in_slot(g, av, j, x) && capacity_of(g, av, j) == caps@[x];
            assert(in_slot(g, av, j, x));
        }
        assert(out.resource_slots@.len() == n);
        assert(out.resource_capacities@.len() == n);
        assert(out.slots@.len() == slot_count);
        assert(forall|x: int| 0 <= x < slot_count ==> representative(g, av, x, (#[trigger] out.slots@[x]).representative as int));
        assert forall|x: int, t: int| 0 <= x < slot_count && #[trigger] in_slot(g, av, t, x) implies capacity_of(g, av, t) <= out.slots@[x].capacity by {
            assert(0 <= t < n);
            assert(slots@[x].capacity == caps@[x]);
        }
        assert(forall|t: int| 0 <= t < n ==> #[trigger] out.resource_slots@[t] == if stored(g, t) { slot_of(g, av, t) } else { NO_RUNTIME_SLOT });
        assert(forall|t: int| 0 <= t < n ==> #[trigger] out.resource_capacities@[t] == if stored(g, t) { capacity_of(g, av, t) } else { 0 });
        assert(planned_layout(g, av, slot_count, out));
    }
    Ok(out)
}


/// The layout without a storage plan, without capacity policies.
fn layout_without_plan(graph: &DenseGraph, requirements: &Vec<(ResourceId, ResourceRequirement)>) -> (r: Result<SlotLayout, BuildError>)
    ensures
        r is Ok <==> requirements_cover(*graph, requirements@),
        r matches Ok(out) ==> unplanned_layout(*graph, requirements@, out),
        r matches Err(e) ==> e is RuntimePreparation,
{
    let all = graph.resources();
    let n = all.len();
    let ghost g = *graph;
    let mut resource_capacities: Vec<usize> = Vec::new();
    let mut i: usize = 0;
    while i < n
        invariant
            i <= n,
            n == g.spec_resources().len(),
            g == *graph,
            all@ == g.spec_resources(),
            resource_capacities@.len() == i,
            forall|t: int| 0 <= t < i ==> #[trigger] requirement_named(requirements@, g.spec_resources()[t].id@),
            forall|t: int|
                0 <= t < i ==> requirement_listed(requirements@, g.spec_resources()[t].id@, ResourceRequirement { capacity: #[trigger] resource_capacities@[t] }),
        decreases n - i,
    {
        match requirement_for(requirements, &all[i].id) {
            None => {
                proof {
                    assert(!requirement_named(requirements@, g.spec_resources()[i as int].id@));
                }
                return Err(named_error("missing requirement for ", &all[i].id));
            },
            Some(q) => {
                resource_capacities.push(q.capacity);
            },
        }
        i = i + 1;
    }
    let mut slots: Vec<SlotSpec> = Vec::new();
    let mut resource_slots: Vec<usize> = Vec::new();
    let mut j: usize = 0;
    while j < n
        invariant
            j <= n,
            n == g.spec_resources().len(),
            g == *graph,
            resource_capacities@.len() == n,
            resource_slots@.len() == j,
            forall|t: int| 0 <= t < j && !stored(g, t) ==> #[trigger] resource_slots@[t] == NO_RUNTIME_SLOT,
            forall|t: int|
                0 <= t < j && #[trigger] stored(g, t) ==> resource_slots@[t] < slots@.len() && slots@[resource_slots@[t] as int] == (SlotSpec {
                    representative: t as usize,
                    capacity: resource_capacities@[t],
                }),
            forall|x: int|
                0 <= x < slots@.len() ==> (#[trigger] slots@[x]).representative < j && stored(g, slots@[x].representative as int)
                    && resource_slots@[slots@[x].representative as int] == x,
        decreases n - j,
    {
        if is_module_input(graph, j) {
            resource_slots.push(NO_RUNTIME_SLOT);
        } else {
            resource_slots.push(slots.len());
            slots.push(SlotSpec { representative: j, capacity: resource_capacities[j] });
            proof {
                assert(stored(g, j as int));
            }
        }
        j = j + 1;
    }
    Ok(SlotLayout { slots, resource_slots, resource_capacities, resource_policies: Vec::new() })
}

/// Lays out runtime slots for a dense graph. Every Resource needs a
/// registered descriptor of its concrete type. Without a storage plan each
/// stored Resource gets a slot of its own, prepared with its recorded
/// requirement; with a plan, Resources share the slots the plan assigns,
/// each slot prepared with the largest capacity assigned to it and allocated
/// through the adapter of its first Resource. Module inputs get no slot.
pub fn allocate_slots(
    graph: &DenseGraph,
    requirements: &Vec<(ResourceId, ResourceRequirement)>,
    storage_plan: Option<&StoragePlan>,
    resources: &ResourceRegistry,
    policy: CapacityPolicy,
) -> (r: Result<SlotLayout, BuildError>)
    requires
        resources.wf(),
    ensures
        r is Ok <==> descriptors_match(*graph, *resources) && match storage_plan {
            None => requirements_cover(*graph, requirements@),
            Some(plan) => plan_layable(*graph, *resources, plan.spec_report().assignments@, plan.spec_report().slot_count),
        },
        r matches Ok(out) ==> policies_of(*graph, *resources, policy, out.resource_policies@) && match storage_plan {
            None => unplanned_layout(*graph, requirements@, out),
            Some(plan) => planned_layout(*graph, plan.spec_report().assignments@, plan.spec_report().slot_count, out),
        },
        r matches Err(e) ==> e is RuntimePreparation,
{
    check_descriptors(graph, resources)?;
    let layout = match storage_plan {
        None => layout_without_plan(graph, requirements),
        Some(plan) => {
            let report = plan.report();
            layout_from_plan(graph, resources, &report.assignments, report.slot_count)
        },
    };
    let mut layout = layout?;
    proof {
        assert forall|i: int| 0 <= i < graph.spec_resources().len() implies #[trigger] resources.knows(graph.spec_resources()[i].semantic_type@) by {
            assert(resources.registers(graph.spec_resources()[i].semantic_type@, graph.spec_resources()[i].concrete_type));
        }
    }
    let policies = resource_policies(graph, resources, policy)?;
    layout.resource_policies = policies;
    Ok(layout)
}


/// A compiled binding agrees with a build-time port descriptor: same name,
/// semantic type of the bound Resource and concrete type.
pub open spec fn port_matches(g: DenseGraph, b: DenseBinding, p: PortDescriptor) -> bool {
    &&& b.port@ == p.name@
    &&& g.spec_resources()[b.resource.value() as int].semantic_type@ == p.semantic_type@
    &&& b.concrete_type == p.concrete_type
}

/// Compiled bindings and build-time ports agree position by position.
pub open spec fn ports_match(g: DenseGraph, bindings: Seq<DenseBinding>, ports: Seq<PortDescriptor>) -> bool {
    &&& bindings.len() == ports.len()
    &&& forall|k: int| 0 <= k < bindings.len() ==> port_matches(g, #[trigger] bindings[k], ports[k])
}

/// Every binding refers to a Resource of the graph.
pub open spec fn bindings_in_graph(g: DenseGraph, bindings: Seq<DenseBinding>) -> bool {
    forall|k: int| 0 <= k < bindings.len() ==> (#[trigger] bindings[k]).resource.value() < g.spec_resources().len()
}

/// Every binding of every Unit refers to a Resource of the graph.
pub open spec fn units_in_graph(g: DenseGraph) -> bool {
    forall|u: int|
        0 <= u < g.spec_units().len() ==> bindings_in_graph(g, (#[trigger] g.spec_units()[u]).inputs@) && bindings_in_graph(
            g,
            g.spec_units()[u].outputs@,
        )
}

/// The registered descriptor of Unit type `name`.
pub open spec fn unit_descriptor_for(reg: UnitRegistry, name: Seq<char>) -> UnitDescriptor {
    reg.entries()[choose|i: int| 0 <= i < reg.entries().len() && #[trigger] reg.entries()[i].unit_type@ == name]
}

/// The descriptor that `get` returns is the registered one.
pub proof fn lemma_unit_get_is_descriptor_for(reg: UnitRegistry, name: Seq<char>, d: UnitDescriptor)
    requires
        reg.wf(),
        d.unit_type@ == name,
        reg.entries().contains(d),
    ensures
        d == unit_descriptor_for(reg, name),
{
    let j = choose|j: int| 0 <= j < reg.entries().len() && reg.entries()[j] == d;
    assert(reg.entries()[j].unit_type@ == name);
    let i = choose|i: int| 0 <= i < reg.entries().len() && #[trigger] reg.entries()[i].unit_type@ == name;
    if i != j {
        if i < j {
            assert(reg.entries()[i].unit_type@ != reg.entries()[j].unit_type@);
        } else {
            assert(reg.entries()[j].unit_type@ != reg.entries()[i].unit_type@);
        }
    }
}

/// Every Unit's type is registered and its compiled ports agree, in order,
/// with the registered descriptor.
pub open spec fn unit_contracts_hold(g: DenseGraph, reg: UnitRegistry) -> bool {
    forall|u: int|
        0 <= u < g.spec_units().len() ==> #[trigger] reg.knows(g.spec_units()[u].unit_type@) && ports_match(
            g,
            g.spec_units()[u].inputs@,
            unit_descriptor_for(reg, g.spec_units()[u].unit_type@).inputs@,
        ) && ports_match(g, g.spec_units()[u].outputs@, unit_descriptor_for(reg, g.spec_units()[u].unit_type@).outputs@)
}

fn contract_prefix(unit: &DenseUnit, direction: &str) -> (r: String)
    ensures
        r@ == "Unit "@ + unit.id@ + " ("@ + unit.unit_type@ + ") ordered "@ + direction@ + " port contract "@,
{
    let mut text = String::new();
    push_str(&mut text, "Unit ");
    push_str(&mut text, unit.id.as_str());
    push_str(&mut text, " (");
    push_str(&mut text, unit.unit_type.as_str());
    push_str(&mut text, ") ordered ");
    push_str(&mut text, direction);
    push_str(&mut text, " port contract ");
    text
}

/// Checks that the compiled bindings of one direction of a Unit agree, in
/// order, with the build-time port descriptors.
pub fn validate_ordered_port_contract(
    graph: &DenseGraph,
    unit: &DenseUnit,
    direction: &str,
    bindings: &Vec<DenseBinding>,
    ports: &Vec<PortDescriptor>,
) -> (r: Result<(), BuildError>)
    requires
        bindings_in_graph(*graph, bindings@),
    ensures
        r is Ok <==> ports_match(*graph, bindings@, ports@),
        r matches Err(e) ==> e is RuntimePreparation,
{
    if bindings.len() != ports.len() {
        let mut message = contract_prefix(unit, direction);
        push_str(&mut message, "has ");
        push_decimal(&mut message, bindings.len());
        push_str(&mut message, " compiled ports but build descriptor has ");
        push_decimal(&mut message, ports.len());
        return Err(BuildError::RuntimePreparation { message });
    }
    let all = graph.resources();
    let mut k: usize = 0;
    while k < bindings.len()
        invariant
            k <= bindings@.len(),
            bindings@.len() == ports@.len(),
            all@ == graph.spec_resources(),
            bindings_in_graph(*graph, bindings@),
            forall|t: int| 0 <= t < k ==> port_matches(*graph, #[trigger] bindings@[t], ports@[t]),
        decreases bindings@.len() - k,
    {
        let binding = &bindings[k];
        let port = &ports[k];
        let resource = &all[binding.resource.get()];
        if !text_eq(binding.port.as_str(), port.name.as_str()) || !(resource.semantic_type == port.semantic_type)
            || !binding.concrete_type.same_as(port.concrete_type) {
            let mut message = contract_prefix(unit, direction);
            push_str(&mut message, "differs at ordinal ");
            push_decimal(&mut message, k);
            proof {
                assert(!port_matches(*graph, bindings@[k as int], ports@[k as int]));
            }
            return Err(BuildError::RuntimePreparation { message });
        }
        k = k + 1;
    }
    Ok(())
}

/// Checks every Unit of the graph against its registered descriptor.
pub fn validate_unit_descriptors(graph: &DenseGraph, units: &UnitRegistry) -> (r: Result<(), BuildError>)
    requires
        units.wf(),
        units_in_graph(*graph),
    ensures
        r is Ok <==> unit_contracts_hold(*graph, *units),
        r matches Err(BuildError::Factory(FactoryError::UnknownUnitType { unit_type })) ==> exists|u: int|
            0 <= u < graph.spec_units().len() && #[trigger] graph.spec_units()[u].unit_type@ == unit_type@ && !units.knows(unit_type@),
{
    let list = graph.units();
    let mut u: usize = 0;
    while u < list.len()
        invariant
            u <= list@.len(),
            list@ == graph.spec_units(),
            units.wf(),
            units_in_graph(*graph),
            forall|t: int|
                0 <= t < u ==> #[trigger] units.knows(graph.spec_units()[t].unit_type@) && ports_match(
                    *graph,
                    graph.spec_units()[t].inputs@,
                    unit_descriptor_for(*units, graph.spec_units()[t].unit_type@).inputs@,
                ) && ports_match(*graph, graph.spec_units()[t].outputs@, unit_descriptor_for(*units, graph.spec_units()[t].unit_type@).outputs@),
        decreases list@.len() - u,
    {
        let unit = &list[u];
        let descriptor = match units.get(&unit.unit_type) {
            None => {
                return Err(BuildError::Factory(FactoryError::UnknownUnitType { unit_type: unit.unit_type.clone() }));
            },
            Some(d) => d,
        };
        proof {
            lemma_unit_get_is_descriptor_for(*units, unit.unit_type@, *descriptor);
            assert(units.knows(unit.unit_type@));
        }
        validate_ordered_port_contract(graph, unit, "input", &unit.inputs, &descriptor.inputs)?;
        validate_ordered_port_contract(graph, unit, "output", &unit.outputs, &descriptor.outputs)?;
        u = u + 1;
    }
    Ok(())
}

/// A Unit never writes one Resource twice, and never writes a Resource it
/// reads: its pending outputs are disjoint from each other and from its
/// live inputs.
pub open spec fn bindings_disjoint(u: DenseUnit) -> bool {
    &&& forall|a: int, b: int|
        0 <= a < b < u.outputs@.len() ==> #[trigger] u.outputs@[a].resource != #[trigger] u.outputs@[b].resource
    &&& forall|i: int, o: int|
        0 <= i < u.inputs@.len() && 0 <= o < u.outputs@.len() ==> #[trigger] u.inputs@[i].resource
            != #[trigger] u.outputs@[o].resource
}

/// Every Unit of the graph has disjoint bindings.
pub open spec fn units_disjoint(g: DenseGraph) -> bool {
    forall|u: int| 0 <= u < g.spec_units().len() ==> bindings_disjoint(#[trigger] g.spec_units()[u])
}

/// Under the slot layout `slots`, a Unit's outputs occupy distinct slots,
/// and none of them is the slot of one of its stored inputs.
pub open spec fn slots_unaliased(u: DenseUnit, slots: Seq<usize>) -> bool {
    &&& forall|a: int, b: int|
        #![trigger u.outputs@[a], u.outputs@[b]]
        0 <= a < b < u.outputs@.len() ==> slots[u.outputs@[a].resource.value() as int]
            != slots[u.outputs@[b].resource.value() as int]
    &&& forall|i: int, o: int|
        #![trigger u.inputs@[i], u.outputs@[o]]
        0 <= i < u.inputs@.len() && 0 <= o < u.outputs@.len() && slots[u.inputs@[i].resource.value() as int]
            != NO_RUNTIME_SLOT ==> slots[u.inputs@[i].resource.value() as int]
            != slots[u.outputs@[o].resource.value() as int]
}

/// Every Unit of the graph is unaliased under `slots`.
pub open spec fn units_unaliased(g: DenseGraph, slots: Seq<usize>) -> bool {
    forall|u: int| 0 <= u < g.spec_units().len() ==> slots_unaliased(#[trigger] g.spec_units()[u], slots)
}

fn unit_error(unit: &DenseUnit, suffix: &str) -> (r: BuildError)
    ensures
        r matches BuildError::RuntimePreparation { message: m } && m@ == "Unit "@ + unit.id@ + suffix@,
{
    let mut text = String::new();
    push_str(&mut text, "Unit ");
    push_str(&mut text, unit.id.as_str());
    push_str(&mut text, suffix);
    BuildError::RuntimePreparation { message: text }
}

fn unit_bindings_disjoint(unit: &DenseUnit) -> (r: bool)
    ensures
        r == bindings_disjoint(*unit),
{
    let mut b: usize = 0;
    while b < unit.outputs.len()
        invariant
            b <= unit.outputs@.len(),
            forall|x: int, y: int| 0 <= x < y < b ==> #[trigger] unit.outputs@[x].resource != #[trigger] unit.outputs@[y].resource,
        decreases unit.outputs@.len() - b,
    {
        let mut a: usize = 0;
        while a < b
            invariant
                a <= b < unit.outputs@.len(),
                forall|x: int, y: int| 0 <= x < y < b ==> #[trigger] unit.outputs@[x].resource != #[trigger] unit.outputs@[y].resource,
                forall|x: int| 0 <= x < a ==> #[trigger] unit.outputs@[x].resource != unit.outputs@[b as int].resource,
            decreases b - a,
        {
            if unit.outputs[a].resource == unit.outputs[b].resource {
                proof {
                    assert(!bindings_disjoint(*unit)) by {
                        assert(unit.outputs@[a as int].resource == unit.outputs@[b as int].resource);
                    }
                }
                return false;
            }
            a = a + 1;
        }
        b = b + 1;
    }
    let mut i: usize = 0;
    while i < unit.inputs.len()
        invariant
            i <= unit.inputs@.len(),
            forall|x: int, y: int| 0 <= x < y < unit.outputs@.len() ==> #[trigger] unit.outputs@[x].resource != #[trigger] unit.outputs@[y].resource,
            forall|x: int, o: int| 0 <= x < i && 0 <= o < unit.outputs@.len() ==> #[trigger] unit.inputs@[x].resource != #[trigger] unit.outputs@[o].resource,
        decreases unit.inputs@.len() - i,
    {
        let mut o: usize = 0;
        while o < unit.outputs.len()
            invariant
                i < unit.inputs@.len(),
                o <= unit.outputs@.len(),
                forall|x: int, y: int| 0 <= x < y < unit.outputs@.len() ==> #[trigger] unit.outputs@[x].resource != #[trigger] unit.outputs@[y].resource,
                forall|x: int, p: int| 0 <= x < i && 0 <= p < unit.outputs@.len() ==> #[trigger] unit.inputs@[x].resource != #[trigger] unit.outputs@[p].resource,
                forall|p: int| 0 <= p < o ==> unit.inputs@[i as int].resource != #[trigger] unit.outputs@[p].resource,
            decreases unit.outputs@.len() - o,
        {
            if unit.inputs[i].resource == unit.outputs[o].resource {
                proof {
                    assert(!bindings_disjoint(*unit)) by {
                        assert(unit.inputs@[i as int].resource == unit.outputs@[o as int].resource);
                    }
                }
                return false;
            }
            o = o + 1;
        }
        i = i + 1;
    }
    true
}

/// Checks that no Unit writes a Resource twice or writes one it reads.
pub fn check_disjoint_bindings(graph: &DenseGraph) -> (r: Result<(), BuildError>)
    ensures
        r is Ok <==> units_disjoint(*graph),
        r matches Err(e) ==> e is RuntimePreparation,
{
    let list = graph.units();
    let mut u: usize = 0;
    while u < list.len()
        invariant
            u <= list@.len(),
            list@ == graph.spec_units(),
            forall|t: int| 0 <= t < u ==> bindings_disjoint(#[trigger] graph.spec_units()[t]),
        decreases list@.len() - u,
    {
        if !unit_bindings_disjoint(&list[u]) {
            return Err(unit_error(&list[u], " does not have disjoint live inputs and pending outputs"));
        }
        u = u + 1;
    }
    Ok(())
}

fn unit_slots_unaliased(unit: &DenseUnit, slots: &Vec<usize>) -> (r: bool)
    requires
        forall|k: int| 0 <= k < unit.inputs@.len() ==> (#[trigger] unit.inputs@[k]).resource.value() < slots@.len(),
        forall|k: int| 0 <= k < unit.outputs@.len() ==> (#[trigger] unit.outputs@[k]).resource.value() < slots@.len(),
    ensures
        r == slots_unaliased(*unit, slots@),
{
    let mut b: usize = 0;
    while b < unit.outputs.len()
        invariant
            b <= unit.outputs@.len(),
            forall|k: int| 0 <= k < unit.outputs@.len() ==> (#[trigger] unit.outputs@[k]).resource.value() < slots@.len(),
            forall|x: int, y: int|
                #![trigger unit.outputs@[x], unit.outputs@[y]]
                0 <= x < y < b ==> slots@[unit.outputs@[x].resource.value() as int] != slots@[unit.outputs@[y].resource.value() as int],
        decreases unit.outputs@.len() - b,
    {
        let mut a: usize = 0;
        while a < b
            invariant
                a <= b < unit.outputs@.len(),
                forall|k: int| 0 <= k < unit.outputs@.len() ==> (#[trigger] unit.outputs@[k]).resource.value() < slots@.len(),
                forall|x: int, y: int|
                    #![trigger unit.outputs@[x], unit.outputs@[y]]
                    0 <= x < y < b ==> slots@[unit.outputs@[x].resource.value() as int] != slots@[unit.outputs@[y].resource.value() as int],
                forall|x: int| 0 <= x < a ==> slots@[(#[trigger] unit.outputs@[x]).resource.value() as int] != slots@[unit.outputs@[b as int].resource.value() as int],
            decreases b - a,
        {
            proof {
                assert(unit.outputs@[a as int].resource.value() < slots@.len());
                assert(unit.outputs@[b as int].resource.value() < slots@.len());
            }
            if slots[unit.outputs[a].resource.get()] == slots[unit.outputs[b].resource.get()] {
                proof {
                    assert(!slots_unaliased(*unit, slots@)) by {
                        assert(slots@[unit.outputs@[a as int].resource.value() as int] == slots@[unit.outputs@[b as int].resource.value() as int]);
                    }
                }
                return false;
            }
            a = a + 1;
        }
        b = b + 1;
    }
    let mut i: usize = 0;
    while i < unit.inputs.len()
        invariant
            i <= unit.inputs@.len(),
            forall|k: int| 0 <= k < unit.outputs@.len() ==> (#[trigger] unit.outputs@[k]).resource.value() < slots@.len(),
            forall|k: int| 0 <= k < unit.inputs@.len() ==> (#[trigger] unit.inputs@[k]).resource.value() < slots@.len(),
            forall|x: int, y: int|
                #![trigger unit.outputs@[x], unit.outputs@[y]]
                0 <= x < y < unit.outputs@.len() ==> slots@[unit.outputs@[x].resource.value() as int] != slots@[unit.outputs@[y].resource.value() as int],
            forall|x: int, o: int|
                #![trigger unit.inputs@[x], unit.outputs@[o]]
                0 <= x < i && 0 <= o < unit.outputs@.len() && slots@[unit.inputs@[x].resource.value() as int] != NO_RUNTIME_SLOT ==> slots@[unit.inputs@[x].resource.value() as int]
                    != slots@[unit.outputs@[o].resource.value() as int],
        decreases unit.inputs@.len() - i,
    {
        proof {
            assert(unit.inputs@[i as int].resource.value() < slots@.len());
        }
        let slot = slots[unit.inputs[i].resource.get()];
        if slot != NO_RUNTIME_SLOT {
            let mut o: usize = 0;
            while o < unit.outputs.len()
                invariant
                    i < unit.inputs@.len(),
                    o <= unit.outputs@.len(),
                    slot == slots@[unit.inputs@[i as int].resource.value() as int],
                    slot != NO_RUNTIME_SLOT,
                    forall|k: int| 0 <= k < unit.outputs@.len() ==> (#[trigger] unit.outputs@[k]).resource.value() < slots@.len(),
                    forall|p: int| 0 <= p < o ==> slot != slots@[(#[trigger] unit.outputs@[p]).resource.value() as int],
                decreases unit.outputs@.len() - o,
            {
                proof {
                    assert(unit.outputs@[o as int].resource.value() < slots@.len());
                }
                if slot == slots[unit.outputs[o].resource.get()] {
                    proof {
                        assert(!slots_unaliased(*unit, slots@)) by {
                            assert(slots@[unit.inputs@[i as int].resource.value() as int] == slots@[unit.outputs@[o as int].resource.value() as int]);
                        }
                    }
                    return false;
                }
                o = o + 1;
            }
        }
        i = i + 1;
    }
    true
}

/// Checks, under a slot layout, that no Unit's pending outputs share a slot
/// with each other or with one of its stored inputs.
pub fn check_slot_aliasing(graph: &DenseGraph, resource_slots: &Vec<usize>) -> (r: Result<(), BuildError>)
    requires
        units_in_graph(*graph),
        resource_slots@.len() == graph.spec_resources().len(),
    ensures
        r is Ok <==> units_unaliased(*graph, resource_slots@),
        r matches Err(e) ==> e is RuntimePreparation,
{
    let list = graph.units();
    let mut u: usize = 0;
    while u < list.len()
        invariant
            u <= list@.len(),
            list@ == graph.spec_units(),
            units_in_graph(*graph),
            resource_slots@.len() == graph.spec_resources().len(),
            forall|t: int| 0 <= t < u ==> slots_unaliased(#[trigger] graph.spec_units()[t], resource_slots@),
        decreases list@.len() - u,
    {
        let unit = &list[u];
        proof {
            assert(bindings_in_graph(*graph, graph.spec_units()[u as int].inputs@));
            assert(bindings_in_graph(*graph, graph.spec_units()[u as int].outputs@));
        }
        if !unit_slots_unaliased(unit, resource_slots) {
            return Err(unit_error(unit, " has aliased live input and pending output slots"));
        }
        u = u + 1;
    }
    Ok(())
}

/// Whether Resource position `index` is published by a Module input.
pub fn is_module_input(graph: &DenseGraph, index: usize) -> (r: bool)
    ensures
        r == is_input_position(*graph, index as int),
{
    let inputs = graph.module_inputs();
    let mut k: usize = 0;
    while k < inputs.len()
        invariant
            k <= inputs@.len(),
            inputs@ == graph.spec_module_inputs(),
            forall|t: int| 0 <= t < k ==> (#[trigger] inputs@[t]).value() != index,
        decreases inputs@.len() - k,
    {
        if inputs[k].get() == index {
            return true;
        }
        k = k + 1;
    }
    false
}

/// Checks that each Resource has a registered descriptor of its concrete type.
pub fn check_descriptors(graph: &DenseGraph, resources: &ResourceRegistry) -> (r: Result<(), BuildError>)
    requires
        resources.wf(),
    ensures
        r is Ok <==> descriptors_match(*graph, *resources),
        r matches Err(e) ==> e is RuntimePreparation,
{
    let all = graph.resources();
    let mut i: usize = 0;
    while i < all.len()
        invariant
            i <= graph.spec_resources().len(),
            all@ == graph.spec_resources(),
            resources.wf(),
            forall|t: int| 0 <= t < i ==> #[trigger] resources.registers(graph.spec_resources()[t].semantic_type@, graph.spec_resources()[t].concrete_type),
        decreases graph.spec_resources().len() - i,
    {
        let resource = &all[i];
        match resources.get(&resource.semantic_type) {
            None => {
                proof {
                    if resources.registers(resource.semantic_type@, resource.concrete_type) {
                        let j = choose|j: int| 0 <= j < resources.entries().len() && #[trigger] resources.entries()[j].semantic() == resource.semantic_type@ && resources.entries()[j].concrete() == resource.concrete_type;
                        assert(resources.knows(resource.semantic_type@));
                    }
                }
                return Err(named_error("missing descriptor for ", &resource.id));
            },
            Some(descriptor) => {
                if !descriptor.concrete_type().same_as(resource.concrete_type) {
                    proof {
                        if resources.registers(resource.semantic_type@, resource.concrete_type) {
                            resources.lemma_registers_unique(resource.semantic_type@, resource.concrete_type, descriptor.concrete());
                        }
                    }
                    return Err(named_error("Resource graph type does not match build descriptor type: ", &resource.id));
                }
            },
        }
        i = i + 1;
    }
    Ok(())
}

/// Capacity policy of every Resource.
pub fn resource_policies(graph: &DenseGraph, resources: &ResourceRegistry, policy: CapacityPolicy) -> (r: Result<Vec<CapacityPolicy>, BuildError>)
    requires
        resources.wf(),
    ensures
        r is Ok <==> forall|i: int| 0 <= i < graph.spec_resources().len() ==> #[trigger] resources.knows(graph.spec_resources()[i].semantic_type@),
        r matches Ok(out) ==> policies_of(*graph, *resources, policy, out@),
        r matches Err(e) ==> e is RuntimePreparation,
{
    let all = graph.resources();
    let mut out: Vec<CapacityPolicy> = Vec::new();
    let mut i: usize = 0;
    while i < all.len()
        invariant
            i <= graph.spec_resources().len(),
            all@ == graph.spec_resources(),
            resources.wf(),
            out@.len() == i,
            forall|t: int| 0 <= t < i ==> #[trigger] resources.knows(graph.spec_resources()[t].semantic_type@),
            forall|t: int| 0 <= t < i ==> #[trigger] out@[t] == policy_for(descriptor_for(*resources, graph.spec_resources()[t].semantic_type@), policy),
        decreases graph.spec_resources().len() - i,
    {
        let resource = &all[i];
        match resources.get(&resource.semantic_type) {
            None => {
                return Err(named_error("missing descriptor for ", &resource.id));
            },
            Some(descriptor) => {
                proof {
                    lemma_get_is_descriptor_for(*resources, resource.semantic_type@, *descriptor);
                }
                let p = if descriptor.invariants().representation == StorageRepresentation::FixedBuffer {
                    CapacityPolicy::RejectOverflow
                } else {
                    policy
                };
                out.push(p);
            },
        }
        i = i + 1;
    }
    Ok(out)
}

} // verus!
