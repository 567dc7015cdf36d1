//! Host-side run boundary of a prepared dynamic Module: the bound input
//! set a run is checked against, and caller-owned output storage.

use vstd::prelude::*;

use crate::dense::{DenseGraph, InputHandle, ResourceIndex};
use crate::render::push_decimal;
use crate::report::{kind_of, FailureDisposition, RunError, RunEvent, TimingOverhead, TimingScope, UnitExecutionRecorder, event_kind};
use crate::text::push_str;
use crate::types::ConcreteType;

verus! {

/// One bound Module input: the Resource, the plan its handle came from,
/// and the concrete type of the bound value.
#[derive(Clone, Copy, Debug)]
pub struct InputBinding {
    pub resource: ResourceIndex,
    pub plan_token: u64,
    pub concrete_type: ConcreteType,
}

/// Rejected binding of a Module input.
#[derive(Clone, Copy, Debug, PartialEq, Eq)]
pub enum InputBindingError {
    Duplicate { resource: ResourceIndex },
}

/// The set of Module inputs bound for one run, in binding order.
#[derive(Debug)]
pub struct ModuleInputs {
    bindings: Vec<InputBinding>,
}

/// Host-owned output storage whose contents are valid only after a
/// successful publication and copy.
pub struct HostOutput<T> {
    value: T,
    valid: bool,
}

/// Every binding came from a handle of the graph's plan.
pub open spec fn tokens_match(g: DenseGraph, b: Seq<InputBinding>) -> bool {
    forall|k: int| 0 <= k < b.len() ==> (#[trigger] b[k]).plan_token == g.spec_plan_token()
}

/// The bound Resources are exactly the Module inputs (counted with
/// multiplicity against the required list).
pub open spec fn inputs_exact(g: DenseGraph, b: Seq<InputBinding>) -> bool {
    &&& b.len() == g.spec_module_inputs().len()
    &&& forall|k: int| 0 <= k < b.len() ==> g.spec_module_inputs().contains(#[trigger] b[k].resource)
}

/// Every bound value has the concrete type of its Resource.
pub open spec fn types_match(g: DenseGraph, b: Seq<InputBinding>) -> bool {
    forall|k: int|
        0 <= k < b.len() ==> g.spec_resources()[(#[trigger] b[k]).resource.value() as int].concrete_type == b[k].concrete_type
}

/// The Module input positions lie inside the graph.
pub open spec fn inputs_in_graph(g: DenseGraph) -> bool {
    forall|k: int| 0 <= k < g.spec_module_inputs().len() ==> (#[trigger] g.spec_module_inputs()[k]).value() < g.spec_resources().len()
}

impl ModuleInputs {
    /// The bindings in binding order.
    pub closed spec fn spec_bindings(&self) -> Seq<InputBinding> {
        self.bindings@
    }

    /// An empty binding set.
    pub fn with_capacity(capacity: usize) -> (r: Self)
        ensures
            r.spec_bindings().len() == 0,
    {
        ModuleInputs { bindings: Vec::with_capacity(capacity) }
    }

    /// Removes every binding.
    pub fn clear(&mut self)
        ensures
            final(self).spec_bindings().len() == 0,
    {
        self.bindings.clear();
    }

    /// The bindings in binding order.
    pub fn bindings(&self) -> (r: &Vec<InputBinding>)
        ensures
            r@ == self.spec_bindings(),
    {
        &self.bindings
    }

    /// Binds a value of type `T` to the input of `handle`; a Resource is
    /// bound at most once.
    pub fn bind<T: 'static>(&mut self, handle: &InputHandle<T>) -> (r: Result<(), InputBindingError>)
        ensures
            r is Err <==> exists|k: int|
                0 <= k < old(self).spec_bindings().len() && (#[trigger] old(self).spec_bindings()[k]).resource == handle.spec_resource(),
            r matches Err(InputBindingError::Duplicate { resource }) ==> resource == handle.spec_resource()
                && final(self).spec_bindings() == old(self).spec_bindings(),
            r is Ok ==> final(self).spec_bindings().len() == old(self).spec_bindings().len() + 1
                && final(self).spec_bindings().take(old(self).spec_bindings().len() as int) == old(self).spec_bindings()
                && final(self).spec_bindings().last().resource == handle.spec_resource()
                && final(self).spec_bindings().last().plan_token == handle.spec_plan_token(),
    {
        let resource = handle.resource();
        let mut k: usize = 0;
        while k < self.bindings.len()
            invariant
                k <= self.bindings@.len(),
                resource == handle.spec_resource(),
                self.bindings@ == old(self).spec_bindings(),
                forall|t: int| 0 <= t < k ==> (#[trigger] self.bindings@[t]).resource != resource,
            decreases self.bindings@.len() - k,
        {
            if self.bindings[k].resource == resource {
                return Err(InputBindingError::Duplicate { resource });
            }
            k = k + 1;
        }
        self.bindings.push(InputBinding { resource, plan_token: handle.plan_token(), concrete_type: ConcreteType::of::<T>() });
        proof {
            assert(self.bindings@.take(old(self).spec_bindings().len() as int) =~= old(self).spec_bindings());
        }
        Ok(())
    }

    /// Checks the bound set against a prepared graph: every handle belongs
    /// to the graph's plan, the bound Resources are exactly the Module
    /// inputs, and every value has its Resource's concrete type.
    pub fn validate(&self, graph: &DenseGraph) -> (r: Result<(), RunError>)
        requires
            inputs_in_graph(*graph),
        ensures
            r is Ok <==> tokens_match(*graph, self.spec_bindings()) && inputs_exact(*graph, self.spec_bindings()) && types_match(
                *graph,
                self.spec_bindings(),
            ),
            !tokens_match(*graph, self.spec_bindings()) ==> (r matches Err(RunError::RuntimeBinding { message })
                && message@ == "input handle belongs to a different graph plan"@),
            tokens_match(*graph, self.spec_bindings()) && !inputs_exact(*graph, self.spec_bindings()) ==> (r matches Err(
                RunError::RuntimeBinding { message },
            ) && message@ == "module inputs do not exactly match required inputs"@),
            r is Err ==> r matches Err(RunError::RuntimeBinding { .. }),
    {
        let b = &self.bindings;
        let token = graph.plan_token();
        let mut k: usize = 0;
        while k < b.len()
            invariant
                k <= b@.len(),
                b@ == self.spec_bindings(),
                token == graph.spec_plan_token(),
                forall|t: int| 0 <= t < k ==> (#[trigger] b@[t]).plan_token == token,
            decreases b@.len() - k,
        {
            if b[k].plan_token != token {
                let mut message = String::new();
                push_str(&mut message, "input handle belongs to a different graph plan");
                return Err(RunError::RuntimeBinding { message });
            }
            k = k + 1;
        }
        let required = graph.module_inputs();
        let mut exact = b.len() == required.len();
        let mut j: usize = 0;
        while j < b.len()
            invariant
                j <= b@.len(),
                b@ == self.spec_bindings(),
                required@ == graph.spec_module_inputs(),
                tokens_match(*graph, b@),
                exact ==> b@.len() == required@.len() && forall|t: int| 0 <= t < j ==> required@.contains(#[trigger] b@[t].resource),
                !exact ==> !inputs_exact(*graph, b@),
            decreases b@.len() - j,
        {
            if exact && !index_listed(required, b[j].resource) {
                exact = false;
            }
            j = j + 1;
        }
        if !exact {
            let mut message = String::new();
            push_str(&mut message, "module inputs do not exactly match required inputs");
            return Err(RunError::RuntimeBinding { message });
        }
        let all = graph.resources();
        let mut i: usize = 0;
        while i < b.len()
            invariant
                i <= b@.len(),
                b@ == self.spec_bindings(),
                all@ == graph.spec_resources(),
                inputs_in_graph(*graph),
                tokens_match(*graph, b@),
                inputs_exact(*graph, b@),
                forall|t: int| 0 <= t < i ==> all@[(#[trigger] b@[t]).resource.value() as int].concrete_type == b@[t].concrete_type,
            decreases b@.len() - i,
        {
            let binding = b[i];
            proof {
                assert(graph.spec_module_inputs().contains(b@[i as int].resource));
                let q = choose|q: int| 0 <= q < graph.spec_module_inputs().len() && graph.spec_module_inputs()[q] == b@[i as int].resource;
                assert(graph.spec_module_inputs()[q].value() < graph.spec_resources().len());
            }
            let expected = all[binding.resource.get()].concrete_type;
            if !expected.same_as(binding.concrete_type) {
                let mut message = String::new();
                push_str(&mut message, "input resource ");
                push_decimal(&mut message, binding.resource.get());
                push_str(&mut message, " expects ");
                push_string(&mut message, &expected.text());
                push_str(&mut message, ", supplied ");
                push_string(&mut message, &binding.concrete_type.text());
                return Err(RunError::RuntimeBinding { message });
            }
            i = i + 1;
        }
        Ok(())
    }
}

fn push_string(out: &mut String, text: &String)
    ensures
        final(out)@ == old(out)@ + text@,
{
    push_str(out, text.as_str());
}

/// Whether `index` is listed.
fn index_listed(list: &Vec<ResourceIndex>, index: ResourceIndex) -> (r: bool)
    ensures
        r == list@.contains(index),
{
    let mut k: usize = 0;
    while k < list.len()
        invariant
            k <= list@.len(),
            forall|t: int| 0 <= t < k ==> list@[t] != index,
        decreases list@.len() - k,
    {
        if list[k] == index {
            return true;
        }
        k = k + 1;
    }
    false
}

impl<T> HostOutput<T> {
    /// The stored value.
    pub closed spec fn spec_value(&self) -> T {
        self.value
    }

    /// Whether the stored value is a completed copy of a published output.
    pub closed spec fn spec_valid(&self) -> bool {
        self.valid
    }

    /// Wraps caller storage; it is not valid until a run copies into it.
    pub fn new(value: T) -> (r: Self)
        ensures
            r.spec_value() == value,
            !r.spec_valid(),
    {
        HostOutput { value, valid: false }
    }

    /// Whether the storage holds a completed copy.
    pub fn is_valid(&self) -> (r: bool)
        ensures
            r == self.spec_valid(),
    {
        self.valid
    }

    /// The storage, only while it holds a completed copy.
    pub fn get(&self) -> (r: Option<&T>)
        ensures
            r == if self.spec_valid() {
                Some(&self.spec_value())
            } else {
                None
            },
    {
        if self.valid {
            Some(&self.value)
        } else {
            None
        }
    }

    /// The storage regardless of validity; after a failure it may be
    /// partially written.
    pub fn raw(&self) -> (r: &T)
        ensures
            *r == self.spec_value(),
    {
        &self.value
    }

    /// Marks the storage invalid; a run does this on entry.
    pub fn invalidate(&mut self)
        ensures
            final(self).spec_value() == old(self).spec_value(),
            !final(self).spec_valid(),
    {
        self.valid = false;
    }

    /// The storage for a copy to write into; validity is unchanged.
    pub fn storage_mut(&mut self) -> (r: &mut T)
        ensures
            *r == old(self).spec_value(),
            final(self).spec_value() == *final(r),
            final(self).spec_valid() == old(self).spec_valid(),
    {
        &mut self.value
    }

    /// Marks the storage valid after a completed copy.
    pub fn mark_valid(&mut self)
        ensures
            final(self).spec_value() == old(self).spec_value(),
            final(self).spec_valid(),
    {
        self.valid = true;
    }
}

/// A dynamic run that ends this way poisons its Module: a panic, or a
/// fatal Unit failure.
pub open spec fn poisons_module(e: RunError) -> bool {
    match e {
        RunError::Panic => true,
        RunError::Unit(f) => f.disposition == FailureDisposition::Fatal,
        _ => false,
    }
}

/// Whether a Unit error poisons the Module.
pub fn poisons(error: &RunError) -> (r: bool)
    ensures
        r == poisons_module(*error),
{
    match error {
        RunError::Panic => true,
        RunError::Unit(f) => f.disposition == FailureDisposition::Fatal,
        _ => false,
    }
}

/// The capacity a dynamic run reports: the prepared capacity of the output
/// that overflowed, otherwise what the published Resources hold.
pub open spec fn dynamic_observed(result: Result<(), RunError>, stored: usize) -> usize {
    match result {
        Err(RunError::Capacity(e)) => e.prepared,
        Err(RunError::RuntimeOverflow { prepared, .. }) => prepared,
        _ => stored,
    }
}

/// The Module event of one dynamic run, given what the published
/// Resources hold and the run's Unit timings.
pub fn dynamic_run_event(
    result: &Result<(), RunError>,
    stored_capacity: usize,
    elapsed: core::time::Duration,
    timings: &UnitExecutionRecorder,
) -> (e: RunEvent)
    ensures
        e.kind == kind_of(*result),
        e.observed_capacity == dynamic_observed(*result, stored_capacity),
        e.elapsed == elapsed,
        e.timing_scope == TimingScope::ModuleExecution,
        e.timing_overhead.clock_reads as int == if 2 + 2 * (timings.spec_events().len() + timings.spec_dropped()) > 255 {
            255
        } else {
            2 + 2 * (timings.spec_events().len() + timings.spec_dropped())
        },
        e.timing_overhead.bounded_report_write_in_elapsed == (timings.spec_events().len() != 0),
{
    let observed_capacity = match result {
        Err(RunError::Capacity(error)) => error.prepared,
        Err(RunError::RuntimeOverflow { prepared, .. }) => *prepared,
        _ => stored_capacity,
    };
    RunEvent {
        kind: event_kind(result),
        observed_capacity,
        elapsed,
        timing_scope: TimingScope::ModuleExecution,
        timing_overhead: TimingOverhead {
            clock_reads: timings.module_clock_reads(),
            bounded_report_write_in_elapsed: timings.events().len() != 0,
        },
    }
}

/// Which Resources of a prepared runtime currently hold a readable
/// publication. Resources may share a runtime slot; a slot holds the
/// publication of the Resource that published into it last.
pub struct PublicationBook {
    resource_slots: Vec<usize>,
    published: Vec<bool>,
    owners: Vec<Option<usize>>,
}

impl PublicationBook {
    /// The slot of each Resource (`NO_RUNTIME_SLOT` for none).
    pub closed spec fn spec_slots(&self) -> Seq<usize> {
        self.resource_slots@
    }

    /// Number of runtime slots.
    pub closed spec fn spec_slot_count(&self) -> nat {
        self.owners@.len()
    }

    /// The Resources currently readable.
    pub closed spec fn readable(&self, r: int) -> bool {
        &&& 0 <= r < self.resource_slots@.len()
        &&& self.resource_slots@[r] != crate::runtime_plan::NO_RUNTIME_SLOT
        &&& self.published@[r]
        &&& self.owners@[self.resource_slots@[r] as int] == Some(r as usize)
    }

    pub closed spec fn wf(&self) -> bool {
        &&& self.published@.len() == self.resource_slots@.len()
        &&& forall|s: int|
            0 <= s < self.owners@.len() && (#[trigger] self.owners@[s]) is Some ==> self.owners@[s]->0 < self.resource_slots@.len()
                && self.resource_slots@[self.owners@[s]->0 as int] == s
        &&& forall|r: int|
            0 <= r < self.resource_slots@.len() ==> #[trigger] self.resource_slots@[r] == crate::runtime_plan::NO_RUNTIME_SLOT
                || self.resource_slots@[r] < self.owners@.len()
    }

    /// A book in which nothing is published.
    pub fn new(resource_slots: Vec<usize>, slot_count: usize) -> (r: Self)
        requires
            forall|i: int|
                0 <= i < resource_slots@.len() ==> #[trigger] resource_slots@[i] == crate::runtime_plan::NO_RUNTIME_SLOT
                    || resource_slots@[i] < slot_count,
        ensures
            r.wf(),
            r.spec_slots() == resource_slots@,
            r.spec_slot_count() == slot_count,
            forall|i: int| !r.readable(i),
    {
        let mut published: Vec<bool> = Vec::new();
        while published.len() < resource_slots.len()
            invariant
                published@.len() <= resource_slots@.len(),
                forall|i: int| 0 <= i < published@.len() ==> !(#[trigger] published@[i]),
            decreases resource_slots@.len() - published@.len(),
        {
            published.push(false);
        }
        let mut owners: Vec<Option<usize>> = Vec::new();
        while owners.len() < slot_count
            invariant
                owners@.len() <= slot_count,
                forall|t: int| 0 <= t < owners@.len() ==> (#[trigger] owners@[t]) is None,
            decreases slot_count - owners@.len(),
        {
            owners.push(None);
        }
        PublicationBook { resource_slots, published, owners }
    }

    /// Forgets every publication.
    pub fn invalidate(&mut self)
        requires
            old(self).wf(),
        ensures
            final(self).wf(),
            final(self).spec_slots() == old(self).spec_slots(),
            final(self).spec_slot_count() == old(self).spec_slot_count(),
            forall|i: int| !final(self).readable(i),
    {
        let n = self.published.len();
        let mut i: usize = 0;
        while i < n
            invariant
                i <= n,
                n == self.published@.len(),
                self.resource_slots@ == old(self).resource_slots@,
                self.owners@ == old(self).owners@,
                forall|t: int| 0 <= t < i ==> !(#[trigger] self.published@[t]),
            decreases n - i,
        {
            self.published.set(i, false);
            i = i + 1;
        }
    }

    /// Publishes Resource `resource` into its slot; the Resource that held
    /// the slot before is no longer readable.
    pub fn publish(&mut self, resource: usize)
        requires
            old(self).wf(),
            resource < old(self).spec_slots().len(),
            old(self).spec_slots()[resource as int] != crate::runtime_plan::NO_RUNTIME_SLOT,
        ensures
            final(self).wf(),
            publish_effect(*old(self), resource as int, *final(self)),
    {
        let slot = self.resource_slots[resource];
        match self.owners[slot] {
            Some(previous) => {
                if previous < self.published.len() {
                    self.published.set(previous, false);
                }
            },
            None => {},
        }
        self.owners.set(slot, Some(resource));
        self.published.set(resource, true);
        proof {
            assert forall|r: int| r != resource as int implies #[trigger] self.readable(r) == (old(self).readable(r)
                && old(self).spec_slots()[r] != old(self).spec_slots()[resource as int]) by {
                if 0 <= r < self.resource_slots@.len() && self.resource_slots@[r] != crate::runtime_plan::NO_RUNTIME_SLOT {
                    assert(self.resource_slots@[r] < self.owners@.len());
                }
            }
        }
    }

    /// Succeeds exactly when the Resource holds a readable publication.
    pub fn require_published(&self, resource: usize) -> (r: Result<(), RunError>)
        requires
            self.wf(),
            resource < self.spec_slots().len(),
        ensures
            r is Ok <==> self.readable(resource as int),
            r is Err ==> r matches Err(RunError::RuntimeBinding { .. }),
    {
        let slot = self.resource_slots[resource];
        if slot == crate::runtime_plan::NO_RUNTIME_SLOT {
            let mut message = String::new();
            push_str(&mut message, "Resource index ");
            push_decimal(&mut message, resource);
            push_str(&mut message, " has no runtime slot");
            return Err(RunError::RuntimeBinding { message });
        }
        let owner_matches = match self.owners[slot] {
            Some(owner) => owner == resource,
            None => false,
        };
        if self.published[resource] && owner_matches {
            Ok(())
        } else {
            let mut message = String::new();
            push_str(&mut message, "Resource index ");
            push_decimal(&mut message, resource);
            push_str(&mut message, " is unpublished");
            Err(RunError::RuntimeBinding { message })
        }
    }
}

/// `after` is `before` with Resource `resource` published: it is readable,
/// Resources sharing its slot are not, and every other Resource keeps its
/// state.
pub open spec fn publish_effect(before: PublicationBook, resource: int, after: PublicationBook) -> bool {
    &&& after.spec_slots() == before.spec_slots()
    &&& after.spec_slot_count() == before.spec_slot_count()
    &&& after.readable(resource)
    &&& forall|r: int|
        r != resource ==> #[trigger] after.readable(r) == (before.readable(r) && before.spec_slots()[r] != before.spec_slots()[resource])
}

/// A slot gives back only its latest publication: after `a` and then `b`
/// are published into the same slot, `b` is readable and `a` is not.
pub proof fn lemma_latest_publication_wins(
    b0: PublicationBook,
    b1: PublicationBook,
    b2: PublicationBook,
    a: int,
    b: int,
)
    requires
        publish_effect(b0, a, b1),
        publish_effect(b1, b, b2),
        a != b,
        b0.spec_slots()[a] == b0.spec_slots()[b],
    ensures
        b2.readable(b),
        !b2.readable(a),
{
}

/// Publishing one Resource leaves every Resource of another slot as it was.
pub proof fn lemma_publication_is_slot_local(b0: PublicationBook, b1: PublicationBook, a: int, r: int)
    requires
        publish_effect(b0, a, b1),
        r != a,
        b0.spec_slots()[r] != b0.spec_slots()[a],
    ensures
        b1.readable(r) == b0.readable(r),
{
}

} // verus!
