//! Prepared output storages with atomic group publication, the typed Unit
//! contract, and the prepared synthetic Module that runs one Unit.

use vstd::prelude::*;

use crate::options::{AllocationCapability, AllocationDomain, AllocationEvidence, AllocationGuarantee, AllocationOperations, BuildOptions, CapacityPolicy, RequirementStatus, strict_global_allocator_capability};
use crate::report::{AllocationDomainProbe, CapacityError, DiagnosticSink, FailureDisposition, PreparedModuleDescription, RunError, RunEvent, RunEventKind, RunReport, TimingOverhead, TimingScope, UnitExecutionRecorder, UnitFailure, event_kind, finish_probes, zero_duration};
use crate::storage::{ModuleInput, PreparedInputPlan};

verus! {

/// Scratch bytes prepared by the caller Module for one invocation.
pub struct UnitWorkspace<'a> {
    bytes: &'a mut Vec<u8>,
}

impl<'a> UnitWorkspace<'a> {
    pub closed spec fn size(&self) -> nat {
        (*self.bytes)@.len()
    }

    /// Workspace over caller-prepared scratch bytes.
    pub fn new(bytes: &'a mut Vec<u8>) -> (r: Self)
        ensures
            r.size() == old(bytes)@.len(),
    {
        UnitWorkspace { bytes }
    }

    pub fn len(&self) -> (r: usize)
        ensures
            r == self.size(),
    {
        self.bytes.len()
    }

    pub fn is_empty(&self) -> (r: bool)
        ensures
            r == (self.size() == 0),
    {
        self.bytes.len() == 0
    }

    /// The prepared bytes.
    pub closed spec fn spec_bytes(&self) -> Seq<u8> {
        (*self.bytes)@
    }

    /// The prepared bytes, lent for writing.
    pub fn bytes(&mut self) -> (r: &mut Vec<u8>)
        ensures
            r@ == old(self).spec_bytes(),
            final(self).spec_bytes() == final(r)@,
    {
        self.bytes
    }
}

/// Pending writers can only be validated as a complete group by the executor.
pub trait PendingOutputSet {
    /// Every writer of the group completed.
    spec fn spec_complete(&self) -> bool;

    fn validate_complete(&self) -> (r: Result<(), RunError>)
        ensures
            r is Ok <==> self.spec_complete(),
            r matches Err(e) ==> e is IncompleteOutput;
}

/// A prepared output set controls group publication: a run begins with
/// fresh writers, and only a complete group is visible afterwards.
pub trait OutputStorage {
    type Pending: PendingOutputSet;
    type View;

    /// Every pending writer of the group completed.
    spec fn complete(&self) -> bool;

    /// The writers of the current run.
    spec fn spec_pending(&self) -> Self::Pending;

    /// Elements currently held, pending or published.
    spec fn spec_observed(&self) -> usize;

    /// Drops the previous publication and opens empty writers.
    fn begin(&mut self)
        ensures
            final(self).spec_observed() == 0;

    /// The writers of the current run, lent to the Unit.
    fn pending(&mut self) -> (r: &mut Self::Pending)
        ensures
            *r == old(self).spec_pending(),
            final(self).spec_pending() == *final(r);

    /// Checks that the group is complete.
    fn validate_complete(&self) -> (r: Result<(), RunError>)
        ensures
            r is Ok <==> self.complete(),
            r matches Err(e) ==> e is IncompleteOutput;

    /// The group as a value: what `view` shows once it is complete.
    spec fn spec_view(&self) -> Self::View;

    /// The published group.
    fn view(&self) -> (r: &Self::View)
        requires
            self.complete(),
        ensures
            *r == self.spec_view();

    /// Drops every pending or published value.
    fn discard(&mut self)
        ensures
            final(self).spec_observed() == 0;

    /// Elements currently held.
    fn observed_capacity(&self) -> (r: usize)
        ensures
            r == self.spec_observed();

    /// Applies the Module's capacity policy to storage that grows; the held
    /// values and their publication stay as they are.
    fn set_capacity_policy(&mut self, policy: CapacityPolicy)
        ensures
            final(self).spec_observed() == old(self).spec_observed(),
            final(self).complete() == old(self).complete(),
            final(self).spec_view() == old(self).spec_view();
}

/// `n + 1`, saturating at `usize::MAX`.
pub open spec fn sat_succ(n: nat) -> usize {
    if n >= usize::MAX {
        usize::MAX
    } else {
        (n + 1) as usize
    }
}

/// Writer for one typed fixed value.
pub struct ValueWriter<T> {
    slot: Option<T>,
    resource: &'static str,
    written: bool,
}

impl<T> ValueWriter<T> {
    pub closed spec fn spec_written(&self) -> bool {
        self.written && self.slot is Some
    }

    pub closed spec fn spec_resource(&self) -> &'static str {
        self.resource
    }

    pub closed spec fn spec_empty(&self) -> bool {
        self.slot is None
    }

    /// The held value, if any.
    pub closed spec fn spec_slot(&self) -> Option<T> {
        self.slot
    }

    fn fresh(resource: &'static str) -> (r: Self)
        ensures
            !r.spec_written(),
            r.spec_empty(),
            r.spec_resource() == resource,
    {
        ValueWriter { slot: None, resource, written: false }
    }

    /// Stores the value of the current run.
    pub fn write(&mut self, value: T)
        ensures
            final(self).spec_written(),
            final(self).spec_slot() == Some(value),
            final(self).spec_resource() == old(self).spec_resource(),
    {
        self.slot = Some(value);
        self.written = true;
    }

    /// The held value.
    pub fn value(&self) -> (r: Option<&T>)
        ensures
            r is Some <==> !self.spec_empty(),
            r matches Some(v) ==> self.spec_slot() == Some(*v),
    {
        match &self.slot {
            Some(v) => Some(v),
            None => None,
        }
    }

    fn reset(&mut self)
        ensures
            !final(self).spec_written(),
            final(self).spec_empty(),
            final(self).spec_resource() == old(self).spec_resource(),
    {
        self.slot = None;
        self.written = false;
    }

    fn check(&self) -> (r: Result<(), RunError>)
        ensures
            r is Ok <==> self.spec_written(),
            r matches Err(e) ==> e == (RunError::IncompleteOutput { resource: self.spec_resource() }),
    {
        if self.written && self.slot.is_some() {
            Ok(())
        } else {
            Err(RunError::IncompleteOutput { resource: self.resource })
        }
    }

    fn get(&self) -> (r: &T)
        requires
            self.spec_written(),
        ensures
            Some(*r) == self.spec_slot(),
    {
        match &self.slot {
            Some(v) => v,
            None => vstd::pervasive::unreached(),
        }
    }
}

impl<T> PendingOutputSet for ValueWriter<T> {
    closed spec fn spec_complete(&self) -> bool {
        self.spec_written()
    }

    fn validate_complete(&self) -> (r: Result<(), RunError>)
        ensures
            r matches Err(e) ==> e == (RunError::IncompleteOutput { resource: self.spec_resource() }),
    {
        self.check()
    }
}

/// Prepared storage for a fixed typed value.
pub struct ValueStorage<T> {
    writer: ValueWriter<T>,
}

impl<T> ValueStorage<T> {
    /// Storage for the Resource named `resource`.
    pub fn new(resource: &'static str) -> (r: Self)
        ensures
            !r.complete(),
            r.writer().spec_empty(),
            r.writer().spec_resource() == resource,
    {
        ValueStorage { writer: ValueWriter::fresh(resource) }
    }

    pub closed spec fn writer(&self) -> ValueWriter<T> {
        self.writer
    }

    /// The writers lent for a run are this storage's writer.
    pub proof fn lemma_pending_is_writer(&self)
        ensures
            self.spec_pending() == self.writer(),
    {
    }

    /// The held value, published or pending.
    pub fn value(&self) -> (r: Option<&T>)
        ensures
            r is Some <==> !self.writer().spec_empty(),
            r matches Some(v) ==> self.writer().spec_slot() == Some(*v),
    {
        self.writer.value()
    }
}

impl<T> OutputStorage for ValueStorage<T> {
    type Pending = ValueWriter<T>;
    type View = T;

    closed spec fn complete(&self) -> bool {
        self.writer.spec_written()
    }

    closed spec fn spec_view(&self) -> T {
        self.writer.slot->0
    }

    closed spec fn spec_pending(&self) -> ValueWriter<T> {
        self.writer
    }

    closed spec fn spec_observed(&self) -> usize {
        if self.writer.slot is Some {
            1
        } else {
            0
        }
    }

    fn begin(&mut self)
        ensures
            final(self).writer().spec_empty(),
            !final(self).writer().spec_written(),
            final(self).writer().spec_resource() == old(self).writer().spec_resource(),
    {
        self.writer.reset();
    }

    fn pending(&mut self) -> (r: &mut ValueWriter<T>)
        ensures
            *r == old(self).writer(),
            final(self).writer() == *final(r),
    {
        &mut self.writer
    }

    fn validate_complete(&self) -> (r: Result<(), RunError>) {
        self.writer.check()
    }

    fn view(&self) -> &T {
        self.writer.get()
    }

    fn discard(&mut self)
        ensures
            final(self).writer().spec_empty(),
            !final(self).writer().spec_written(),
            final(self).writer().spec_resource() == old(self).writer().spec_resource(),
    {
        self.writer.reset();
    }

    fn observed_capacity(&self) -> (r: usize) {
        if self.writer.value().is_some() {
            1
        } else {
            0
        }
    }

    fn set_capacity_policy(&mut self, policy: CapacityPolicy)
        ensures
            *final(self) == *old(self),
    {
    }
}

/// Writers of an atomic pair of independently typed values.
pub struct PairWriter<A, B> {
    pub first: ValueWriter<A>,
    pub second: ValueWriter<B>,
}

impl<A, B> PendingOutputSet for PairWriter<A, B> {
    closed spec fn spec_complete(&self) -> bool {
        self.first.spec_written() && self.second.spec_written()
    }

    fn validate_complete(&self) -> (r: Result<(), RunError>)
        ensures
            r matches Err(e) ==> e == (RunError::IncompleteOutput {
                resource: if self.first.spec_written() {
                    self.second.spec_resource()
                } else {
                    self.first.spec_resource()
                },
            }),
    {
        match self.first.check() {
            Ok(()) => self.second.check(),
            Err(e) => Err(e),
        }
    }
}

/// One atomic pending group containing two independently typed values.
pub struct PairStorage<A, B> {
    writer: PairWriter<A, B>,
}

impl<A, B> PairStorage<A, B> {
    pub fn new(first: &'static str, second: &'static str) -> (r: Self)
        ensures
            !r.complete(),
            r.first_writer().spec_empty() && r.first_writer().spec_resource() == first,
            r.second_writer().spec_empty() && r.second_writer().spec_resource() == second,
    {
        PairStorage { writer: PairWriter { first: ValueWriter::fresh(first), second: ValueWriter::fresh(second) } }
    }

    pub closed spec fn first_writer(&self) -> ValueWriter<A> {
        self.writer.first
    }

    pub closed spec fn second_writer(&self) -> ValueWriter<B> {
        self.writer.second
    }

    /// The writers lent for a run are this storage's two writers.
    pub proof fn lemma_pending_is_writer(&self)
        ensures
            self.spec_pending().first == self.first_writer(),
            self.spec_pending().second == self.second_writer(),
    {
    }

    /// The first held value.
    pub fn first(&self) -> (r: Option<&A>)
        ensures
            r is Some <==> !self.first_writer().spec_empty(),
            r matches Some(v) ==> self.first_writer().spec_slot() == Some(*v),
    {
        self.writer.first.value()
    }

    /// The second held value.
    pub fn second(&self) -> (r: Option<&B>)
        ensures
            r is Some <==> !self.second_writer().spec_empty(),
            r matches Some(v) ==> self.second_writer().spec_slot() == Some(*v),
    {
        self.writer.second.value()
    }
}

impl<A, B> OutputStorage for PairStorage<A, B> {
    type Pending = PairWriter<A, B>;
    type View = PairStorage<A, B>;

    closed spec fn complete(&self) -> bool {
        self.writer.first.spec_written() && self.writer.second.spec_written()
    }

    closed spec fn spec_view(&self) -> PairStorage<A, B> {
        *self
    }

    closed spec fn spec_pending(&self) -> PairWriter<A, B> {
        self.writer
    }

    closed spec fn spec_observed(&self) -> usize {
        ((if self.writer.first.slot is Some {
            1int
        } else {
            0int
        }) + (if self.writer.second.slot is Some {
            1int
        } else {
            0int
        })) as usize
    }

    fn begin(&mut self)
        ensures
            final(self).first_writer().spec_empty() && !final(self).first_writer().spec_written(),
            final(self).second_writer().spec_empty() && !final(self).second_writer().spec_written(),
            final(self).first_writer().spec_resource() == old(self).first_writer().spec_resource(),
            final(self).second_writer().spec_resource() == old(self).second_writer().spec_resource(),
    {
        self.writer.first.reset();
        self.writer.second.reset();
    }

    fn pending(&mut self) -> (r: &mut PairWriter<A, B>)
        ensures
            r.first == old(self).first_writer() && r.second == old(self).second_writer(),
            final(self).first_writer() == final(r).first && final(self).second_writer() == final(r).second,
    {
        &mut self.writer
    }

    fn validate_complete(&self) -> (r: Result<(), RunError>) {
        match self.writer.first.check() {
            Ok(()) => self.writer.second.check(),
            Err(e) => Err(e),
        }
    }

    fn view(&self) -> &PairStorage<A, B> {
        self
    }

    fn discard(&mut self)
        ensures
            final(self).first_writer().spec_empty() && !final(self).first_writer().spec_written(),
            final(self).second_writer().spec_empty() && !final(self).second_writer().spec_written(),
            final(self).first_writer().spec_resource() == old(self).first_writer().spec_resource(),
            final(self).second_writer().spec_resource() == old(self).second_writer().spec_resource(),
    {
        self.writer.first.reset();
        self.writer.second.reset();
    }

    fn observed_capacity(&self) -> (r: usize) {
        let a: usize = if self.writer.first.value().is_some() { 1 } else { 0 };
        let b: usize = if self.writer.second.value().is_some() { 1 } else { 0 };
        a + b
    }

    fn set_capacity_policy(&mut self, policy: CapacityPolicy)
        ensures
            *final(self) == *old(self),
    {
    }
}

/// Fallible writer over a framework-prepared bounded buffer.
pub struct BoundedBufferWriter<T> {
    values: Vec<T>,
    resource: &'static str,
    prepared: usize,
    completed: bool,
    policy: CapacityPolicy,
}

impl<T> BoundedBufferWriter<T> {
    pub closed spec fn spec_values(&self) -> Seq<T> {
        self.values@
    }

    pub closed spec fn spec_completed(&self) -> bool {
        self.completed
    }

    pub closed spec fn spec_prepared(&self) -> usize {
        self.prepared
    }

    pub closed spec fn spec_policy(&self) -> CapacityPolicy {
        self.policy
    }

    pub closed spec fn spec_resource(&self) -> &'static str {
        self.resource
    }

    /// Appends a value. Under `RejectOverflow` a full buffer refuses the
    /// value and reports the capacity it would need; otherwise it grows.
    pub fn try_push(&mut self, value: T) -> (r: Result<(), CapacityError>)
        ensures
            r is Err <==> old(self).spec_values().len() == old(self).spec_prepared()
                && old(self).spec_policy() == CapacityPolicy::RejectOverflow,
            r is Ok ==> final(self).spec_values() == old(self).spec_values().push(value),
            r is Err ==> final(self).spec_values() == old(self).spec_values(),
            r matches Err(e) ==> e == (CapacityError {
                resource: old(self).spec_resource(),
                required: sat_succ(old(self).spec_values().len()),
                prepared: old(self).spec_prepared(),
                policy: old(self).spec_policy(),
            }),
            final(self).spec_completed() == old(self).spec_completed(),
            final(self).spec_prepared() == old(self).spec_prepared(),
            final(self).spec_policy() == old(self).spec_policy(),
            final(self).spec_resource() == old(self).spec_resource(),
    {
        if self.values.len() == self.prepared && self.policy == CapacityPolicy::RejectOverflow {
            return Err(CapacityError {
                resource: self.resource,
                required: self.values.len().saturating_add(1),
                prepared: self.prepared,
                policy: self.policy,
            });
        }
        self.values.push(value);
        Ok(())
    }

    /// Marks the buffer complete.
    pub fn complete(&mut self)
        ensures
            final(self).spec_completed(),
            final(self).spec_values() == old(self).spec_values(),
            final(self).spec_prepared() == old(self).spec_prepared(),
            final(self).spec_policy() == old(self).spec_policy(),
            final(self).spec_resource() == old(self).spec_resource(),
    {
        self.completed = true;
    }

    /// Values written so far.
    pub fn len(&self) -> (r: usize)
        ensures
            r == self.spec_values().len(),
    {
        self.values.len()
    }

    fn check(&self) -> (r: Result<(), RunError>)
        ensures
            r is Ok <==> self.spec_completed(),
            r matches Err(e) ==> e == (RunError::IncompleteOutput { resource: self.spec_resource() }),
    {
        if self.completed {
            Ok(())
        } else {
            Err(RunError::IncompleteOutput { resource: self.resource })
        }
    }
}

impl<T> PendingOutputSet for BoundedBufferWriter<T> {
    closed spec fn spec_complete(&self) -> bool {
        self.spec_completed()
    }

    fn validate_complete(&self) -> (r: Result<(), RunError>)
        ensures
            r matches Err(e) ==> e == (RunError::IncompleteOutput { resource: self.spec_resource() }),
    {
        self.check()
    }
}

/// Prepared storage whose capacity never grows under `RejectOverflow`.
pub struct BoundedStorage<T> {
    writer: BoundedBufferWriter<T>,
}

impl<T> BoundedStorage<T> {
    /// Storage for up to `capacity` elements of the Resource `resource`.
    pub fn new(resource: &'static str, capacity: usize) -> (r: Self)
        ensures
            !r.complete(),
            r.writer().spec_prepared() == capacity,
            r.writer().spec_policy() == CapacityPolicy::RejectOverflow,
            r.writer().spec_values().len() == 0,
            !r.writer().spec_completed(),
            r.writer().spec_resource() == resource,
    {
        BoundedStorage {
            writer: BoundedBufferWriter {
                values: Vec::with_capacity(capacity),
                resource,
                prepared: capacity,
                completed: false,
                policy: CapacityPolicy::RejectOverflow,
            },
        }
    }

    pub closed spec fn writer(&self) -> BoundedBufferWriter<T> {
        self.writer
    }

    /// The writers lent for a run are this storage's writer.
    pub proof fn lemma_pending_is_writer(&self)
        ensures
            self.spec_pending() == self.writer(),
    {
    }

    /// The held values, published or pending.
    pub fn values(&self) -> (r: &Vec<T>)
        ensures
            r@ == self.writer().spec_values(),
    {
        &self.writer.values
    }
}

impl<T> OutputStorage for BoundedStorage<T> {
    type Pending = BoundedBufferWriter<T>;
    type View = Vec<T>;

    closed spec fn spec_view(&self) -> Vec<T> {
        self.writer.values
    }

    closed spec fn complete(&self) -> bool {
        self.writer().spec_completed()
    }

    closed spec fn spec_pending(&self) -> BoundedBufferWriter<T> {
        self.writer
    }

    closed spec fn spec_observed(&self) -> usize {
        self.writer.values.len()
    }

    fn begin(&mut self)
        ensures
            final(self).writer().spec_values().len() == 0,
            !final(self).writer().spec_completed(),
            final(self).writer().spec_prepared() == old(self).writer().spec_prepared(),
            final(self).writer().spec_policy() == old(self).writer().spec_policy(),
            final(self).writer().spec_resource() == old(self).writer().spec_resource(),
    {
        self.writer.values.clear();
        self.writer.completed = false;
    }

    fn pending(&mut self) -> (r: &mut BoundedBufferWriter<T>)
        ensures
            *r == old(self).writer(),
            final(self).writer() == *final(r),
    {
        &mut self.writer
    }

    fn validate_complete(&self) -> (r: Result<(), RunError>) {
        self.writer.check()
    }

    fn view(&self) -> &Vec<T> {
        &self.writer.values
    }

    fn discard(&mut self)
        ensures
            final(self).writer().spec_values().len() == 0,
            !final(self).writer().spec_completed(),
            final(self).writer().spec_prepared() == old(self).writer().spec_prepared(),
            final(self).writer().spec_policy() == old(self).writer().spec_policy(),
            final(self).writer().spec_resource() == old(self).writer().spec_resource(),
    {
        self.writer.values.clear();
        self.writer.completed = false;
    }

    fn observed_capacity(&self) -> (r: usize) {
        self.writer.values.len()
    }

    fn set_capacity_policy(&mut self, policy: CapacityPolicy)
        ensures
            final(self).writer().spec_policy() == policy,
            final(self).writer().spec_values() == old(self).writer().spec_values(),
            final(self).writer().spec_completed() == old(self).writer().spec_completed(),
            final(self).writer().spec_prepared() == old(self).writer().spec_prepared(),
            final(self).writer().spec_resource() == old(self).writer().spec_resource(),
    {
        self.writer.policy = policy;
    }
}

/// Writer of a prepared fixed-length buffer.
pub struct FixedBufferWriter<T> {
    values: Vec<T>,
    resource: &'static str,
    required: usize,
}

impl<T> FixedBufferWriter<T> {
    pub closed spec fn spec_values(&self) -> Seq<T> {
        self.values@
    }

    pub closed spec fn spec_required(&self) -> usize {
        self.required
    }

    pub closed spec fn spec_resource(&self) -> &'static str {
        self.resource
    }

    /// Appends a value; a buffer already at its length refuses it.
    pub fn try_push(&mut self, value: T) -> (r: Result<(), CapacityError>)
        ensures
            r is Err <==> old(self).spec_values().len() == old(self).spec_required(),
            r is Ok ==> final(self).spec_values() == old(self).spec_values().push(value),
            r is Err ==> final(self).spec_values() == old(self).spec_values(),
            r matches Err(e) ==> e == (CapacityError {
                resource: old(self).spec_resource(),
                required: sat_succ(old(self).spec_values().len()),
                prepared: old(self).spec_required(),
                policy: CapacityPolicy::RejectOverflow,
            }),
            final(self).spec_required() == old(self).spec_required(),
            final(self).spec_resource() == old(self).spec_resource(),
    {
        if self.values.len() == self.required {
            return Err(CapacityError {
                resource: self.resource,
                required: self.values.len().saturating_add(1),
                prepared: self.required,
                policy: CapacityPolicy::RejectOverflow,
            });
        }
        self.values.push(value);
        Ok(())
    }

    fn check(&self) -> (r: Result<(), RunError>)
        ensures
            r is Ok <==> self.spec_values().len() == self.spec_required(),
            r matches Err(e) ==> e == (RunError::IncompleteOutput { resource: self.spec_resource() }),
    {
        if self.values.len() == self.required {
            Ok(())
        } else {
            Err(RunError::IncompleteOutput { resource: self.resource })
        }
    }
}

impl<T> PendingOutputSet for FixedBufferWriter<T> {
    closed spec fn spec_complete(&self) -> bool {
        self.spec_values().len() == self.spec_required()
    }

    fn validate_complete(&self) -> (r: Result<(), RunError>)
        ensures
            r matches Err(e) ==> e == (RunError::IncompleteOutput { resource: self.spec_resource() }),
    {
        self.check()
    }
}

/// Prepared fixed-length typed buffer; only initialized elements are held.
pub struct FixedBufferStorage<T> {
    writer: FixedBufferWriter<T>,
}

impl<T> FixedBufferStorage<T> {
    /// Storage for exactly `length` elements of the Resource `resource`.
    pub fn new(resource: &'static str, length: usize) -> (r: Self)
        ensures
            r.writer().spec_required() == length,
            r.writer().spec_values().len() == 0,
            r.writer().spec_resource() == resource,
    {
        FixedBufferStorage { writer: FixedBufferWriter { values: Vec::with_capacity(length), resource, required: length } }
    }

    pub closed spec fn writer(&self) -> FixedBufferWriter<T> {
        self.writer
    }

    /// The writers lent for a run are this storage's writer.
    pub proof fn lemma_pending_is_writer(&self)
        ensures
            self.spec_pending() == self.writer(),
    {
    }

    /// The held values.
    pub fn values(&self) -> (r: &Vec<T>)
        ensures
            r@ == self.writer().spec_values(),
    {
        &self.writer.values
    }
}

impl<T> OutputStorage for FixedBufferStorage<T> {
    type Pending = FixedBufferWriter<T>;
    type View = Vec<T>;

    closed spec fn spec_view(&self) -> Vec<T> {
        self.writer.values
    }

    closed spec fn complete(&self) -> bool {
        self.writer().spec_values().len() == self.writer().spec_required()
    }

    closed spec fn spec_pending(&self) -> FixedBufferWriter<T> {
        self.writer
    }

    closed spec fn spec_observed(&self) -> usize {
        self.writer.values.len()
    }

    fn begin(&mut self)
        ensures
            final(self).writer().spec_values().len() == 0,
            final(self).writer().spec_required() == old(self).writer().spec_required(),
            final(self).writer().spec_resource() == old(self).writer().spec_resource(),
    {
        self.writer.values.clear();
    }

    fn pending(&mut self) -> (r: &mut FixedBufferWriter<T>)
        ensures
            *r == old(self).writer(),
            final(self).writer() == *final(r),
    {
        &mut self.writer
    }

    fn validate_complete(&self) -> (r: Result<(), RunError>) {
        self.writer.check()
    }

    fn view(&self) -> &Vec<T> {
        &self.writer.values
    }

    fn discard(&mut self)
        ensures
            final(self).writer().spec_values().len() == 0,
            final(self).writer().spec_required() == old(self).writer().spec_required(),
            final(self).writer().spec_resource() == old(self).writer().spec_resource(),
    {
        self.writer.values.clear();
    }

    fn observed_capacity(&self) -> (r: usize) {
        self.writer.values.len()
    }

    fn set_capacity_policy(&mut self, policy: CapacityPolicy)
        ensures
            *final(self) == *old(self),
    {
    }
}


/// Typed Unit contract; inputs and output writers require no Resource lookup.
pub trait Unit {
    type Input;
    type Storage: OutputStorage;

    fn workspace_requirement(&self) -> usize;

    fn output_storage(&self) -> Self::Storage;

    fn allocation_capability(&self) -> AllocationCapability;

    fn requirement_status(&self) -> (r: RequirementStatus)
        default_ensures
            r == RequirementStatus::Bounded,
    {
        RequirementStatus::Bounded
    }

    /// Validates host inputs before storage reset or Unit business logic;
    /// by default every input is accepted.
    fn validate_input(&self, input: &Self::Input) -> (r: Result<(), RunError>)
        default_ensures
            r is Ok,
    {
        Ok(())
    }

    fn run(
        &mut self,
        input: &Self::Input,
        outputs: &mut <Self::Storage as OutputStorage>::Pending,
        workspace: UnitWorkspace<'_>,
    ) -> Result<(), RunError>;

    /// Runs with a framework-owned recorder for declared internal Unit
    /// boundaries. Atomic Units use the default implementation.
    fn run_with_unit_timing(
        &mut self,
        input: &Self::Input,
        outputs: &mut <Self::Storage as OutputStorage>::Pending,
        workspace: UnitWorkspace<'_>,
        recorder: &mut UnitExecutionRecorder,
    ) -> Result<(), RunError> {
        self.run(input, outputs, workspace)
    }
}

#[derive(Clone, Debug, PartialEq, Eq)]
pub enum BuildError {
    StrictCapabilityUnavailable(AllocationCapability),
    StrictRequirementUnavailable(RequirementStatus),
    MissingConfiguration { unit: crate::ids::UnitId },
    Factory(crate::resolve::FactoryError),
    RuntimePreparation { message: String },
    StoragePlanning(crate::storage::PlanningError),
}

/// A strict claim is available for this requirement status.
pub open spec fn status_allows_strict(status: RequirementStatus) -> bool {
    status == RequirementStatus::Fixed || status == RequirementStatus::Bounded
}

/// What the strict-claim check of a build answers: a no-allocation claim
/// needs a finite requirement status, and then a strict-capable
/// declaration; the capability passes through when the claim holds.
pub open spec fn strict_claim(
    options: BuildOptions,
    status: RequirementStatus,
    capability: AllocationCapability,
) -> Result<AllocationCapability, BuildError> {
    if options.guarantee() == AllocationGuarantee::NoRunAllocation && !status_allows_strict(status) {
        Err(BuildError::StrictRequirementUnavailable(status))
    } else if options.guarantee() == AllocationGuarantee::NoRunAllocation && !capability.spec_strict_capable() {
        Err(BuildError::StrictCapabilityUnavailable(capability))
    } else {
        Ok(capability)
    }
}

/// Checks a build's strict claim against the Unit's requirement status and
/// allocation capability.
pub fn check_strict_claim(
    options: BuildOptions,
    status: RequirementStatus,
    capability: AllocationCapability,
) -> (r: Result<AllocationCapability, BuildError>)
    ensures
        r == strict_claim(options, status, capability),
{
    let strict = options.allocation_guarantee() == AllocationGuarantee::NoRunAllocation;
    if strict && (status == RequirementStatus::Dynamic || status == RequirementStatus::Unresolved) {
        return Err(BuildError::StrictRequirementUnavailable(status));
    }
    if strict && !capability.strict_capable() {
        return Err(BuildError::StrictCapabilityUnavailable(capability));
    }
    Ok(capability)
}

/// A run ending this way may have been the one that poisoned the Module:
/// a fatal Unit failure, a panic the Unit reported, or an allocation
/// violation observed after either.
pub open spec fn poisoning<T>(r: Result<T, RunError>) -> bool {
    match r {
        Err(RunError::Unit(f)) => f.disposition == FailureDisposition::Fatal,
        Err(RunError::Panic) => true,
        Err(RunError::AllocationProfileViolation { .. }) => true,
        _ => false,
    }
}

/// Some probe reported the domain `name`.
pub open spec fn is_probed(domains: Seq<String>, name: Seq<char>) -> bool {
    exists|k: int| 0 <= k < domains.len() && (#[trigger] domains[k])@ == name
}

/// `name` is a declared instrumented domain.
pub open spec fn is_instrumented(declared: Seq<AllocationDomain>, name: Seq<char>) -> bool {
    exists|k: int|
        0 <= k < declared.len() && (#[trigger] declared[k]).evidence is Instrumented && declared[k].name@ == name
}

/// Declared domain `k` is instrumented, probes are required, and no probe
/// reported it.
pub open spec fn unprobed(declared: Seq<AllocationDomain>, domains: Seq<String>, require: bool, k: int) -> bool {
    &&& require
    &&& declared[k].evidence is Instrumented
    &&& !is_probed(domains, declared[k].name@)
}

/// The probes reporting `domains` fit the declaration: every required
/// instrumented domain is probed and every probe observes one.
pub open spec fn declarations_fit(declared: Seq<AllocationDomain>, domains: Seq<String>, require: bool) -> bool {
    &&& forall|k: int| 0 <= k < declared.len() ==> !#[trigger] unprobed(declared, domains, require, k)
    &&& forall|j: int| 0 <= j < domains.len() ==> is_instrumented(declared, (#[trigger] domains[j])@)
}

/// The violation a probe check reports for `domains`: the first required
/// instrumented domain without a probe, else the first probe of an
/// undeclared domain; no operations.
pub open spec fn declaration_violation(declared: Seq<AllocationDomain>, domains: Seq<String>, require: bool, e: RunError) -> bool {
    &&& e is AllocationProfileViolation
    &&& e->AllocationProfileViolation_operations == crate::report::no_operations()
    &&& if exists|k: int| 0 <= k < declared.len() && #[trigger] unprobed(declared, domains, require, k) {
        exists|k: int|
            0 <= k < declared.len() && #[trigger] unprobed(declared, domains, require, k) && (forall|i: int|
                0 <= i < k ==> !#[trigger] unprobed(declared, domains, require, i))
                && e->AllocationProfileViolation_domain@ == declared[k].name@
    } else {
        exists|j: int|
            0 <= j < domains.len() && !is_instrumented(declared, (#[trigger] domains[j])@) && (forall|i: int|
                0 <= i < j ==> is_instrumented(declared, (#[trigger] domains[i])@))
                && e->AllocationProfileViolation_domain@ == domains[j]@
    }
}

/// Whether some reported domain is `name`.
fn probed(domains: &Vec<String>, name: &str) -> (r: bool)
    ensures
        r == is_probed(domains@, name@),
{
    let mut k: usize = 0;
    while k < domains.len()
        invariant
            k <= domains@.len(),
            forall|t: int| 0 <= t < k ==> (#[trigger] domains@[t])@ != name@,
        decreases domains@.len() - k,
    {
        if crate::text::text_eq(domains[k].as_str(), name) {
            return true;
        }
        k = k + 1;
    }
    false
}

/// Whether `name` is a declared instrumented domain.
fn instrumented(capability: &AllocationCapability, name: &str) -> (r: bool)
    ensures
        r == is_instrumented(capability.spec_domains(), name@),
{
    let domains = capability.domains();
    let mut k: usize = 0;
    while k < domains.len()
        invariant
            k <= domains@.len(),
            domains@ == capability.spec_domains(),
            forall|t: int| 0 <= t < k ==> !((#[trigger] domains@[t]).evidence is Instrumented && domains@[t].name@ == name@),
        decreases domains@.len() - k,
    {
        let is_instrumented = match domains[k].evidence {
            AllocationEvidence::Instrumented => true,
            _ => false,
        };
        if is_instrumented && crate::text::text_eq(domains[k].name.as_str(), name) {
            return true;
        }
        k = k + 1;
    }
    false
}

/// The domain each probe reports, in probe order.
fn probe_domains(probes: &[&mut dyn AllocationDomainProbe]) -> (r: Vec<String>)
    ensures
        r@.len() == probes@.len(),
{
    let mut out: Vec<String> = Vec::new();
    let mut k: usize = 0;
    while k < probes.len()
        invariant
            k <= probes@.len(),
            out@.len() == k,
        decreases probes@.len() - k,
    {
        out.push(probes[k].domain().to_owned());
        k = k + 1;
    }
    out
}

/// Reported probe domains against the declared allocation domains: when
/// `require_probes`, every instrumented domain needs a probe, and every
/// probe must observe a declared instrumented domain.
pub fn check_declared_domains(capability: &AllocationCapability, domains: &Vec<String>, require_probes: bool) -> (r: Result<(), RunError>)
    ensures
        r is Ok <==> declarations_fit(capability.spec_domains(), domains@, require_probes),
        r matches Err(e) ==> declaration_violation(capability.spec_domains(), domains@, require_probes, e),
{
    let declared = capability.domains();
    let ghost d = capability.spec_domains();
    let mut k: usize = 0;
    while k < declared.len()
        invariant
            k <= declared@.len(),
            declared@ == d,
            d == capability.spec_domains(),
            forall|i: int| 0 <= i < k ==> !#[trigger] unprobed(d, domains@, require_probes, i),
        decreases declared@.len() - k,
    {
        let is_instrumented = match declared[k].evidence {
            AllocationEvidence::Instrumented => true,
            _ => false,
        };
        if is_instrumented && require_probes && !probed(domains, declared[k].name.as_str()) {
            let e = RunError::AllocationProfileViolation {
                domain: declared[k].name.clone(),
                operations: AllocationOperations { allocations: 0, reallocations: 0, deallocations: 0 },
            };
            proof {
                assert(unprobed(d, domains@, require_probes, k as int));
            }
            return Err(e);
        }
        k = k + 1;
    }
    let mut j: usize = 0;
    while j < domains.len()
        invariant
            j <= domains@.len(),
            declared@ == d,
            d == capability.spec_domains(),
            forall|i: int| 0 <= i < declared@.len() ==> !#[trigger] unprobed(d, domains@, require_probes, i),
            forall|i: int| 0 <= i < j ==> is_instrumented(d, (#[trigger] domains@[i])@),
        decreases domains@.len() - j,
    {
        let name = domains[j].as_str();
        let known = instrumented(capability, name);
        proof {
            assert(name@ == domains@[j as int]@);
            assert(known == is_instrumented(d, domains@[j as int]@));
        }
        if !known {
            let e = RunError::AllocationProfileViolation {
                domain: domains[j].clone(),
                operations: AllocationOperations { allocations: 0, reallocations: 0, deallocations: 0 },
            };
            proof {
                assert(!is_instrumented(d, domains@[j as int]@));
            }
            return Err(e);
        }
        j = j + 1;
    }
    Ok(())
}

/// A profiled run's probes against the declared allocation domains, by the
/// domains the probes report (see `check_declared_domains`).
pub fn check_probe_declarations(
    capability: &AllocationCapability,
    probes: &[&mut dyn AllocationDomainProbe],
    require_probes: bool,
) -> (r: Result<(), RunError>)
    ensures
        exists|domains: Seq<String>|
            #![trigger declarations_fit(capability.spec_domains(), domains, require_probes)]
            domains.len() == probes@.len() && (r is Ok <==> declarations_fit(capability.spec_domains(), domains, require_probes))
                && (r matches Err(e) ==> declaration_violation(capability.spec_domains(), domains, require_probes, e)),
{
    let domains = probe_domains(probes);
    let r = check_declared_domains(capability, &domains, require_probes);
    proof {
        assert(declarations_fit(capability.spec_domains(), domains@, require_probes) == (r is Ok));
    }
    r
}

/// Two reported domains `a < b` are the same.
pub open spec fn repeats_earlier(domains: Seq<String>, b: int) -> bool {
    exists|a: int| 0 <= a < b && (#[trigger] domains[a])@ == domains[b]@
}

/// No reported domain repeats an earlier one.
pub open spec fn domains_unique(domains: Seq<String>) -> bool {
    forall|b: int| 0 <= b < domains.len() ==> !#[trigger] repeats_earlier(domains, b)
}

/// Rejects two probes reporting the same domain, naming the first probe
/// that repeats an earlier one.
pub fn check_unique_domains(domains: &Vec<String>) -> (r: Result<(), RunError>)
    ensures
        r is Ok <==> domains_unique(domains@),
        r matches Err(e) ==> exists|b: int|
            0 <= b < domains@.len() && #[trigger] repeats_earlier(domains@, b) && (forall|c: int|
                0 <= c < b ==> !#[trigger] repeats_earlier(domains@, c)) && e is AllocationProfileViolation
                && e->AllocationProfileViolation_domain@ == domains@[b]@ && e->AllocationProfileViolation_operations
                == crate::report::no_operations(),
{
    let mut k: usize = 0;
    while k < domains.len()
        invariant
            k <= domains@.len(),
            forall|c: int| 0 <= c < k ==> !#[trigger] repeats_earlier(domains@, c),
        decreases domains@.len() - k,
    {
        let mut j: usize = 0;
        while j < k
            invariant
                j <= k < domains@.len(),
                forall|c: int| 0 <= c < k ==> !#[trigger] repeats_earlier(domains@, c),
                forall|a: int| 0 <= a < j ==> (#[trigger] domains@[a])@ != domains@[k as int]@,
            decreases k - j,
        {
            if crate::text::text_eq(domains[j].as_str(), domains[k].as_str()) {
                let e = RunError::AllocationProfileViolation {
                    domain: domains[k].clone(),
                    operations: AllocationOperations { allocations: 0, reallocations: 0, deallocations: 0 },
                };
                proof {
                    assert(domains@[j as int]@ == domains@[k as int]@);
                    assert(repeats_earlier(domains@, k as int));
                    assert(e->AllocationProfileViolation_domain@ == domains@[k as int]@);
                    assert(e->AllocationProfileViolation_operations == crate::report::no_operations());
                }
                return Err(e);
            }
            j = j + 1;
        }
        k = k + 1;
    }
    Ok(())
}

/// Rejects two probes of the same domain, naming the later one, by the
/// domains the probes report (see `check_unique_domains`); fewer than two
/// probes always pass.
pub fn check_probe_uniqueness(probes: &[&mut dyn AllocationDomainProbe]) -> (r: Result<(), RunError>)
    ensures
        probes@.len() <= 1 ==> r is Ok,
        exists|domains: Seq<String>| domains.len() == probes@.len() && (r is Ok <==> #[trigger] domains_unique(domains)),
        r matches Err(e) ==> e matches RunError::AllocationProfileViolation { operations, .. } && operations
            == (AllocationOperations { allocations: 0, reallocations: 0, deallocations: 0 }),
{
    let domains = probe_domains(probes);
    let r = check_unique_domains(&domains);
    proof {
        if probes@.len() <= 1 {
            assert forall|b: int| 0 <= b < domains@.len() implies !#[trigger] repeats_earlier(domains@, b) by {
                assert(b == 0);
            }
        }
        assert(domains_unique(domains@) == (r is Ok));
    }
    r
}

/// What a run answers once the Unit answered `unit`: the Unit's own error,
/// else what the group check answered.
pub open spec fn settled(unit: Result<(), RunError>, group: Result<(), RunError>) -> Result<(), RunError> {
    match unit {
        Err(e) => Err(e),
        Ok(()) => group,
    }
}

/// A Unit answer that poisons the Module: a fatal failure or a panic the
/// Unit reported.
pub open spec fn unit_poisons(unit: Result<(), RunError>) -> bool {
    match unit {
        Err(e) => crate::runtime::poisons_module(e),
        Ok(()) => false,
    }
}

/// What a run answers: the allocation violation a probe observed, else the
/// settled answer.
pub open spec fn run_answer(
    unit: Result<(), RunError>,
    group: Result<(), RunError>,
    violation: Option<(String, AllocationOperations)>,
) -> Result<(), RunError> {
    match violation {
        Some(v) => Err(RunError::AllocationProfileViolation { domain: v.0, operations: v.1 }),
        None => settled(unit, group),
    }
}

/// Settles a Unit's answer: the run's answer and whether it poisons the
/// Module.
pub fn settle_run(unit: Result<(), RunError>, group: Result<(), RunError>) -> (r: (Result<(), RunError>, bool))
    ensures
        r.0 == settled(unit, group),
        r.1 == unit_poisons(unit),
{
    match unit {
        Err(e) => {
            let poisons = crate::runtime::poisons(&e);
            (Err(e), poisons)
        },
        Ok(()) => (group, false),
    }
}

/// Prepared synthetic Module with host-owned lifecycle.
pub struct CompositeModule<U: Unit> {
    unit: U,
    storage: U::Storage,
    workspace: Vec<u8>,
    poisoned: bool,
    options: BuildOptions,
    description: PreparedModuleDescription,
    report: RunReport,
    reporting_enabled: bool,
}

impl<U: Unit> CompositeModule<U> {
    pub closed spec fn spec_poisoned(&self) -> bool {
        self.poisoned
    }

    pub closed spec fn spec_report(&self) -> RunReport {
        self.report
    }

    pub closed spec fn spec_reporting(&self) -> bool {
        self.reporting_enabled
    }

    pub closed spec fn spec_options(&self) -> BuildOptions {
        self.options
    }

    pub closed spec fn spec_description(&self) -> PreparedModuleDescription {
        self.description
    }

    pub closed spec fn spec_storage(&self) -> U::Storage {
        self.storage
    }

    /// Prepares the Unit: a no-allocation claim needs a finite requirement
    /// and a strict-capable allocation declaration.
    pub fn build(unit: U, options: BuildOptions) -> (r: Result<Self, BuildError>)
        ensures
            r matches Ok(m) ==> !m.spec_poisoned() && m.spec_reporting() && m.spec_report().is_empty_report()
                && m.spec_options() == options && m.spec_description().options == options
                && !m.spec_description().warm_up_is_measured
                && m.spec_unit() == unit
                && (options.guarantee() == AllocationGuarantee::NoRunAllocation ==> status_allows_strict(
                    m.spec_description().requirement_status,
                ) && m.spec_description().allocation_capability.spec_strict_capable()),
            exists|status: RequirementStatus, capability: AllocationCapability|
                #[trigger] strict_claim(options, status, capability) == match r {
                    Ok(m) => Ok::<AllocationCapability, BuildError>(m.spec_description().allocation_capability),
                    Err(e) => Err(e),
                } && (r matches Ok(m) ==> m.spec_description().requirement_status == status),
            r matches Err(e) ==> e is StrictRequirementUnavailable || e is StrictCapabilityUnavailable,
    {
        let capability = unit.allocation_capability();
        let requirement_status = unit.requirement_status();
        let ghost claimed = capability;
        let capability = match check_strict_claim(options, requirement_status, capability) {
            Ok(c) => c,
            Err(e) => {
                let r: Result<Self, BuildError> = Err(e);
                proof {
                    assert(strict_claim(options, requirement_status, claimed) == match r {
                        Ok(m) => Ok::<AllocationCapability, BuildError>(m.spec_description().allocation_capability),
                        Err(e) => Err(e),
                    });
                }
                return r;
            },
        };
        let size = unit.workspace_requirement();
        let mut workspace: Vec<u8> = Vec::with_capacity(size);
        while workspace.len() < size
            invariant
                workspace@.len() <= size,
            decreases size - workspace@.len(),
        {
            workspace.push(0);
        }
        let mut storage = unit.output_storage();
        storage.set_capacity_policy(options.capacity_policy());
        let built = CompositeModule {
            unit,
            storage,
            workspace,
            poisoned: false,
            options,
            description: PreparedModuleDescription {
                options,
                requirement_status,
                allocation_capability: capability,
                warm_up_is_measured: false,
            },
            report: RunReport::new(),
            reporting_enabled: true,
        };
        let r: Result<Self, BuildError> = Ok(built);
        proof {
            assert(strict_claim(options, requirement_status, claimed) == match r {
                Ok(m) => Ok::<AllocationCapability, BuildError>(m.spec_description().allocation_capability),
                Err(e) => Err(e),
            });
        }
        r
    }

    /// The run was refused before the Unit ran: the Unit rejected the input
    /// or the probes do not fit the declaration. The report is emptied and
    /// nothing else changes.
    pub open spec fn refused(&self, after: &Self, r: Result<(), RunError>) -> bool {
        &&& r is Err
        &&& after.spec_poisoned() == self.spec_poisoned()
        &&& after.spec_storage() == self.spec_storage()
        &&& after.spec_unit() == self.spec_unit()
        &&& after.spec_report().is_empty_report()
    }

    /// The Unit ran on freshly begun storage and answered `unit`; `group`
    /// is the group check after a successful Unit and `violation` what the
    /// probes observed. The Module is poisoned exactly by a poisoning Unit
    /// answer, the run answers `run_answer`, and a failed run holds no value.
    pub open spec fn ran(
        &self,
        after: &Self,
        r: Result<(), RunError>,
        unit: Result<(), RunError>,
        group: Result<(), RunError>,
        violation: Option<(String, AllocationOperations)>,
    ) -> bool {
        &&& after.spec_poisoned() == unit_poisons(unit)
        &&& r == run_answer(unit, group, violation)
        &&& (group matches Err(g) ==> unit is Ok && g is IncompleteOutput)
        &&& (unit is Ok && group is Ok ==> after.spec_storage().complete() || violation is Some)
        &&& (violation matches Some(v) ==> v.1 != crate::report::no_operations())
        &&& (r is Err ==> after.spec_storage().spec_observed() == 0)
        &&& (self.spec_reporting() ==> {
            &&& after.spec_report().spec_events().len() >= 1
            &&& after.spec_report().spec_events()[0].kind == crate::report::kind_of(settled(unit, group))
            &&& after.spec_report().spec_events()[0].timing_scope == TimingScope::ModuleExecution
            &&& (settled(unit, group) matches Err(RunError::Capacity(c)) ==> after.spec_report().spec_events()[0].observed_capacity == c.prepared)
        })
    }

    /// One invocation. A poisoned Module refuses to run; input validation and
    /// probe declarations are checked before any output is touched; a Unit
    /// failure or incomplete group discards every pending output; a fatal
    /// failure or a panic reported by the Unit poisons the Module; a probe
    /// that observed allocations turns the run into an allocation violation.
    #[verifier::loop_isolation(false)]
    fn execute(
        &mut self,
        input: &U::Input,
        probes: &mut [&mut dyn AllocationDomainProbe],
        sink: Option<&mut dyn DiagnosticSink>,
        validate_probes: bool,
    ) -> (r: Result<(), RunError>)
        ensures
            old(self).spec_poisoned() ==> r == Err::<(), RunError>(RunError::Poisoned) && final(self).spec_poisoned()
                && final(self).spec_storage() == old(self).spec_storage() && final(self).spec_unit() == old(self).spec_unit(),
            !old(self).spec_poisoned() ==> old(self).refused(final(self), r) || exists|
                unit: Result<(), RunError>,
                group: Result<(), RunError>,
                violation: Option<(String, AllocationOperations)>,
            | #[trigger] old(self).ran(final(self), r, unit, group, violation),
            final(self).spec_poisoned() != old(self).spec_poisoned() ==> poisoning(r),
            r is Ok ==> final(self).spec_storage().complete() && !final(self).spec_poisoned(),
            !old(self).spec_reporting() ==> final(self).spec_report().is_empty_report(),
            r is Ok && old(self).spec_reporting() ==> final(self).spec_report().spec_events().len() == 1
                && final(self).spec_report().spec_events()[0].kind == RunEventKind::Success,
            final(self).spec_reporting() == old(self).spec_reporting(),
            final(self).spec_options() == old(self).spec_options(),
            final(self).spec_description() == old(self).spec_description(),
    {
        self.report.reset();
        if self.poisoned {
            return Err(RunError::Poisoned);
        }
        match self.unit.validate_input(input) {
            Ok(()) => {},
            Err(e) => {
                return Err(e);
            },
        }
        match check_probe_declarations(&self.description.allocation_capability, probes, validate_probes) {
            Ok(()) => {},
            Err(e) => {
                return Err(e);
            },
        }
        let mut k: usize = 0;
        while k < probes.len()
            invariant
                k <= probes@.len(),
            decreases probes@.len() - k,
        {
            probes[k].begin();
            k = k + 1;
        }
        self.storage.begin();
        let started = crate::report::now();
        let mut recorder = UnitExecutionRecorder::new(started, self.reporting_enabled);
        let result = self.unit.run_with_unit_timing(
            input,
            self.storage.pending(),
            UnitWorkspace { bytes: &mut self.workspace },
            &mut recorder,
        );
        let elapsed = crate::report::elapsed_since(started);
        if self.reporting_enabled {
            self.report.take_unit_timings(&recorder);
        }
        let group = match &result {
            Ok(()) => self.storage.validate_complete(),
            Err(_) => Ok(()),
        };
        let ghost unit_answer = result;
        let ghost group_answer = group;
        let (outcome, poisons) = settle_run(result, group);
        if outcome.is_err() {
            self.storage.discard();
        }
        if poisons {
            self.poisoned = true;
        }
        let observed_capacity = match &outcome {
            Err(RunError::Capacity(error)) => error.prepared,
            _ => self.storage.observed_capacity(),
        };
        let kind = event_kind(&outcome);
        let recorded = recorder.events().len();
        let nested: u8 = if recorded >= 128 {
            255
        } else {
            (recorded * 2) as u8
        };
        let event = RunEvent {
            kind,
            observed_capacity,
            elapsed,
            timing_scope: TimingScope::ModuleExecution,
            timing_overhead: TimingOverhead {
                clock_reads: 2u8.saturating_add(nested),
                bounded_report_write_in_elapsed: recorded != 0,
            },
        };
        if self.reporting_enabled {
            self.report.push(event);
        }
        match sink {
            Some(s) => s.record(event),
            None => {},
        }
        let violation = finish_probes(probes, &mut self.report, self.reporting_enabled);
        match violation {
            Some((domain, operations)) => {
                self.storage.discard();
                if self.reporting_enabled {
                    self.report.push(RunEvent {
                        kind: RunEventKind::AllocationProfileViolation,
                        observed_capacity,
                        elapsed: zero_duration(),
                        timing_scope: TimingScope::ModuleExecution,
                        timing_overhead: TimingOverhead { clock_reads: 0, bounded_report_write_in_elapsed: false },
                    });
                }
                let r = Err(RunError::AllocationProfileViolation { domain, operations });
                proof {
                    assert(old(self).ran(self, r, unit_answer, group_answer, violation));
                }
                return r;
            },
            None => {},
        }
        proof {
            assert(old(self).ran(self, outcome, unit_answer, group_answer, violation));
        }
        outcome
    }

    /// Executes one invocation and returns the published output group.
    pub fn run(&mut self, input: &U::Input) -> (r: Result<&<U::Storage as OutputStorage>::View, RunError>)
        ensures
            old(self).spec_poisoned() ==> r is Err && r->Err_0 == RunError::Poisoned,
            final(self).spec_poisoned() != old(self).spec_poisoned() ==> poisoning(r),
            r is Ok ==> final(self).spec_storage().complete() && !final(self).spec_poisoned(),
            r matches Ok(view) ==> *view == final(self).spec_storage().spec_view(),
    {
        let validate_probes = self.options.allocation_guarantee() == AllocationGuarantee::NoRunAllocation;
        let mut probes: [&mut dyn AllocationDomainProbe; 0] = [];
        match self.execute(input, &mut probes, None, validate_probes) {
            Ok(()) => Ok(self.storage.view()),
            Err(e) => Err(e),
        }
    }

    /// Executes declared warm-up outside the steady-state allocation boundary.
    pub fn warm_up(&mut self, input: &U::Input) -> (r: Result<&<U::Storage as OutputStorage>::View, RunError>)
        ensures
            old(self).spec_poisoned() ==> r is Err && r->Err_0 == RunError::Poisoned,
            r is Ok ==> final(self).spec_storage().complete(),
            r matches Ok(view) ==> *view == final(self).spec_storage().spec_view(),
    {
        let mut probes: [&mut dyn AllocationDomainProbe; 0] = [];
        match self.execute(input, &mut probes, None, false) {
            Ok(()) => Ok(self.storage.view()),
            Err(e) => Err(e),
        }
    }

    /// Executes with allocation probes and an optional diagnostic sink; every
    /// declared instrumented domain must be probed.
    pub fn run_profiled(
        &mut self,
        input: &U::Input,
        probes: &mut [&mut dyn AllocationDomainProbe],
        sink: Option<&mut dyn DiagnosticSink>,
    ) -> (r: Result<&<U::Storage as OutputStorage>::View, RunError>)
        ensures
            old(self).spec_poisoned() ==> r is Err && r->Err_0 == RunError::Poisoned,
            r is Ok ==> final(self).spec_storage().complete(),
            r matches Ok(view) ==> *view == final(self).spec_storage().spec_view(),
    {
        match self.execute(input, probes, sink, true) {
            Ok(()) => Ok(self.storage.view()),
            Err(e) => Err(e),
        }
    }

    /// Validates the complete prepared host-input set before entering the
    /// ordinary run boundary, so rejection touches neither outputs nor the Unit.
    pub fn run_checked(&mut self, plan: &PreparedInputPlan, supplied: &[ModuleInput], input: &U::Input) -> (r: Result<&<U::Storage as OutputStorage>::View, RunError>)
        ensures
            !crate::storage::inputs_accepted(plan.entries(), supplied@) ==> (r matches Err(RunError::Input(e))
                && crate::storage::rejects_with(plan.entries(), supplied@, e)) && *final(self) == *old(self),
            crate::storage::inputs_accepted(plan.entries(), supplied@) && old(self).spec_poisoned() ==> r is Err && r->Err_0
                == RunError::Poisoned,
            r is Ok ==> final(self).spec_storage().complete(),
            r matches Ok(view) ==> *view == final(self).spec_storage().spec_view(),
    {
        match plan.validate(supplied) {
            Ok(()) => {},
            Err(e) => {
                return Err(RunError::Input(e));
            },
        }
        self.run(input)
    }

    /// Runs and copies a completely published view into caller-owned
    /// storage. The target is invalid from entry until this returns success.
    pub fn run_into<T>(&mut self, input: &U::Input, target: &mut CallerOutput<T>) -> (r: Result<(), RunError>)
        where <U::Storage as OutputStorage>::View: CopyInto<T>,
        ensures
            final(target).spec_valid() == (r is Ok),
            r is Err ==> final(target).spec_value() == old(target).spec_value(),
    {
        target.valid = false;
        match self.run(input) {
            Ok(view) => {
                view.copy_into(&mut target.value);
                target.valid = true;
                Ok(())
            },
            Err(e) => Err(e),
        }
    }

    pub fn options(&self) -> (r: BuildOptions)
        ensures
            r == self.spec_options(),
    {
        self.options
    }

    pub fn description(&self) -> (r: &PreparedModuleDescription)
        ensures
            *r == self.spec_description(),
    {
        &self.description
    }

    pub fn report(&self) -> (r: &RunReport)
        ensures
            *r == self.spec_report(),
    {
        &self.report
    }

    /// Enables or disables framework-owned report writes for later runs.
    pub fn set_reporting_enabled(&mut self, enabled: bool)
        ensures
            final(self).spec_reporting() == enabled,
            final(self).spec_poisoned() == old(self).spec_poisoned(),
    {
        self.reporting_enabled = enabled;
    }

    pub fn reporting_enabled(&self) -> (r: bool)
        ensures
            r == self.spec_reporting(),
    {
        self.reporting_enabled
    }

    pub closed spec fn spec_unit(&self) -> U {
        self.unit
    }

    /// The prepared Unit's persistent state.
    pub fn unit(&self) -> (r: &U)
        ensures
            *r == self.spec_unit(),
    {
        &self.unit
    }

    /// Mutable access to the prepared Unit's persistent state between runs;
    /// nothing else of the Module changes.
    pub fn unit_mut(&mut self) -> (r: &mut U)
        ensures
            *r == old(self).spec_unit(),
            final(self).spec_unit() == *final(r),
            final(self).spec_storage() == old(self).spec_storage(),
            final(self).spec_poisoned() == old(self).spec_poisoned(),
            final(self).spec_report() == old(self).spec_report(),
            final(self).spec_reporting() == old(self).spec_reporting(),
            final(self).spec_options() == old(self).spec_options(),
            final(self).spec_description() == old(self).spec_description(),
    {
        &mut self.unit
    }

    /// The prepared output storage.
    pub fn storage(&self) -> (r: &U::Storage)
        ensures
            *r == self.spec_storage(),
    {
        &self.storage
    }
}

/// Caller storage has an explicit validity bit because failures do not roll bytes back.
pub struct CallerOutput<T> {
    value: T,
    valid: bool,
}

impl<T> CallerOutput<T> {
    pub closed spec fn spec_valid(&self) -> bool {
        self.valid
    }

    pub closed spec fn spec_value(&self) -> T {
        self.value
    }

    pub fn new(value: T) -> (r: Self)
        ensures
            !r.spec_valid(),
            r.spec_value() == value,
    {
        CallerOutput { value, valid: false }
    }

    pub fn is_valid(&self) -> (r: bool)
        ensures
            r == self.spec_valid(),
    {
        self.valid
    }

    /// The value when the last copy completed.
    pub fn get(&self) -> (r: Option<&T>)
        ensures
            r is Some <==> self.spec_valid(),
            r matches Some(v) ==> *v == self.spec_value(),
    {
        if self.valid {
            Some(&self.value)
        } else {
            None
        }
    }

    /// The storage regardless of validity.
    pub fn raw(&self) -> (r: &T)
        ensures
            *r == self.spec_value(),
    {
        &self.value
    }
}

/// Copies a published view into caller-owned storage.
pub trait CopyInto<T> {
    fn copy_into(&self, target: &mut T);
}

impl<T: Clone> CopyInto<T> for T {
    /// The target becomes a clone of the view.
    fn copy_into(&self, target: &mut T)
        ensures
            cloned::<T>(*self, *final(target)),
    {
        *target = self.clone();
    }
}

impl<A: Clone, B: Clone> CopyInto<(A, B)> for PairStorage<A, B> {
    /// The target becomes clones of both values when both are held, and
    /// stays as it was otherwise.
    fn copy_into(&self, target: &mut (A, B))
        ensures
            match (self.first_writer().spec_slot(), self.second_writer().spec_slot()) {
                (Some(a), Some(b)) => cloned::<A>(a, final(target).0) && cloned::<B>(b, final(target).1),
                _ => *final(target) == *old(target),
            },
    {
        match (self.writer.first.value(), self.writer.second.value()) {
            (Some(a), Some(b)) => {
                *target = (a.clone(), b.clone());
            },
            _ => {},
        }
    }
}


/// Synthetic fixed-size image input.
pub struct ImageInput {
    pub pixels: [u8; 4],
}

#[derive(Clone, Debug, Default, PartialEq, Eq)]
pub struct Image(pub [u8; 4]);

/// Copies its input image; can be told to fail or to report a panic.
pub struct FixedImageFilter {
    pub fail: Option<FailureDisposition>,
    pub panic: bool,
}

impl Unit for FixedImageFilter {
    type Input = ImageInput;
    type Storage = ValueStorage<Image>;

    fn workspace_requirement(&self) -> (r: usize)
        ensures
            r == 0,
    {
        0
    }

    fn output_storage(&self) -> (r: ValueStorage<Image>)
        ensures
            !r.complete(),
            r.writer().spec_empty(),
            r.writer().spec_resource()@ == "filtered_image"@,
    {
        ValueStorage::new("filtered_image")
    }

    fn allocation_capability(&self) -> (r: AllocationCapability)
        ensures
            r.spec_strict_capable(),
            r.spec_trusted(),
            r.spec_domains().len() == 1,
            r.spec_domains()[0].evidence == AllocationEvidence::Instrumented,
            r.spec_domains()[0].name@ == "rust-global"@,
    {
        strict_global_allocator_capability()
    }

    fn run(&mut self, input: &ImageInput, output: &mut ValueWriter<Image>, workspace: UnitWorkspace<'_>) -> (r: Result<(), RunError>)
        ensures
            final(output).spec_written(),
            final(output).spec_slot() == Some(Image(input.pixels)),
            final(output).spec_resource() == old(output).spec_resource(),
            *final(self) == *old(self),
            r == (if old(self).panic {
                Err::<(), RunError>(RunError::Panic)
            } else {
                match old(self).fail {
                    Some(d) => Err(RunError::Unit(UnitFailure { disposition: d, message: "synthetic failure" })),
                    None => Ok(()),
                }
            }),
    {
        output.write(Image(input.pixels));
        if self.panic {
            return Err(RunError::Panic);
        }
        match self.fail {
            Some(disposition) => Err(RunError::Unit(UnitFailure { disposition, message: "synthetic failure" })),
            None => Ok(()),
        }
    }
}

#[derive(Clone, Copy, Debug, PartialEq, Eq)]
pub struct Point(pub i32, pub i32);

pub struct PointInput {
    pub points: Vec<Point>,
}

/// The points with a non-negative first coordinate, in order.
pub open spec fn kept_points(points: Seq<Point>) -> Seq<Point>
    decreases points.len(),
{
    if points.len() == 0 {
        Seq::empty()
    } else if points.last().0 >= 0 {
        kept_points(points.drop_last()).push(points.last())
    } else {
        kept_points(points.drop_last())
    }
}

/// Pushing `count` more values onto `held` under `policy` meets a full
/// buffer of `prepared` elements.
pub open spec fn overflows(held: nat, prepared: nat, policy: CapacityPolicy, count: nat) -> bool {
    policy == CapacityPolicy::RejectOverflow && held <= prepared && held + count > prepared
}

/// What is kept of a prefix is a prefix of what is kept.
pub proof fn lemma_kept_prefix(points: Seq<Point>, k: int)
    requires
        0 <= k <= points.len(),
    ensures
        kept_points(points.take(k)).len() <= kept_points(points).len(),
        kept_points(points).take(kept_points(points.take(k)).len() as int) == kept_points(points.take(k)),
    decreases points.len(),
{
    if k == points.len() {
        assert(points.take(k) =~= points);
        assert(kept_points(points).take(kept_points(points).len() as int) =~= kept_points(points));
    } else {
        let d = points.drop_last();
        assert(points.take(k) =~= d.take(k));
        lemma_kept_prefix(d, k);
        let a = kept_points(d.take(k));
        assert(kept_points(points).take(a.len() as int) =~= kept_points(d).take(a.len() as int));
    }
}

/// Keeps the points with a non-negative first coordinate.
pub struct BoundedPointFilter {
    pub maximum: usize,
}

impl Unit for BoundedPointFilter {
    type Input = PointInput;
    type Storage = BoundedStorage<Point>;

    fn workspace_requirement(&self) -> (r: usize)
        ensures
            r == 0,
    {
        0
    }

    fn output_storage(&self) -> (r: BoundedStorage<Point>)
        ensures
            !r.complete(),
            r.writer().spec_values().len() == 0,
            r.writer().spec_prepared() == self.maximum,
            r.writer().spec_policy() == CapacityPolicy::RejectOverflow,
            r.writer().spec_resource()@ == "filtered_points"@,
    {
        BoundedStorage::new("filtered_points", self.maximum)
    }

    fn allocation_capability(&self) -> (r: AllocationCapability)
        ensures
            r.spec_strict_capable(),
            r.spec_trusted(),
            r.spec_domains().len() == 1,
            r.spec_domains()[0].evidence == AllocationEvidence::Instrumented,
            r.spec_domains()[0].name@ == "rust-global"@,
    {
        strict_global_allocator_capability()
    }

    fn run(&mut self, input: &PointInput, output: &mut BoundedBufferWriter<Point>, workspace: UnitWorkspace<'_>) -> (r: Result<(), RunError>)
        ensures
            *final(self) == *old(self),
            final(output).spec_prepared() == old(output).spec_prepared(),
            final(output).spec_policy() == old(output).spec_policy(),
            final(output).spec_resource() == old(output).spec_resource(),
            r is Ok <==> !overflows(old(output).spec_values().len(), old(output).spec_prepared() as nat, old(output).spec_policy(), kept_points(input.points@).len()),
            r is Ok ==> final(output).spec_values() == old(output).spec_values() + kept_points(input.points@) && final(output).spec_completed(),
            r matches Err(e) ==> e == RunError::Capacity(CapacityError {
                resource: old(output).spec_resource(),
                required: sat_succ(old(output).spec_prepared() as nat),
                prepared: old(output).spec_prepared(),
                policy: old(output).spec_policy(),
            }) && final(output).spec_values() == old(output).spec_values() + kept_points(input.points@).take(
                old(output).spec_prepared() - old(output).spec_values().len(),
            ) && final(output).spec_completed() == old(output).spec_completed(),
    {
        let ghost base = output.spec_values();
        let ghost points = input.points@;
        let mut k: usize = 0;
        while k < input.points.len()
            invariant
                k <= points.len(),
                points == input.points@,
                output.spec_values() == base + kept_points(points.take(k as int)),
                !overflows(base.len(), output.spec_prepared() as nat, output.spec_policy(), kept_points(points.take(k as int)).len()),
                output.spec_prepared() == old(output).spec_prepared(),
                output.spec_policy() == old(output).spec_policy(),
                output.spec_resource() == old(output).spec_resource(),
                output.spec_completed() == old(output).spec_completed(),
                base == old(output).spec_values(),
            decreases points.len() - k,
        {
            let point = input.points[k];
            proof {
                assert(points.take(k as int + 1).drop_last() =~= points.take(k as int));
                assert(points.take(k as int + 1).last() == point);
            }
            if point.0 >= 0 {
                match output.try_push(point) {
                    Ok(()) => {
                        proof {
                            assert(base + kept_points(points.take(k as int)).push(point) =~= base + kept_points(points.take(k as int + 1)));
                        }
                    },
                    Err(e) => {
                        proof {
                            lemma_kept_prefix(points, k as int + 1);
                            let before = kept_points(points.take(k as int));
                            assert(before.len() + base.len() == output.spec_prepared());
                            lemma_kept_prefix(points, k as int);
                            assert(kept_points(points).take(before.len() as int) =~= before);
                        }
                        return Err(RunError::Capacity(e));
                    },
                }
            }
            k = k + 1;
        }
        proof {
            assert(points.take(points.len() as int) =~= points);
        }
        output.complete();
        Ok(())
    }
}

/// `count` copies of `seed` summed, wrapping at 2^64.
pub open spec fn seed_sum(count: nat, seed: u8) -> u64 {
    ((count * seed) % 0x1_0000_0000_0000_0000) as u64
}

proof fn lemma_seed_sum_step(k: nat, seed: u8)
    ensures
        seed_sum(k + 1, seed) == vstd::wrapping::u64_specs::wrapping_add(seed_sum(k, seed), seed as u64),
{
    let m: int = 0x1_0000_0000_0000_0000;
    let x: int = k * seed;
    assert((k + 1) * seed == x + seed) by (nonlinear_arith)
        requires
            x == k * seed,
    ;
    vstd::arithmetic::div_mod::lemma_add_mod_noop(x, seed as int, m);
    vstd::arithmetic::div_mod::lemma_small_mod(seed as nat, m as nat);
    let a: int = x % m;
    assert(0 <= a < m) by {
        vstd::arithmetic::div_mod::lemma_mod_bound(x, m);
    }
    if a + seed >= m {
        vstd::arithmetic::div_mod::lemma_small_mod((a + seed - m) as nat, m as nat);
        vstd::arithmetic::div_mod::lemma_mod_sub_multiples_vanish(a + seed, m);
    } else {
        vstd::arithmetic::div_mod::lemma_small_mod((a + seed) as nat, m as nat);
    }
}

pub struct PlannerInput {
    pub seed: u8,
}

#[derive(Clone, Debug, PartialEq, Eq)]
pub struct Plan(pub u64);

/// Fills its workspace with the seed and sums it.
pub struct WorkspaceHeavyPlanner {
    pub workspace_bytes: usize,
}

impl Unit for WorkspaceHeavyPlanner {
    type Input = PlannerInput;
    type Storage = ValueStorage<Plan>;

    fn workspace_requirement(&self) -> (r: usize)
        ensures
            r == self.workspace_bytes,
    {
        self.workspace_bytes
    }

    fn output_storage(&self) -> (r: ValueStorage<Plan>)
        ensures
            !r.complete(),
            r.writer().spec_empty(),
            r.writer().spec_resource()@ == "plan"@,
    {
        ValueStorage::new("plan")
    }

    fn allocation_capability(&self) -> (r: AllocationCapability)
        ensures
            r.spec_strict_capable(),
            r.spec_trusted(),
            r.spec_domains().len() == 1,
            r.spec_domains()[0].evidence == AllocationEvidence::Instrumented,
            r.spec_domains()[0].name@ == "rust-global"@,
    {
        strict_global_allocator_capability()
    }

    fn run(&mut self, input: &PlannerInput, output: &mut ValueWriter<Plan>, workspace: UnitWorkspace<'_>) -> (r: Result<(), RunError>)
        ensures
            r is Ok,
            *final(self) == *old(self),
            final(output).spec_written(),
            final(output).spec_slot() == Some(Plan(seed_sum(workspace.spec_bytes().len(), input.seed))),
            final(output).spec_resource() == old(output).spec_resource(),
    {
        let ghost size = workspace.spec_bytes().len();
        let mut workspace = workspace;
        let bytes = workspace.bytes();
        let n = bytes.len();
        let mut k: usize = 0;
        while k < n
            invariant
                k <= n,
                n == size,
                bytes@.len() == n,
                forall|t: int| 0 <= t < k ==> bytes@[t] == input.seed,
            decreases n - k,
        {
            bytes.set(k, input.seed);
            k = k + 1;
        }
        let mut sum: u64 = 0;
        let mut k: usize = 0;
        while k < n
            invariant
                k <= n,
                n == size,
                bytes@.len() == n,
                forall|t: int| 0 <= t < n ==> bytes@[t] == input.seed,
                sum == seed_sum(k as nat, input.seed),
            decreases n - k,
        {
            proof {
                lemma_seed_sum_step(k as nat, input.seed);
            }
            sum = sum.wrapping_add(bytes[k] as u64);
            k = k + 1;
        }
        output.write(Plan(sum));
        Ok(())
    }
}

} // verus!
