//! Run outcomes: failures, bounded run reports, Unit timing events and the
//! recorder passed to composite Units.

use vstd::prelude::*;

use crate::options::{
    AllocationCapability, AllocationOperations, BuildOptions, CapacityPolicy, RequirementStatus,
};
use crate::storage::InputValidationError;

verus! {

#[verifier::external_type_specification]
#[verifier::external_body]
pub struct ExInstant(std::time::Instant);

/// `Instant::now`: the current monotonic time; nothing is known of it.
#[verifier::external_body]
pub(crate) fn now() -> std::time::Instant {
    std::time::Instant::now()
}

/// `Instant::elapsed`: time since `start`; nothing is known of it.
#[verifier::external_body]
pub(crate) fn elapsed_since(start: std::time::Instant) -> core::time::Duration {
    start.elapsed()
}

/// `Instant::saturating_duration_since`: the time from `earlier` to
/// `later`, zero when `earlier` is the later one; nothing is known of it.
#[verifier::external_body]
fn duration_between(later: std::time::Instant, earlier: std::time::Instant) -> core::time::Duration {
    later.saturating_duration_since(earlier)
}

/// `Duration::ZERO`.
#[verifier::external_body]
pub(crate) fn zero_duration() -> core::time::Duration {
    core::time::Duration::ZERO
}

/// Failure disposition selected explicitly by a Unit.
#[derive(Clone, Copy, Debug, PartialEq, Eq, Structural)]
pub enum FailureDisposition {
    Recoverable,
    Fatal,
}

#[derive(Clone, Copy, Debug, PartialEq, Eq)]
pub struct UnitFailure {
    pub disposition: FailureDisposition,
    pub message: &'static str,
}

impl UnitFailure {
    /// A failure after which the Module may run again.
    pub fn recoverable(message: &'static str) -> (r: Self)
        ensures
            r.disposition == FailureDisposition::Recoverable,
            r.message == message,
    {
        UnitFailure { disposition: FailureDisposition::Recoverable, message }
    }

    /// A failure that poisons the Module.
    pub fn fatal(message: &'static str) -> (r: Self)
        ensures
            r.disposition == FailureDisposition::Fatal,
            r.message == message,
    {
        UnitFailure { disposition: FailureDisposition::Fatal, message }
    }
}

/// Structured bounded-capacity failure.
#[derive(Clone, Copy, Debug, PartialEq, Eq)]
pub struct CapacityError {
    pub resource: &'static str,
    pub required: usize,
    pub prepared: usize,
    pub policy: CapacityPolicy,
}

#[derive(Clone, Debug, PartialEq, Eq)]
pub enum RunError {
    Unit(UnitFailure),
    Capacity(CapacityError),
    IncompleteOutput { resource: &'static str },
    Panic,
    Poisoned,
    InvalidInput { message: &'static str },
    Input(InputValidationError),
    AllocationProfileViolation { domain: String, operations: AllocationOperations },
    RuntimeBinding { message: String },
    RuntimeOverflow { port: String, required: usize, prepared: usize, policy: CapacityPolicy },
}

#[derive(Clone, Copy, Debug, PartialEq, Eq, Structural)]
pub enum RunEventKind {
    Success,
    RecoverableFailure,
    FatalFailure,
    Overflow,
    IncompleteOutput,
    Panic,
    AllocationProfileViolation,
}

#[derive(Clone, Copy, Debug, PartialEq, Eq, Structural)]
pub enum TimingScope {
    ModuleExecution,
}

#[derive(Clone, Copy, Debug, PartialEq, Eq, Structural)]
pub struct TimingOverhead {
    /// Monotonic clock reads around Unit execution.
    pub clock_reads: u8,
    /// Report writes are bounded but are not included in `RunEvent::elapsed`.
    pub bounded_report_write_in_elapsed: bool,
}

/// One run outcome. `elapsed` is observational and not deterministic.
#[derive(Clone, Copy, Debug, PartialEq, Eq)]
pub struct RunEvent {
    pub kind: RunEventKind,
    pub observed_capacity: usize,
    pub elapsed: core::time::Duration,
    pub timing_scope: TimingScope,
    pub timing_overhead: TimingOverhead,
}

pub const RUN_REPORT_CAPACITY: usize = 16;

pub const UNIT_TIMING_CAPACITY: usize = 16;

/// One measured execution stage declared by a composite Unit; the ordinal
/// indexes the prepared graph's stable execution order.
#[derive(Clone, Copy, Debug, PartialEq, Eq)]
pub struct UnitTimingEvent {
    pub unit_ordinal: usize,
    pub kind: RunEventKind,
    pub started_after_module_start: core::time::Duration,
    pub elapsed: core::time::Duration,
    pub timing_overhead: TimingOverhead,
}

/// The event kind that reports a run result.
pub open spec fn kind_of<T>(r: Result<T, RunError>) -> RunEventKind {
    match r {
        Ok(_) => RunEventKind::Success,
        Err(RunError::Unit(f)) => if f.disposition == FailureDisposition::Recoverable {
            RunEventKind::RecoverableFailure
        } else {
            RunEventKind::FatalFailure
        },
        Err(RunError::Capacity(_)) => RunEventKind::Overflow,
        Err(RunError::RuntimeOverflow { .. }) => RunEventKind::Overflow,
        Err(RunError::IncompleteOutput { .. }) => RunEventKind::IncompleteOutput,
        Err(RunError::Panic) => RunEventKind::Panic,
        Err(RunError::AllocationProfileViolation { .. }) => RunEventKind::AllocationProfileViolation,
        Err(_) => RunEventKind::RecoverableFailure,
    }
}

/// Classifies a run result for reporting.
pub fn event_kind<T>(result: &Result<T, RunError>) -> (r: RunEventKind)
    ensures
        r == kind_of(*result),
{
    match result {
        Ok(_) => RunEventKind::Success,
        Err(RunError::Unit(f)) => match f.disposition {
            FailureDisposition::Recoverable => RunEventKind::RecoverableFailure,
            FailureDisposition::Fatal => RunEventKind::FatalFailure,
        },
        Err(RunError::Capacity(_)) => RunEventKind::Overflow,
        Err(RunError::RuntimeOverflow { .. }) => RunEventKind::Overflow,
        Err(RunError::IncompleteOutput { .. }) => RunEventKind::IncompleteOutput,
        Err(RunError::Panic) => RunEventKind::Panic,
        Err(RunError::AllocationProfileViolation { .. }) => RunEventKind::AllocationProfileViolation,
        Err(_) => RunEventKind::RecoverableFailure,
    }
}

/// The smaller of two lengths.
pub open spec fn min_len(a: int, b: int) -> int {
    if a < b {
        a
    } else {
        b
    }
}

/// Framework-owned bounded recorder passed to composite Unit executors.
pub struct UnitExecutionRecorder {
    module_started: std::time::Instant,
    events: Vec<UnitTimingEvent>,
    dropped_events: usize,
    enabled: bool,
}

impl UnitExecutionRecorder {
    pub closed spec fn spec_events(&self) -> Seq<UnitTimingEvent> {
        self.events@
    }

    pub closed spec fn spec_dropped(&self) -> usize {
        self.dropped_events
    }

    pub closed spec fn spec_enabled(&self) -> bool {
        self.enabled
    }

    /// An empty recorder for a run that started at `module_started`.
    pub fn new(module_started: std::time::Instant, enabled: bool) -> (r: Self)
        ensures
            r.spec_events().len() == 0,
            r.spec_dropped() == 0,
            r.spec_enabled() == enabled,
    {
        UnitExecutionRecorder {
            module_started,
            events: Vec::with_capacity(UNIT_TIMING_CAPACITY),
            dropped_events: 0,
            enabled,
        }
    }

    /// Measures one declared Unit boundary: the operation's result is
    /// returned unchanged; when recording is enabled an event with the
    /// ordinal and result kind is kept while fewer than
    /// `UNIT_TIMING_CAPACITY` are held, and counted as dropped otherwise.
    pub fn measure<T, F: FnOnce() -> Result<T, RunError>>(&mut self, unit_ordinal: usize, operation: F) -> (r: Result<T, RunError>)
        requires
            operation.requires(()),
        ensures
            operation.ensures((), r),
            !old(self).spec_enabled() ==> final(self).spec_events() == old(self).spec_events()
                && final(self).spec_dropped() == old(self).spec_dropped(),
            old(self).spec_enabled() && old(self).spec_events().len() < UNIT_TIMING_CAPACITY ==> final(self).spec_events().len()
                == old(self).spec_events().len() + 1 && final(self).spec_events().take(old(self).spec_events().len() as int)
                == old(self).spec_events() && final(self).spec_events().last().unit_ordinal == unit_ordinal
                && final(self).spec_events().last().kind == kind_of(r)
                && final(self).spec_dropped() == old(self).spec_dropped(),
            old(self).spec_enabled() && old(self).spec_events().len() >= UNIT_TIMING_CAPACITY ==> final(self).spec_events()
                == old(self).spec_events() && final(self).spec_dropped() == (if old(self).spec_dropped() == usize::MAX {
                usize::MAX
            } else {
                (old(self).spec_dropped() + 1) as usize
            }),
            final(self).spec_enabled() == old(self).spec_enabled(),
    {
        if !self.enabled {
            return operation();
        }
        let started = now();
        let result = operation();
        let event = UnitTimingEvent {
            unit_ordinal,
            kind: event_kind(&result),
            started_after_module_start: duration_between(started, self.module_started),
            elapsed: elapsed_since(started),
            timing_overhead: TimingOverhead { clock_reads: 2, bounded_report_write_in_elapsed: false },
        };
        if self.events.len() < UNIT_TIMING_CAPACITY {
            self.events.push(event);
            proof {
                assert(self.events@.take(self.events@.len() - 1) =~= old(self).events@);
            }
        } else {
            self.dropped_events = self.dropped_events.saturating_add(1);
        }
        result
    }

    /// The recorded events, in recording order.
    pub fn events(&self) -> (r: &[UnitTimingEvent])
        ensures
            r@ == self.spec_events(),
    {
        self.events.as_slice()
    }

    /// Events that did not fit.
    pub fn dropped_events(&self) -> (r: usize)
        ensures
            r == self.spec_dropped(),
    {
        self.dropped_events
    }

    /// Monotonic clock reads of a run: two around the Module and two per
    /// measured Unit boundary, kept or dropped, saturating at 255.
    pub fn module_clock_reads(&self) -> (r: u8)
        ensures
            r as int == if 2 + 2 * (self.spec_events().len() + self.spec_dropped()) > 255 {
                255
            } else {
                2 + 2 * (self.spec_events().len() + self.spec_dropped())
            },
    {
        let kept = self.events.len();
        if kept >= 127 || self.dropped_events >= 127 - kept {
            255
        } else {
            let total = kept + self.dropped_events;
            (2 + 2 * total) as u8
        }
    }
}

/// Bounded report of the last run: at most `RUN_REPORT_CAPACITY` run events
/// and `UNIT_TIMING_CAPACITY` Unit timings are kept; the rest are counted.
#[derive(Debug, PartialEq, Eq)]
pub struct RunReport {
    events: Vec<RunEvent>,
    dropped_events: usize,
    observed_capacity_peak: usize,
    allocation_operations: AllocationOperations,
    unit_timings: Vec<UnitTimingEvent>,
    dropped_unit_timings: usize,
}

impl RunReport {
    pub closed spec fn spec_events(&self) -> Seq<RunEvent> {
        self.events@
    }

    pub closed spec fn spec_dropped_events(&self) -> usize {
        self.dropped_events
    }

    pub closed spec fn spec_peak(&self) -> usize {
        self.observed_capacity_peak
    }

    pub closed spec fn spec_operations(&self) -> AllocationOperations {
        self.allocation_operations
    }

    pub closed spec fn spec_unit_timings(&self) -> Seq<UnitTimingEvent> {
        self.unit_timings@
    }

    pub closed spec fn spec_dropped_unit_timings(&self) -> usize {
        self.dropped_unit_timings
    }

    /// The report of no run.
    pub open spec fn is_empty_report(&self) -> bool {
        &&& self.spec_events().len() == 0
        &&& self.spec_dropped_events() == 0
        &&& self.spec_peak() == 0
        &&& self.spec_operations() == AllocationOperations { allocations: 0, reallocations: 0, deallocations: 0 }
        &&& self.spec_unit_timings().len() == 0
        &&& self.spec_dropped_unit_timings() == 0
    }

    /// The kept events never exceed their bounds.
    pub open spec fn bounded(&self) -> bool {
        self.spec_events().len() <= RUN_REPORT_CAPACITY && self.spec_unit_timings().len() <= UNIT_TIMING_CAPACITY
    }

    /// An empty report.
    pub fn new() -> (r: Self)
        ensures
            r.is_empty_report(),
    {
        RunReport {
            events: Vec::with_capacity(RUN_REPORT_CAPACITY),
            dropped_events: 0,
            observed_capacity_peak: 0,
            allocation_operations: AllocationOperations { allocations: 0, reallocations: 0, deallocations: 0 },
            unit_timings: Vec::with_capacity(UNIT_TIMING_CAPACITY),
            dropped_unit_timings: 0,
        }
    }

    /// Forgets the previous run.
    pub fn reset(&mut self)
        ensures
            final(self).is_empty_report(),
    {
        self.events.clear();
        self.dropped_events = 0;
        self.observed_capacity_peak = 0;
        self.allocation_operations = AllocationOperations { allocations: 0, reallocations: 0, deallocations: 0 };
        self.unit_timings.clear();
        self.dropped_unit_timings = 0;
    }

    /// Records one run event: the peak follows the largest observed
    /// capacity; the event is kept while fewer than the capacity are held
    /// and counted as dropped otherwise.
    pub fn push(&mut self, event: RunEvent)
        ensures
            old(self).bounded() ==> final(self).bounded(),
            final(self).spec_peak() == (if event.observed_capacity > old(self).spec_peak() {
                event.observed_capacity
            } else {
                old(self).spec_peak()
            }),
            old(self).spec_events().len() < RUN_REPORT_CAPACITY ==> final(self).spec_events() == old(self).spec_events().push(event)
                && final(self).spec_dropped_events() == old(self).spec_dropped_events(),
            old(self).spec_events().len() >= RUN_REPORT_CAPACITY ==> final(self).spec_events() == old(self).spec_events()
                && final(self).spec_dropped_events() == (if old(self).spec_dropped_events() == usize::MAX {
                usize::MAX
            } else {
                (old(self).spec_dropped_events() + 1) as usize
            }),
            final(self).spec_operations() == old(self).spec_operations(),
            final(self).spec_unit_timings() == old(self).spec_unit_timings(),
            final(self).spec_dropped_unit_timings() == old(self).spec_dropped_unit_timings(),
    {
        if event.observed_capacity > self.observed_capacity_peak {
            self.observed_capacity_peak = event.observed_capacity;
        }
        if self.events.len() < RUN_REPORT_CAPACITY {
            self.events.push(event);
        } else {
            self.dropped_events = self.dropped_events.saturating_add(1);
        }
    }

    /// Adds one probe's allocation totals.
    pub fn add_operations(&mut self, operations: AllocationOperations)
        ensures
            final(self).spec_operations().allocations == (if old(self).spec_operations().allocations as int + operations.allocations > usize::MAX {
                usize::MAX as int
            } else {
                old(self).spec_operations().allocations as int + operations.allocations
            }),
            final(self).spec_operations().reallocations == (if old(self).spec_operations().reallocations as int + operations.reallocations > usize::MAX {
                usize::MAX as int
            } else {
                old(self).spec_operations().reallocations as int + operations.reallocations
            }),
            final(self).spec_operations().deallocations == (if old(self).spec_operations().deallocations as int + operations.deallocations > usize::MAX {
                usize::MAX as int
            } else {
                old(self).spec_operations().deallocations as int + operations.deallocations
            }),
            final(self).spec_events() == old(self).spec_events(),
            final(self).spec_dropped_events() == old(self).spec_dropped_events(),
            final(self).spec_peak() == old(self).spec_peak(),
            final(self).spec_unit_timings() == old(self).spec_unit_timings(),
            final(self).spec_dropped_unit_timings() == old(self).spec_dropped_unit_timings(),
    {
        let current = self.allocation_operations;
        self.allocation_operations = AllocationOperations {
            allocations: current.allocations.saturating_add(operations.allocations),
            reallocations: current.reallocations.saturating_add(operations.reallocations),
            deallocations: current.deallocations.saturating_add(operations.deallocations),
        };
    }

    /// Copies the recorder's Unit timings into the report, as many as fit.
    pub fn take_unit_timings(&mut self, recorder: &UnitExecutionRecorder)
        ensures
            old(self).spec_unit_timings().len() <= UNIT_TIMING_CAPACITY ==> final(self).spec_unit_timings()
                == old(self).spec_unit_timings() + recorder.spec_events().take(
                min_len(recorder.spec_events().len() as int, UNIT_TIMING_CAPACITY - old(self).spec_unit_timings().len()),
            ),
            old(self).spec_unit_timings().len() > UNIT_TIMING_CAPACITY ==> final(self).spec_unit_timings()
                == old(self).spec_unit_timings(),
            old(self).spec_unit_timings().len() <= UNIT_TIMING_CAPACITY ==> final(self).spec_unit_timings().len() <= UNIT_TIMING_CAPACITY,
            final(self).spec_dropped_unit_timings() == recorder.spec_dropped(),
            final(self).spec_events() == old(self).spec_events(),
            final(self).spec_dropped_events() == old(self).spec_dropped_events(),
            final(self).spec_peak() == old(self).spec_peak(),
            final(self).spec_operations() == old(self).spec_operations(),
    {
        let events = recorder.events();
        let ghost base = self.unit_timings@;
        let mut k: usize = 0;
        while k < events.len() && self.unit_timings.len() < UNIT_TIMING_CAPACITY
            invariant
                k <= events@.len(),
                events@ == recorder.spec_events(),
                self.unit_timings@ == base + events@.take(k as int),
                k > 0 ==> base.len() + k <= UNIT_TIMING_CAPACITY,
                self.events@ == old(self).events@,
                self.dropped_events == old(self).dropped_events,
                self.observed_capacity_peak == old(self).observed_capacity_peak,
                self.allocation_operations == old(self).allocation_operations,
            decreases events@.len() - k,
        {
            self.unit_timings.push(events[k]);
            proof {
                assert(events@.take(k + 1) == events@.take(k as int).push(events@[k as int]));
            }
            k = k + 1;
        }
        proof {
            if base.len() <= UNIT_TIMING_CAPACITY {
                assert(k == min_len(events@.len() as int, UNIT_TIMING_CAPACITY - base.len()));
            } else {
                assert(k == 0);
                assert(events@.take(0) =~= Seq::<UnitTimingEvent>::empty());
                assert(self.unit_timings@ =~= base);
            }
        }
        self.dropped_unit_timings = recorder.dropped_events();
    }

    /// The kept run events, oldest first.
    pub fn events(&self) -> (r: &[RunEvent])
        ensures
            r@ == self.spec_events(),
    {
        self.events.as_slice()
    }

    pub fn dropped_events(&self) -> (r: usize)
        ensures
            r == self.spec_dropped_events(),
    {
        self.dropped_events
    }

    pub fn observed_capacity_peak(&self) -> (r: usize)
        ensures
            r == self.spec_peak(),
    {
        self.observed_capacity_peak
    }

    pub fn allocation_operations(&self) -> (r: AllocationOperations)
        ensures
            r == self.spec_operations(),
    {
        self.allocation_operations
    }

    /// The kept Unit timings, in recording order.
    pub fn unit_timings(&self) -> (r: &[UnitTimingEvent])
        ensures
            r@ == self.spec_unit_timings(),
    {
        self.unit_timings.as_slice()
    }

    pub fn dropped_unit_timings(&self) -> (r: usize)
        ensures
            r == self.spec_dropped_unit_timings(),
    {
        self.dropped_unit_timings
    }

    /// An owned copy that later runs do not change.
    pub fn snapshot(&self) -> (r: RunReport)
        ensures
            r.spec_events() == self.spec_events(),
            r.spec_dropped_events() == self.spec_dropped_events(),
            r.spec_peak() == self.spec_peak(),
            r.spec_operations() == self.spec_operations(),
            r.spec_unit_timings() == self.spec_unit_timings(),
            r.spec_dropped_unit_timings() == self.spec_dropped_unit_timings(),
    {
        let mut events: Vec<RunEvent> = Vec::new();
        let mut k: usize = 0;
        while k < self.events.len()
            invariant
                k <= self.events@.len(),
                events@ == self.events@.take(k as int),
            decreases self.events@.len() - k,
        {
            events.push(self.events[k]);
            proof {
                assert(self.events@.take(k + 1) == self.events@.take(k as int).push(self.events@[k as int]));
            }
            k = k + 1;
        }
        let mut timings: Vec<UnitTimingEvent> = Vec::new();
        let mut k: usize = 0;
        while k < self.unit_timings.len()
            invariant
                k <= self.unit_timings@.len(),
                timings@ == self.unit_timings@.take(k as int),
            decreases self.unit_timings@.len() - k,
        {
            timings.push(self.unit_timings[k]);
            proof {
                assert(self.unit_timings@.take(k + 1) == self.unit_timings@.take(k as int).push(self.unit_timings@[k as int]));
            }
            k = k + 1;
        }
        proof {
            assert(self.events@.take(self.events@.len() as int) =~= self.events@);
            assert(self.unit_timings@.take(self.unit_timings@.len() as int) =~= self.unit_timings@);
        }
        RunReport {
            events,
            dropped_events: self.dropped_events,
            observed_capacity_peak: self.observed_capacity_peak,
            allocation_operations: self.allocation_operations,
            unit_timings: timings,
            dropped_unit_timings: self.dropped_unit_timings,
        }
    }
}

impl Clone for RunReport {
    fn clone(&self) -> (r: Self)
        ensures
            r.spec_events() == self.spec_events(),
            r.spec_dropped_events() == self.spec_dropped_events(),
            r.spec_peak() == self.spec_peak(),
            r.spec_operations() == self.spec_operations(),
            r.spec_unit_timings() == self.spec_unit_timings(),
            r.spec_dropped_unit_timings() == self.spec_dropped_unit_timings(),
    {
        self.snapshot()
    }
}

impl Default for RunReport {
    fn default() -> (r: Self)
        ensures
            r.is_empty_report(),
    {
        RunReport::new()
    }
}

/// No operation observed.
pub open spec fn no_operations() -> AllocationOperations {
    AllocationOperations { allocations: 0, reallocations: 0, deallocations: 0 }
}

/// Probe `k` is the first whose totals are not zero.
pub open spec fn first_busy(ops: Seq<AllocationOperations>, k: int) -> bool {
    &&& 0 <= k < ops.len()
    &&& ops[k] != no_operations()
    &&& forall|j: int| 0 <= j < k ==> (#[trigger] ops[j]) == no_operations()
}

/// What finishing the probes gives for the totals `ops` they returned: the
/// first nonzero totals, if any.
pub open spec fn violation_of(ops: Seq<AllocationOperations>, r: Option<(String, AllocationOperations)>) -> bool {
    &&& r is None <==> forall|j: int| 0 <= j < ops.len() ==> (#[trigger] ops[j]) == no_operations()
    &&& r matches Some(found) ==> exists|k: int| #[trigger] first_busy(ops, k) && found.1 == ops[k]
}

/// Finishes every probe in order, adding its totals to `report` when
/// `record` is set, and returns the domain and totals of the first probe
/// that observed an operation. Nothing else in the report changes.
pub fn finish_probes(
    probes: &mut [&mut dyn AllocationDomainProbe],
    report: &mut RunReport,
    record: bool,
) -> (r: Option<(String, AllocationOperations)>)
    ensures
        final(report).spec_events() == old(report).spec_events(),
        final(report).spec_dropped_events() == old(report).spec_dropped_events(),
        final(report).spec_peak() == old(report).spec_peak(),
        final(report).spec_unit_timings() == old(report).spec_unit_timings(),
        final(report).spec_dropped_unit_timings() == old(report).spec_dropped_unit_timings(),
        !record ==> final(report).spec_operations() == old(report).spec_operations(),
        r matches Some(found) ==> found.1 != no_operations(),
        exists|ops: Seq<AllocationOperations>| ops.len() == old(probes)@.len() && #[trigger] violation_of(ops, r),
{
    let mut violation: Option<(String, AllocationOperations)> = None;
    let ghost mut seen: Seq<AllocationOperations> = Seq::empty();
    let mut k: usize = 0;
    while k < probes.len()
        invariant
            seen.len() == k,
            probes@.len() == old(probes)@.len(),
            violation_of(seen, violation),
            k <= probes@.len(),
            report.spec_events() == old(report).spec_events(),
            report.spec_dropped_events() == old(report).spec_dropped_events(),
            report.spec_peak() == old(report).spec_peak(),
            report.spec_unit_timings() == old(report).spec_unit_timings(),
            report.spec_dropped_unit_timings() == old(report).spec_dropped_unit_timings(),
            !record ==> report.spec_operations() == old(report).spec_operations(),
            violation matches Some(found) ==> found.1 != no_operations(),
        decreases probes@.len() - k,
    {
        let operations = probes[k].finish();
        if record {
            report.add_operations(operations);
        }
        let ghost before = seen;
        let ghost old_v = violation;
        proof {
            seen = seen.push(operations);
            assert forall|j: int| 0 <= j < before.len() implies seen[j] == before[j] by {}
        }
        if violation.is_none() && !operations.is_zero() {
            violation = Some((probes[k].domain().to_owned(), operations));
            proof {
                assert(first_busy(seen, k as int));
            }
        }
        proof {
            match old_v {
                Some(found) => {
                    let w = choose|w: int| #[trigger] first_busy(before, w) && found.1 == before[w];
                    assert(first_busy(seen, w));
                    assert(seen[w] != no_operations());
                },
                None => {},
            }
        }
        k = k + 1;
    }
    proof {
        assert(violation_of(seen, violation));
    }
    violation
}

/// A sink participates in the measured run boundary and therefore must obey
/// the Module's declared allocation policy.
pub trait DiagnosticSink {
    fn record(&mut self, event: RunEvent);
}

/// Counts allocation operations of one declared domain around a run.
pub trait AllocationDomainProbe {
    fn domain(&self) -> &str;

    fn begin(&mut self);

    fn finish(&mut self) -> AllocationOperations;
}

#[derive(Clone, Debug, PartialEq, Eq)]
pub struct PreparedModuleDescription {
    pub options: BuildOptions,
    pub requirement_status: RequirementStatus,
    pub allocation_capability: AllocationCapability,
    /// Construction and explicitly declared warm-up are outside the run boundary.
    pub warm_up_is_measured: bool,
}

} // verus!
