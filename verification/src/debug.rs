//! Optional inspection boundary: adapters that receive Module descriptions
//! and run reports under an explicit failure policy, and a bounded event
//! sink with reject-and-count overflow.

use vstd::prelude::*;

use crate::inspection::FixedModuleDescription;
use crate::report::{DiagnosticSink, RunEvent, RunReport};
use crate::text::push_str;

verus! {

/// What an adapter is and what it costs.
#[derive(Clone, Copy, Debug, PartialEq, Eq)]
pub struct AdapterDescriptor {
    pub name: &'static str,
    pub allocation_domains: &'static [&'static str],
    pub overhead: &'static str,
}

/// An inspection destination for descriptions and run reports.
pub trait InspectionAdapter {
    type Error;

    fn descriptor(&self) -> AdapterDescriptor;

    fn fixed_description(&mut self, description: &FixedModuleDescription) -> Result<(), Self::Error>;

    fn run_snapshot(&mut self, report: &RunReport) -> Result<(), Self::Error>;

    /// Human-readable text of an adapter error.
    fn error_text(&self, error: &Self::Error) -> String;
}

/// What a failed delivery does.
#[derive(Clone, Copy, Debug, PartialEq, Eq, Structural)]
pub enum AdapterFailurePolicy {
    /// Return a separate diagnostics error. Module state and algorithm result are untouched.
    Report,
    /// Record the error and permanently disable subsequent adapter calls.
    Disable,
}

#[derive(Clone, Debug, PartialEq, Eq)]
pub enum AdapterError {
    Failed { adapter: &'static str, message: String },
}

impl AdapterError {
    /// `adapter {name} failed: {message}`.
    pub fn to_text(&self) -> (r: String)
        ensures
            match self {
                AdapterError::Failed { adapter, message } => r@ == "adapter "@ + adapter@ + " failed: "@ + message@,
            },
    {
        match self {
            AdapterError::Failed { adapter, message } => {
                let mut out = String::new();
                push_str(&mut out, "adapter ");
                push_str(&mut out, adapter);
                push_str(&mut out, " failed: ");
                push_str(&mut out, message.as_str());
                out
            },
        }
    }
}

/// What became of one delivery.
#[derive(Clone, Copy, Debug, PartialEq, Eq, Structural)]
pub enum AdapterOutcome {
    Delivered,
    Disabled,
    DisabledAfterFailure,
}

/// Delivers to an adapter while it is enabled and applies the failure
/// policy to failed deliveries.
pub struct AdapterController<A> {
    adapter: A,
    policy: AdapterFailurePolicy,
    enabled: bool,
    last_error: Option<AdapterError>,
}

/// How one delivery attempt changes a controller `(enabled, last error)`
/// and what it returns, given whether the adapter accepted it.
pub open spec fn delivery(
    policy: AdapterFailurePolicy,
    enabled: bool,
    last: Option<AdapterError>,
    enabled_after: bool,
    last_after: Option<AdapterError>,
    r: Result<AdapterOutcome, AdapterError>,
) -> bool {
    if !enabled {
        r == Ok::<AdapterOutcome, AdapterError>(AdapterOutcome::Disabled) && !enabled_after && last_after == last
    } else {
        ||| r == Ok::<AdapterOutcome, AdapterError>(AdapterOutcome::Delivered) && enabled_after && last_after == last
        ||| policy == AdapterFailurePolicy::Report && r is Err && enabled_after && last_after == last
        ||| policy == AdapterFailurePolicy::Disable && r == Ok::<AdapterOutcome, AdapterError>(AdapterOutcome::DisabledAfterFailure)
            && !enabled_after && last_after is Some
    }
}

impl<A: InspectionAdapter> AdapterController<A> {
    pub closed spec fn spec_enabled(&self) -> bool {
        self.enabled
    }

    pub closed spec fn spec_policy(&self) -> AdapterFailurePolicy {
        self.policy
    }

    pub closed spec fn spec_last_error(&self) -> Option<AdapterError> {
        self.last_error
    }

    /// An enabled controller without a recorded error.
    pub fn new(adapter: A, policy: AdapterFailurePolicy) -> (r: Self)
        ensures
            r.spec_enabled(),
            r.spec_policy() == policy,
            r.spec_last_error() is None,
    {
        AdapterController { adapter, policy, enabled: true, last_error: None }
    }

    pub fn is_enabled(&self) -> (r: bool)
        ensures
            r == self.spec_enabled(),
    {
        self.enabled
    }

    /// The error recorded when the `Disable` policy disabled the adapter.
    pub fn last_error(&self) -> (r: Option<&AdapterError>)
        ensures
            match r {
                Some(e) => self.spec_last_error() == Some(*e),
                None => self.spec_last_error() is None,
            },
    {
        match &self.last_error {
            Some(e) => Some(e),
            None => None,
        }
    }

    /// Stops all further deliveries.
    pub fn disable(&mut self)
        ensures
            !final(self).spec_enabled(),
            final(self).spec_policy() == old(self).spec_policy(),
            final(self).spec_last_error() == old(self).spec_last_error(),
    {
        self.enabled = false;
    }

    /// Delivers a Module description.
    pub fn fixed_description(&mut self, description: &FixedModuleDescription) -> (r: Result<AdapterOutcome, AdapterError>)
        ensures
            final(self).spec_policy() == old(self).spec_policy(),
            delivery(
                old(self).spec_policy(),
                old(self).spec_enabled(),
                old(self).spec_last_error(),
                final(self).spec_enabled(),
                final(self).spec_last_error(),
                r,
            ),
    {
        if !self.enabled {
            return Ok(AdapterOutcome::Disabled);
        }
        let name = self.adapter.descriptor().name;
        match self.adapter.fixed_description(description) {
            Ok(()) => Ok(AdapterOutcome::Delivered),
            Err(error) => self.handle_failure(name, error),
        }
    }

    /// Delivers a run report.
    pub fn run_snapshot(&mut self, report: &RunReport) -> (r: Result<AdapterOutcome, AdapterError>)
        ensures
            final(self).spec_policy() == old(self).spec_policy(),
            delivery(
                old(self).spec_policy(),
                old(self).spec_enabled(),
                old(self).spec_last_error(),
                final(self).spec_enabled(),
                final(self).spec_last_error(),
                r,
            ),
    {
        if !self.enabled {
            return Ok(AdapterOutcome::Disabled);
        }
        let name = self.adapter.descriptor().name;
        match self.adapter.run_snapshot(report) {
            Ok(()) => Ok(AdapterOutcome::Delivered),
            Err(error) => self.handle_failure(name, error),
        }
    }

    fn handle_failure(&mut self, adapter: &'static str, error: A::Error) -> (r: Result<AdapterOutcome, AdapterError>)
        requires
            old(self).spec_enabled(),
        ensures
            final(self).spec_policy() == old(self).spec_policy(),
            old(self).spec_policy() == AdapterFailurePolicy::Report ==> (r matches Err(AdapterError::Failed { adapter: a, .. }) && a
                == adapter) && final(self).spec_enabled() && final(self).spec_last_error() == old(self).spec_last_error(),
            old(self).spec_policy() == AdapterFailurePolicy::Disable ==> r == Ok::<AdapterOutcome, AdapterError>(
                AdapterOutcome::DisabledAfterFailure,
            ) && !final(self).spec_enabled() && (final(self).spec_last_error() matches Some(AdapterError::Failed { adapter: a, .. })
                && a == adapter),
    {
        let message = self.adapter.error_text(&error);
        let failure = AdapterError::Failed { adapter, message };
        match self.policy {
            AdapterFailurePolicy::Report => Err(failure),
            AdapterFailurePolicy::Disable => {
                self.enabled = false;
                self.last_error = Some(failure);
                Ok(AdapterOutcome::DisabledAfterFailure)
            },
        }
    }
}

/// Once disabled, a controller stays disabled, returns `Disabled` and
/// keeps its recorded error, whatever its policy.
pub proof fn lemma_disabled_is_permanent(
    policy: AdapterFailurePolicy,
    last: Option<AdapterError>,
    enabled_after: bool,
    last_after: Option<AdapterError>,
    r: Result<AdapterOutcome, AdapterError>,
)
    requires
        delivery(policy, false, last, enabled_after, last_after, r),
    ensures
        !enabled_after,
        last_after == last,
        r == Ok::<AdapterOutcome, AdapterError>(AdapterOutcome::Disabled),
{
}

/// Under the `Report` policy a delivery never disables the adapter nor
/// records an error.
pub proof fn lemma_report_policy_keeps_adapter_enabled(
    last: Option<AdapterError>,
    enabled_after: bool,
    last_after: Option<AdapterError>,
    r: Result<AdapterOutcome, AdapterError>,
)
    requires
        delivery(AdapterFailurePolicy::Report, true, last, enabled_after, last_after, r),
    ensures
        enabled_after,
        last_after == last,
        r != Ok::<AdapterOutcome, AdapterError>(AdapterOutcome::DisabledAfterFailure),
{
}

/// Allocation-free event sink: keeps the first `N` events of a cycle and
/// counts every event it rejects.
pub struct BoundedRunSink<const N: usize> {
    events: Vec<RunEvent>,
    dropped: usize,
    last_record_retained: bool,
}

/// The retained events and drop count after recording `evs` from empty:
/// the first `n` events are kept and every later one is counted.
pub open spec fn sink_model(n: nat, evs: Seq<RunEvent>) -> (Seq<RunEvent>, nat) {
    if evs.len() <= n {
        (evs, 0)
    } else {
        (evs.take(n as int), (evs.len() - n) as nat)
    }
}

impl<const N: usize> BoundedRunSink<N> {
    pub closed spec fn spec_events(&self) -> Seq<RunEvent> {
        self.events@
    }

    pub closed spec fn spec_dropped(&self) -> usize {
        self.dropped
    }

    pub closed spec fn spec_last_retained(&self) -> bool {
        self.last_record_retained
    }

    /// At most `N` events are kept, and the last record was retained only
    /// if some event is.
    pub open spec fn wf(&self) -> bool {
        &&& self.spec_events().len() <= N
        &&& self.spec_last_retained() ==> self.spec_events().len() > 0
    }

    /// The retained events, oldest first.
    pub fn events(&self) -> (r: &[RunEvent])
        ensures
            r@ == self.spec_events(),
    {
        self.events.as_slice()
    }

    /// The number of rejected events.
    pub fn dropped_events(&self) -> (r: usize)
        ensures
            r == self.spec_dropped(),
    {
        self.dropped
    }

    /// Forgets every event and the drop count.
    pub fn clear(&mut self)
        ensures
            final(self).wf(),
            final(self).spec_events().len() == 0,
            final(self).spec_dropped() == 0,
            !final(self).spec_last_retained(),
    {
        self.events.clear();
        self.dropped = 0;
        self.last_record_retained = false;
    }

    /// Replaces the event recorded last, if that record was retained.
    pub fn correct_last(&mut self, event: RunEvent)
        requires
            old(self).wf(),
        ensures
            final(self).wf(),
            final(self).spec_dropped() == old(self).spec_dropped(),
            final(self).spec_last_retained() == old(self).spec_last_retained(),
            final(self).spec_events() == if old(self).spec_last_retained() {
                old(self).spec_events().update(old(self).spec_events().len() - 1, event)
            } else {
                old(self).spec_events()
            },
    {
        if self.last_record_retained {
            let last = self.events.len() - 1;
            self.events.set(last, event);
        }
    }
}

impl<const N: usize> Default for BoundedRunSink<N> {
    fn default() -> (r: Self)
        ensures
            r.wf(),
            r.spec_events().len() == 0,
            r.spec_dropped() == 0,
            !r.spec_last_retained(),
    {
        BoundedRunSink { events: Vec::with_capacity(N), dropped: 0, last_record_retained: false }
    }
}

impl<const N: usize> DiagnosticSink for BoundedRunSink<N> {
    /// Keeps the event while fewer than `N` are kept; otherwise counts it.
    fn record(&mut self, event: RunEvent)
        ensures
            old(self).wf() ==> final(self).wf(),
            old(self).spec_events().len() < N ==> final(self).spec_events() == old(self).spec_events().push(event)
                && final(self).spec_dropped() == old(self).spec_dropped() && final(self).spec_last_retained(),
            old(self).spec_events().len() >= N ==> final(self).spec_events() == old(self).spec_events()
                && final(self).spec_dropped() == if old(self).spec_dropped() < usize::MAX {
                (old(self).spec_dropped() + 1) as usize
            } else {
                usize::MAX
            } && !final(self).spec_last_retained(),
    {
        if self.events.len() < N {
            self.events.push(event);
            self.last_record_retained = true;
        } else {
            self.dropped = self.dropped.saturating_add(1);
            self.last_record_retained = false;
        }
    }
}

/// Recording one more event keeps the sink equal to its model: the first
/// `N` events of the cycle stay, in order, and every later event is counted.
pub proof fn lemma_sink_keeps_prefix<const N: usize>(
    before: Seq<RunEvent>,
    dropped: nat,
    evs: Seq<RunEvent>,
    e: RunEvent,
    after: Seq<RunEvent>,
    dropped_after: nat,
)
    requires
        (before, dropped) == sink_model(N as nat, evs),
        before.len() < N ==> after == before.push(e) && dropped_after == dropped,
        before.len() >= N ==> after == before && dropped_after == dropped + 1,
    ensures
        (after, dropped_after) == sink_model(N as nat, evs.push(e)),
{
    if evs.len() < N {
        assert(after =~= evs.push(e));
    } else if evs.len() == N {
        assert(evs.push(e).take(N as int) =~= evs);
    } else {
        assert(evs.push(e).take(N as int) =~= evs.take(N as int));
    }
}

} // verus!
