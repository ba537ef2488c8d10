//! The decisions of a live Bluetooth diagnostic session: how fast it may be
//! driven, and when repeated transport failures make it unhealthy.
//!
//! Durations are carried as whole nanoseconds.

use vstd::prelude::*;

use crate::capability::{CapabilityProvenance, CapabilityView, HardwareCapability};
use crate::text::{concat, contains_str, has_substring, occurs_at, owned, starts_with_str};

verus! {

/// Two consecutive transport failures stop a live session; data failures
/// reset the count.
pub const TRANSPORT_FAILURE_THRESHOLD: u8 = 2;

/// The prefix of the error that marks a session as unhealthy.
pub const SESSION_UNHEALTHY_PREFIX: &'static str =
    "diagnostic session became unresponsive after repeated transport failures";

/// Nanoseconds in one second.
pub const NANOS_PER_SECOND: u64 = 1_000_000_000;

/// The representative latency used before any read completed: 250 ms.
pub const DEFAULT_READ_LATENCY_NS: u64 = 250_000_000;

/// The reads per second a service time allows: at least one, and one
/// second divided by the service time (rounded down) otherwise.
pub open spec fn budget_for(service_time_ns: u64) -> u32 {
    let nanos = if service_time_ns == 0 {
        1
    } else {
        service_time_ns as int
    };
    let budget = NANOS_PER_SECOND as int / nanos;
    if budget < 1 {
        1
    } else {
        budget as u32
    }
}

/// The request budget a service time allows.
pub fn request_budget_for(service_time_ns: u64) -> (r: u32)
    ensures
        r == budget_for(service_time_ns),
        r >= 1,
{
    let nanos = if service_time_ns == 0 {
        1
    } else {
        service_time_ns
    };
    let budget = NANOS_PER_SECOND / nanos;
    assert(budget <= NANOS_PER_SECOND) by (nonlinear_arith)
        requires
            nanos >= 1,
            budget == NANOS_PER_SECOND / nanos,
    ;
    if budget < 1 {
        1
    } else {
        budget as u32
    }
}

/// Conservative, bounded session estimate. Keeping only the slowest completed
/// request makes the budget deterministic and errs toward under-booking.
#[derive(Clone, Copy, Debug, PartialEq, Eq, Structural)]
pub struct RequestServiceEstimator {
    maximum_service_time_ns: Option<u64>,
}

impl RequestServiceEstimator {
    pub closed spec fn spec_maximum(self) -> Option<u64> {
        self.maximum_service_time_ns
    }

    /// No completed read yet.
    pub fn new() -> (r: Self)
        ensures
            r.spec_maximum() is None,
    {
        Self { maximum_service_time_ns: None }
    }

    /// Account for one completed read; a zero service time counts as one
    /// nanosecond.
    pub fn observe(&mut self, service_time_ns: u64)
        ensures
            ({
                let observed = if service_time_ns == 0 {
                    1
                } else {
                    service_time_ns
                };
                final(self).spec_maximum() == Some(
                    match old(self).spec_maximum() {
                        Some(maximum) => if maximum >= observed {
                            maximum
                        } else {
                            observed
                        },
                        None => observed,
                    },
                )
            }),
    {
        let observed = if service_time_ns == 0 {
            1
        } else {
            service_time_ns
        };
        self.maximum_service_time_ns = Some(
            match self.maximum_service_time_ns {
                Some(maximum) => if maximum >= observed {
                    maximum
                } else {
                    observed
                },
                None => observed,
            },
        );
    }

    /// The capability the slowest completed read supports, or the built-in
    /// default before any read completed.
    pub fn capability(self) -> (r: HardwareCapability)
        ensures
            match self.spec_maximum() {
                Some(latency) => latency > 0 ==> r@ == (CapabilityView {
                    request_budget_per_second: budget_for(latency),
                    representative_read_latency_ns: latency,
                    provenance: CapabilityProvenance::MeasuredFromCapture,
                }),
                None => r@ == (CapabilityView {
                    request_budget_per_second: budget_for(DEFAULT_READ_LATENCY_NS),
                    representative_read_latency_ns: DEFAULT_READ_LATENCY_NS,
                    provenance: CapabilityProvenance::BuiltInDefault,
                }),
            },
    {
        let (latency, provenance) = match self.maximum_service_time_ns {
            Some(latency) => (latency, CapabilityProvenance::MeasuredFromCapture),
            None => (DEFAULT_READ_LATENCY_NS, CapabilityProvenance::BuiltInDefault),
        };
        let latency = if latency == 0 {
            1
        } else {
            latency
        };
        let budget = request_budget_for(latency);
        match HardwareCapability::new(budget, latency, provenance) {
            Ok(capability) => capability,
            Err(_) => {
                proof {
                    assert(false);
                }
                HardwareCapability::conservative_default()
            },
        }
    }
}

impl Default for RequestServiceEstimator {
    fn default() -> (r: Self)
        ensures
            r.spec_maximum() is None,
    {
        Self::new()
    }
}

/// The markers of a transport failure.
pub open spec fn transport_markers() -> Seq<Seq<char>> {
    seq![
        "Carly write timed out:"@,
        "Carly write failed:"@,
        "Carly command timed out:"@,
        "Carly notification stream ended"@,
        "diagnostic session is closed"@,
        "diagnostic session stopped before responding"@,
    ]
}

/// An error is a transport failure when it holds one of the markers.
pub open spec fn is_transport_failure_spec(error: Seq<char>) -> bool {
    exists|i: int| 0 <= i < 6 && #[trigger] has_substring(error, transport_markers()[i])
}

/// Whether an error reports a failure of the transport itself.
pub fn is_transport_failure(error: &str) -> (r: bool)
    ensures
        r == is_transport_failure_spec(error@),
{
    let markers: [&'static str; 6] = [
        "Carly write timed out:",
        "Carly write failed:",
        "Carly command timed out:",
        "Carly notification stream ended",
        "diagnostic session is closed",
        "diagnostic session stopped before responding",
    ];
    let mut i: usize = 0;
    while i < 6
        invariant
            i <= 6,
            forall|j: int| 0 <= j < 6 ==> #[trigger] markers@[j]@ == transport_markers()[j],
            forall|j: int| 0 <= j < i ==> !#[trigger] has_substring(error@, transport_markers()[j]),
        decreases 6 - i,
    {
        if contains_str(error, markers[i]) {
            assert(has_substring(error@, transport_markers()[i as int]));
            return true;
        }
        i += 1;
    }
    false
}

/// Whether an error is the one that marks a session as unhealthy.
pub fn is_session_unhealthy(error: &str) -> (r: bool)
    ensures
        r == occurs_at(error@, SESSION_UNHEALTHY_PREFIX@, 0),
{
    starts_with_str(error, SESSION_UNHEALTHY_PREFIX)
}

/// Transport health of one live session.
pub struct SessionHealth {
    consecutive_transport_failures: u8,
    unhealthy: Option<String>,
}

/// The model of session health: the count of consecutive transport failures
/// and, once unhealthy, the error that made it so.
pub struct SessionHealthView {
    pub consecutive_transport_failures: u8,
    pub unhealthy: Option<Seq<char>>,
}

impl View for SessionHealth {
    type V = SessionHealthView;

    closed spec fn view(&self) -> SessionHealthView {
        SessionHealthView {
            consecutive_transport_failures: self.consecutive_transport_failures,
            unhealthy: match self.unhealthy {
                Some(error) => Some(error@),
                None => None,
            },
        }
    }
}

impl SessionHealth {
    /// A healthy session with no failure counted.
    pub fn new() -> (r: Self)
        ensures
            r@ == (SessionHealthView { consecutive_transport_failures: 0, unhealthy: None }),
    {
        Self { consecutive_transport_failures: 0, unhealthy: None }
    }

    /// A completed exchange resets the failure count.
    pub fn success(&mut self)
        ensures
            final(self)@ == (SessionHealthView {
                consecutive_transport_failures: 0,
                unhealthy: old(self)@.unhealthy,
            }),
    {
        self.consecutive_transport_failures = 0;
    }

    /// Account for one failed exchange. Returns true only when this error
    /// crosses the fatal transport threshold; an unhealthy session stays as it
    /// is.
    pub fn observe(&mut self, error: &str) -> (r: bool)
        ensures
            old(self)@.unhealthy is Some ==> !r && final(self)@ == old(self)@,
            old(self)@.unhealthy is None && !is_transport_failure_spec(error@) ==> !r
                && final(self)@ == (SessionHealthView {
                consecutive_transport_failures: 0,
                unhealthy: None,
            }),
            old(self)@.unhealthy is None && is_transport_failure_spec(error@) ==> ({
                let count = if old(self)@.consecutive_transport_failures == u8::MAX {
                    u8::MAX
                } else {
                    (old(self)@.consecutive_transport_failures + 1) as u8
                };
                &&& final(self)@.consecutive_transport_failures == count
                &&& r == (count >= TRANSPORT_FAILURE_THRESHOLD)
                &&& count < TRANSPORT_FAILURE_THRESHOLD ==> final(self)@.unhealthy is None
                &&& count >= TRANSPORT_FAILURE_THRESHOLD ==> final(self)@.unhealthy == Some(
                    SESSION_UNHEALTHY_PREFIX@ + ": "@ + error@,
                )
            }),
    {
        if self.unhealthy.is_some() {
            return false;
        }
        if !is_transport_failure(error) {
            self.consecutive_transport_failures = 0;
            return false;
        }
        self.consecutive_transport_failures = self.consecutive_transport_failures.saturating_add(1);
        if self.consecutive_transport_failures < TRANSPORT_FAILURE_THRESHOLD {
            return false;
        }
        let head = concat(SESSION_UNHEALTHY_PREFIX, ": ");
        self.unhealthy = Some(concat(head.as_str(), error));
        true
    }

    /// The error that made the session unhealthy, if any.
    pub fn unhealthy(&self) -> (r: Option<&str>)
        ensures
            match self@.unhealthy {
                Some(error) => (r matches Some(e) && e@ == error),
                None => r is None,
            },
    {
        match &self.unhealthy {
            Some(error) => Some(error.as_str()),
            None => None,
        }
    }
}

impl Default for SessionHealth {
    fn default() -> (r: Self)
        ensures
            r@ == (SessionHealthView { consecutive_transport_failures: 0, unhealthy: None }),
    {
        Self::new()
    }
}


/// A slower completed read never raises the request budget, and the budget
/// is at least one read per second: the estimate errs toward under-booking.
pub proof fn law_slower_reads_never_raise_the_budget(faster_ns: u64, slower_ns: u64)
    requires
        faster_ns <= slower_ns,
    ensures
        budget_for(slower_ns) <= budget_for(faster_ns),
        budget_for(slower_ns) >= 1,
{
    let a: int = if faster_ns == 0 {
        1
    } else {
        faster_ns as int
    };
    let b: int = if slower_ns == 0 {
        1
    } else {
        slower_ns as int
    };
    let n = NANOS_PER_SECOND as int;
    assert(n / b <= n / a) by (nonlinear_arith)
        requires
            1 <= a <= b,
            n >= 0,
    ;
    assert(n / a <= n) by (nonlinear_arith)
        requires
            1 <= a,
            n >= 0,
    ;
}


/// The slowest service time after one more completed read.
pub open spec fn maximum_after(maximum: Option<u64>, service_time_ns: u64) -> Option<u64> {
    let observed = if service_time_ns == 0 {
        1
    } else {
        service_time_ns
    };
    Some(
        match maximum {
            Some(m) => if m >= observed {
                m
            } else {
                observed
            },
            None => observed,
        },
    )
}

/// The health after one failed exchange, and whether this failure crossed
/// the fatal threshold.
pub open spec fn health_after_failure(health: SessionHealthView, error: Seq<char>) -> (SessionHealthView, bool) {
    if health.unhealthy is Some {
        (health, false)
    } else if !is_transport_failure_spec(error) {
        (SessionHealthView { consecutive_transport_failures: 0, unhealthy: None }, false)
    } else {
        let count = if health.consecutive_transport_failures == u8::MAX {
            u8::MAX
        } else {
            (health.consecutive_transport_failures + 1) as u8
        };
        if count >= TRANSPORT_FAILURE_THRESHOLD {
            (
                SessionHealthView {
                    consecutive_transport_failures: count,
                    unhealthy: Some(SESSION_UNHEALTHY_PREFIX@ + ": "@ + error),
                },
                true,
            )
        } else {
            (SessionHealthView { consecutive_transport_failures: count, unhealthy: None }, false)
        }
    }
}

/// What the session answers for one request.
#[derive(Debug, PartialEq, Eq)]
pub enum ReadCompletion {
    /// The session was already unhealthy; the request was not answered.
    Refused(String),
    Succeeded,
    /// A recoverable failure, answered with its error.
    Failed(String),
    /// This failure made the session unhealthy: it is answered with the
    /// fatal error and the adapter must be disconnected.
    Fatal(String),
}

pub enum ReadCompletionView {
    Refused(Seq<char>),
    Succeeded,
    Failed(Seq<char>),
    Fatal(Seq<char>),
}

impl View for ReadCompletion {
    type V = ReadCompletionView;

    open spec fn view(&self) -> ReadCompletionView {
        match self {
            ReadCompletion::Refused(e) => ReadCompletionView::Refused(e@),
            ReadCompletion::Succeeded => ReadCompletionView::Succeeded,
            ReadCompletion::Failed(e) => ReadCompletionView::Failed(e@),
            ReadCompletion::Fatal(e) => ReadCompletionView::Fatal(e@),
        }
    }
}

/// The decisions of one session around its adapter exchanges: transport
/// health, the service-time estimate and whether the adapter was already
/// disconnected.
pub struct SessionState {
    health: SessionHealth,
    service: RequestServiceEstimator,
    disconnected: bool,
}

pub struct SessionStateView {
    pub health: SessionHealthView,
    pub maximum_service_time_ns: Option<u64>,
    pub disconnected: bool,
}

impl View for SessionState {
    type V = SessionStateView;

    closed spec fn view(&self) -> SessionStateView {
        SessionStateView {
            health: self.health@,
            maximum_service_time_ns: self.service.spec_maximum(),
            disconnected: self.disconnected,
        }
    }
}

/// The state after one exchange ended, and the answer owed for it.
pub open spec fn completion(state: SessionStateView, failure: Option<Seq<char>>, service_time_ns: u64) -> (
    SessionStateView,
    ReadCompletionView,
) {
    match state.health.unhealthy {
        Some(error) => (state, ReadCompletionView::Refused(error)),
        None => match failure {
            None => (
                SessionStateView {
                    health: SessionHealthView { consecutive_transport_failures: 0, unhealthy: None },
                    maximum_service_time_ns: maximum_after(state.maximum_service_time_ns, service_time_ns),
                    disconnected: state.disconnected,
                },
                ReadCompletionView::Succeeded,
            ),
            Some(error) => {
                let (health, crossed) = health_after_failure(state.health, error);
                if crossed {
                    (
                        SessionStateView { health, disconnected: true, ..state },
                        ReadCompletionView::Fatal(health.unhealthy.unwrap()),
                    )
                } else {
                    (
                        SessionStateView {
                            health,
                            maximum_service_time_ns: maximum_after(state.maximum_service_time_ns, service_time_ns),
                            disconnected: state.disconnected,
                        },
                        ReadCompletionView::Failed(error),
                    )
                }
            },
        },
    }
}

impl SessionState {
    /// A healthy, connected session with no completed read.
    pub fn new() -> (r: Self)
        ensures
            r@ == (SessionStateView {
                health: SessionHealthView { consecutive_transport_failures: 0, unhealthy: None },
                maximum_service_time_ns: None,
                disconnected: false,
            }),
    {
        Self { health: SessionHealth::new(), service: RequestServiceEstimator::new(), disconnected: false }
    }

    /// Whether a request may go to the adapter: an unhealthy session answers
    /// with the error that made it so, without an exchange.
    pub fn gate(&self) -> (r: Result<(), String>)
        ensures
            match self@.health.unhealthy {
                Some(error) => (r matches Err(e) && e@ == error),
                None => r is Ok,
            },
    {
        match self.health.unhealthy() {
            Some(error) => Err(owned(error)),
            None => Ok(()),
        }
    }

    /// Account for one finished exchange: `failure` is its error, if any,
    /// and `service_time_ns` how long it took.
    pub fn complete(&mut self, failure: Option<&str>, service_time_ns: u64) -> (r: ReadCompletion)
        ensures
            (final(self)@, r@) == completion(
                old(self)@,
                match failure {
                    Some(e) => Some(e@),
                    None => None,
                },
                service_time_ns,
            ),
    {
        if let Some(error) = self.health.unhealthy() {
            return ReadCompletion::Refused(owned(error));
        }
        match failure {
            None => {
                self.service.observe(service_time_ns);
                self.health.success();
                ReadCompletion::Succeeded
            },
            Some(error) => {
                if self.health.observe(error) {
                    let fatal = match self.health.unhealthy() {
                        Some(fatal) => owned(fatal),
                        None => {
                            proof {
                                assert(false);
                            }
                            owned(error)
                        },
                    };
                    self.disconnected = true;
                    ReadCompletion::Fatal(fatal)
                } else {
                    self.service.observe(service_time_ns);
                    ReadCompletion::Failed(owned(error))
                }
            },
        }
    }

    /// Whether stopping the session still has to disconnect the adapter.
    pub fn needs_disconnect(&self) -> (r: bool)
        ensures
            r == !self@.disconnected,
    {
        !self.disconnected
    }

    /// The adapter was disconnected.
    pub fn mark_disconnected(&mut self)
        ensures
            final(self)@ == (SessionStateView { disconnected: true, ..old(self)@ }),
    {
        self.disconnected = true;
    }

    /// The capability the completed reads support.
    pub fn capability(&self) -> (r: HardwareCapability)
        ensures
            match self@.maximum_service_time_ns {
                Some(latency) => latency > 0 ==> r@ == (CapabilityView {
                    request_budget_per_second: budget_for(latency),
                    representative_read_latency_ns: latency,
                    provenance: CapabilityProvenance::MeasuredFromCapture,
                }),
                None => r@ == (CapabilityView {
                    request_budget_per_second: budget_for(DEFAULT_READ_LATENCY_NS),
                    representative_read_latency_ns: DEFAULT_READ_LATENCY_NS,
                    provenance: CapabilityProvenance::BuiltInDefault,
                }),
            },
    {
        self.service.capability()
    }
}

/// One exchange outcome as session health sees it.
pub enum HealthEvent {
    Success,
    Failure(Seq<char>),
}

/// The outcome is a transport failure.
pub open spec fn is_transport_event(event: HealthEvent) -> bool {
    match event {
        HealthEvent::Failure(error) => is_transport_failure_spec(error),
        HealthEvent::Success => false,
    }
}

/// The error of a failed outcome; empty for a success.
pub open spec fn event_error(event: HealthEvent) -> Seq<char> {
    match event {
        HealthEvent::Failure(error) => error,
        HealthEvent::Success => Seq::empty(),
    }
}

/// The health after one outcome, and whether it made the session unhealthy.
pub open spec fn health_step(health: SessionHealthView, event: HealthEvent) -> (SessionHealthView, bool) {
    match event {
        HealthEvent::Success => (
            SessionHealthView { consecutive_transport_failures: 0, unhealthy: health.unhealthy },
            false,
        ),
        HealthEvent::Failure(error) => health_after_failure(health, error),
    }
}

/// The health of a session after a sequence of outcomes, from a new session.
pub open spec fn health_run(events: Seq<HealthEvent>) -> SessionHealthView
    decreases events.len(),
{
    if events.len() == 0 {
        SessionHealthView { consecutive_transport_failures: 0, unhealthy: None }
    } else {
        health_step(health_run(events.drop_last()), events.last()).0
    }
}

/// Whether the last outcome of the sequence made the session unhealthy.
pub open spec fn tripped_last(events: Seq<HealthEvent>) -> bool {
    events.len() > 0 && health_step(health_run(events.drop_last()), events.last()).1
}

/// How many outcomes of the sequence made the session unhealthy.
pub open spec fn trips(events: Seq<HealthEvent>) -> nat
    decreases events.len(),
{
    if events.len() == 0 {
        0
    } else {
        trips(events.drop_last()) + if tripped_last(events) {
            1nat
        } else {
            0nat
        }
    }
}

/// The number of transport failures that end the sequence.
pub open spec fn trailing_transport_failures(events: Seq<HealthEvent>) -> nat
    decreases events.len(),
{
    if events.len() > 0 && is_transport_event(events.last()) {
        trailing_transport_failures(events.drop_last()) + 1
    } else {
        0
    }
}

/// Over any sequence of outcomes from a new session: a session turns
/// unhealthy at most once, exactly when a second consecutive transport
/// failure arrives, and its error then names that failure; a healthy
/// session counts the transport failures that end the sequence.
pub proof fn law_two_consecutive_transport_failures_make_a_session_unhealthy_once(events: Seq<HealthEvent>)
    ensures
        trips(events) <= 1,
        health_run(events).unhealthy is Some <==> trips(events) == 1,
        health_run(events).unhealthy is None ==> health_run(events).consecutive_transport_failures
            == trailing_transport_failures(events) && trailing_transport_failures(events) < 2,
        tripped_last(events) <==> (events.len() > 0 && health_run(events.drop_last()).unhealthy is None
            && is_transport_event(events.last()) && trailing_transport_failures(events) == 2),
        tripped_last(events) ==> health_run(events).unhealthy == Some(
            SESSION_UNHEALTHY_PREFIX@ + ": "@ + event_error(events.last()),
        ),
    decreases events.len(),
{
    if events.len() > 0 {
        let rest = events.drop_last();
        law_two_consecutive_transport_failures_make_a_session_unhealthy_once(rest);
    }
}

/// Once a session is unhealthy, no later outcome changes why it is.
pub proof fn law_unhealthy_sessions_stay_unhealthy(events: Seq<HealthEvent>, i: int)
    requires
        0 <= i <= events.len(),
        health_run(events.take(i)).unhealthy is Some,
    ensures
        health_run(events).unhealthy == health_run(events.take(i)).unhealthy,
    decreases events.len(),
{
    if events.len() > i {
        let rest = events.drop_last();
        assert(rest.take(i) =~= events.take(i));
        law_unhealthy_sessions_stay_unhealthy(rest, i);
    } else {
        assert(events.take(i) =~= events);
    }
}

/// Once a session is unhealthy it stays so: every later exchange, whatever
/// its outcome, is refused with the same error and changes nothing.
pub proof fn law_unhealthy_sessions_refuse_every_later_request(
    state: SessionStateView,
    failure: Option<Seq<char>>,
    service_time_ns: u64,
)
    requires
        state.health.unhealthy is Some,
    ensures
        completion(state, failure, service_time_ns) == (state, ReadCompletionView::Refused(
            state.health.unhealthy.unwrap(),
        )),
{
}

/// A completed read's service time never makes the estimate faster: the
/// slowest service time seen only grows.
pub proof fn law_service_estimate_only_grows(state: SessionStateView, failure: Option<Seq<char>>, service_time_ns: u64)
    requires
        state.maximum_service_time_ns is Some,
    ensures
        completion(state, failure, service_time_ns).0.maximum_service_time_ns matches Some(m) && m
            >= state.maximum_service_time_ns.unwrap(),
{
}

} // verus!
