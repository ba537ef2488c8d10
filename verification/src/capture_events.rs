//! Passive observations recorded from one capture session.

use vstd::prelude::*;
use vstd::string::StringSliceAdditionalSpecFns;

use crate::text::owned;

verus! {

/// Relative capture time in integer microseconds.
pub type CaptureTimeUs = u64;

/// The monotonic offsets associated with one diagnostic read.
///
/// A duration is not stored: `finished_us - started_us` can be derived by a
/// consumer without creating another value that can disagree.
#[derive(Clone, Copy, Debug, PartialEq, Eq, Structural)]
pub struct ReadTiming {
    pub due_us: CaptureTimeUs,
    pub started_us: CaptureTimeUs,
    pub finished_us: CaptureTimeUs,
}

impl ReadTiming {
    pub fn new(due_us: CaptureTimeUs, started_us: CaptureTimeUs, finished_us: CaptureTimeUs) -> (r:
        Self)
        ensures
            r == (ReadTiming { due_us, started_us, finished_us }),
    {
        Self { due_us, started_us, finished_us }
    }

    /// The read was started no earlier than due and finished no earlier than
    /// started.
    pub fn is_monotonic(self) -> (r: bool)
        ensures
            r == (self.due_us <= self.started_us && self.started_us <= self.finished_us),
    {
        self.due_us <= self.started_us && self.started_us <= self.finished_us
    }
}

/// One responder/payload pair preserved for offline re-analysis. The
/// responder string is an adapter-level identity, not an asserted CAN ID.
#[derive(Clone, Debug, PartialEq, Eq)]
pub struct ResponderEvidence {
    pub responder: Option<String>,
    pub payload: Vec<u8>,
}

/// The model of responder evidence.
pub struct ResponderEvidenceView {
    pub responder: Option<Seq<char>>,
    pub payload: Seq<u8>,
}

impl View for ResponderEvidence {
    type V = ResponderEvidenceView;

    open spec fn view(&self) -> ResponderEvidenceView {
        ResponderEvidenceView {
            responder: match self.responder {
                Some(r) => Some(r@),
                None => None,
            },
            payload: self.payload@,
        }
    }
}

impl ResponderEvidence {
    /// Evidence always carries a payload.
    pub fn new(responder: Option<String>, payload: Vec<u8>) -> (r: Result<Self, String>)
        ensures
            payload@.len() == 0 <==> r is Err,
            r matches Err(message) ==> message@ == "responder evidence payload must not be empty"@,
            r matches Ok(evidence) ==> evidence == (ResponderEvidence { responder, payload }),
    {
        if payload.len() == 0 {
            return Err(owned("responder evidence payload must not be empty"));
        }
        Ok(Self { responder, payload })
    }

    /// A copy of this evidence.
    pub fn duplicate(&self) -> (r: Self)
        ensures
            r@ == self@,
    {
        let responder = match &self.responder {
            Some(responder) => Some(responder.clone()),
            None => None,
        };
        Self { responder, payload: self.payload.clone() }
    }
}

/// The deterministic result of applying session support knowledge to a
/// requested capture subscription.
#[derive(Clone, Copy, Debug, PartialEq, Eq, Structural)]
pub enum SubscriptionFilterOutcome {
    Scheduled,
    Unsupported,
    Unknown,
}

/// One requested subscription and its deterministic support-filter result.
#[derive(Clone, Debug, PartialEq, Eq)]
pub struct CaptureSubscription {
    semantic: String,
    requested_interval_us: CaptureTimeUs,
    filter: SubscriptionFilterOutcome,
}

/// The model of a configured subscription.
pub struct CaptureSubscriptionView {
    pub semantic: Seq<char>,
    pub requested_interval_us: CaptureTimeUs,
    pub filter: SubscriptionFilterOutcome,
}

impl View for CaptureSubscription {
    type V = CaptureSubscriptionView;

    closed spec fn view(&self) -> CaptureSubscriptionView {
        CaptureSubscriptionView {
            semantic: self.semantic@,
            requested_interval_us: self.requested_interval_us,
            filter: self.filter,
        }
    }
}

impl CaptureSubscription {
    pub fn new(semantic: &str, requested_interval_us: CaptureTimeUs, filter: SubscriptionFilterOutcome) -> (r:
        Self)
        ensures
            r@ == (CaptureSubscriptionView { semantic: semantic@, requested_interval_us, filter }),
    {
        Self { semantic: owned(semantic), requested_interval_us, filter }
    }

    pub fn semantic(&self) -> (r: &str)
        ensures
            r@ == self@.semantic,
    {
        self.semantic.as_str()
    }

    pub fn requested_interval_us(&self) -> (r: CaptureTimeUs)
        ensures
            r == self@.requested_interval_us,
    {
        self.requested_interval_us
    }

    pub fn filter(&self) -> (r: SubscriptionFilterOutcome)
        ensures
            r == self@.filter,
    {
        self.filter
    }
}

/// Per-step status retained in diagnostic-job audit records.
///
/// `Skipped` is used for the deterministic suffix that follows cancellation;
/// a fatal session stops the remaining steps, and they are recorded as
/// skipped when their planned outcomes are emitted.
#[derive(Clone, Copy, Debug, Eq, Hash, Ord, PartialEq, PartialOrd, Structural)]
pub enum DiagnosticJobStepStatus {
    Success,
    Recoverable,
    Fatal,
    Skipped,
}

/// The text of a step status.
pub open spec fn step_status_text(status: DiagnosticJobStepStatus) -> Seq<char> {
    match status {
        DiagnosticJobStepStatus::Success => "success"@,
        DiagnosticJobStepStatus::Recoverable => "recoverable"@,
        DiagnosticJobStepStatus::Fatal => "fatal"@,
        DiagnosticJobStepStatus::Skipped => "skipped"@,
    }
}

impl DiagnosticJobStepStatus {
    pub fn as_str(self) -> (r: &'static str)
        ensures
            r@ == step_status_text(self),
    {
        match self {
            DiagnosticJobStepStatus::Success => "success",
            DiagnosticJobStepStatus::Recoverable => "recoverable",
            DiagnosticJobStepStatus::Fatal => "fatal",
            DiagnosticJobStepStatus::Skipped => "skipped",
        }
    }
}

pub const MAX_DIAGNOSTIC_JOB_ID_LEN: usize = 64;

pub const MAX_DIAGNOSTIC_SOURCE_LEN: usize = 64;

pub const MAX_DIAGNOSTIC_ERROR_LEN: usize = 256;

pub const MAX_DIAGNOSTIC_MODE: u8 = 0x7f;


/// Some character of a text is a control character.
pub open spec fn has_control_char(s: Seq<char>) -> bool {
    exists|i: int| 0 <= i < s.len() && crate::text::is_control_spec(#[trigger] s[i])
}

fn has_control_exec(value: &str) -> (r: bool)
    ensures
        r == has_control_char(value@),
{
    let chars = crate::text::chars_of(value);
    let mut i: usize = 0;
    while i < chars.len()
        invariant
            i <= chars@.len(),
            chars@ == value@,
            forall|j: int| 0 <= j < i ==> !crate::text::is_control_spec(#[trigger] chars@[j]),
        decreases chars@.len() - i,
    {
        if crate::text::is_control(chars[i]) {
            return true;
        }
        i += 1;
    }
    false
}

/// Why a diagnostic text is refused: blank, longer than `max_len` bytes of
/// UTF-8, or holding a control character; `None` when it is accepted.
pub open spec fn text_rejection(label: Seq<char>, value: Seq<char>, byte_len: nat, max_len: nat) -> Option<
    Seq<char>,
> {
    if crate::text::is_blank_spec(value) {
        Some("diagnostic "@ + label + " must not be empty"@)
    } else if byte_len > max_len {
        Some("diagnostic "@ + label + " exceeds "@ + crate::text::decimal(max_len) + " bytes"@)
    } else if has_control_char(value) {
        Some("diagnostic "@ + label + " must not contain control characters"@)
    } else {
        None
    }
}

/// The outcome of checking a diagnostic text.
pub open spec fn checked_text(result: Result<(), String>, rejection: Option<Seq<char>>) -> bool {
    match rejection {
        None => result is Ok,
        Some(reason) => (result matches Err(message) && message@ == reason),
    }
}

/// Bounded diagnostic text: not blank, at most `max_len` bytes of UTF-8,
/// and free of control characters.
pub fn validate_diagnostic_text(label: &str, value: &str, max_len: usize) -> (r: Result<(), String>)
    ensures
        checked_text(r, text_rejection(label@, value@, value.spec_bytes().len(), max_len as nat)),
{
    let head = crate::text::concat("diagnostic ", label);
    if crate::text::is_blank(value) {
        return Err(crate::text::concat(head.as_str(), " must not be empty"));
    }
    if value.as_bytes().len() > max_len {
        let with_label = crate::text::concat(head.as_str(), " exceeds ");
        let limit = crate::text::decimal_text(max_len as u64);
        let middle = crate::text::concat(with_label.as_str(), limit.as_str());
        return Err(crate::text::concat(middle.as_str(), " bytes"));
    }
    if has_control_exec(value) {
        return Err(crate::text::concat(head.as_str(), " must not contain control characters"));
    }
    Ok(())
}

pub fn validate_diagnostic_job_id(value: &str) -> (r: Result<(), String>)
    ensures
        checked_text(r, text_rejection("job id"@, value@, value.spec_bytes().len(), MAX_DIAGNOSTIC_JOB_ID_LEN as nat)),
{
    validate_diagnostic_text("job id", value, MAX_DIAGNOSTIC_JOB_ID_LEN)
}

pub fn validate_diagnostic_source(value: Option<&str>) -> (r: Result<(), String>)
    ensures
        match value {
            None => r is Ok,
            Some(v) => checked_text(
                r,
                text_rejection("source"@, v@, v.spec_bytes().len(), MAX_DIAGNOSTIC_SOURCE_LEN as nat),
            ),
        },
{
    match value {
        None => Ok(()),
        Some(v) => validate_diagnostic_text("source", v, MAX_DIAGNOSTIC_SOURCE_LEN),
    }
}

pub fn validate_diagnostic_error(value: Option<&str>) -> (r: Result<(), String>)
    ensures
        match value {
            None => r is Ok,
            Some(v) => checked_text(
                r,
                text_rejection("error"@, v@, v.spec_bytes().len(), MAX_DIAGNOSTIC_ERROR_LEN as nat),
            ),
        },
{
    match value {
        None => Ok(()),
        Some(v) => validate_diagnostic_text("error", v, MAX_DIAGNOSTIC_ERROR_LEN),
    }
}

/// A diagnostic mode is a service byte from `0x01` to `0x7F`.
pub fn validate_diagnostic_mode(mode: u8) -> (r: Result<(), String>)
    ensures
        1 <= mode <= MAX_DIAGNOSTIC_MODE ==> r is Ok,
        !(1 <= mode <= MAX_DIAGNOSTIC_MODE) ==> (r matches Err(message) && message@
            == "diagnostic mode must be between 0x01 and 0x7F"@),
{
    if 1 <= mode && mode <= MAX_DIAGNOSTIC_MODE {
        Ok(())
    } else {
        Err(owned("diagnostic mode must be between 0x01 and 0x7F"))
    }
}

/// The stable name of a step error kind.
pub fn step_error_name(error: &crate::diagnostic_job::StepError) -> (r: &'static str)
    ensures
        r@ == match error {
            crate::diagnostic_job::StepError::Unsupported => "unsupported"@,
            crate::diagnostic_job::StepError::NegativeResponse => "negative_response"@,
            crate::diagnostic_job::StepError::Timeout => "timeout"@,
            crate::diagnostic_job::StepError::MalformedEvidence => "malformed_evidence"@,
            crate::diagnostic_job::StepError::Other(_) => "other"@,
        },
{
    match error {
        crate::diagnostic_job::StepError::Unsupported => "unsupported",
        crate::diagnostic_job::StepError::NegativeResponse => "negative_response",
        crate::diagnostic_job::StepError::Timeout => "timeout",
        crate::diagnostic_job::StepError::MalformedEvidence => "malformed_evidence",
        crate::diagnostic_job::StepError::Other(_) => "other",
    }
}

/// The stable name of a session error kind.
pub fn session_error_name(error: &crate::diagnostic_job::SessionError) -> (r: &'static str)
    ensures
        r@ == match error {
            crate::diagnostic_job::SessionError::Disconnected => "disconnected"@,
            crate::diagnostic_job::SessionError::Transport => "transport"@,
            crate::diagnostic_job::SessionError::Fault => "fault"@,
            crate::diagnostic_job::SessionError::Other(_) => "other"@,
        },
{
    match error {
        crate::diagnostic_job::SessionError::Disconnected => "disconnected",
        crate::diagnostic_job::SessionError::Transport => "transport",
        crate::diagnostic_job::SessionError::Fault => "fault",
        crate::diagnostic_job::SessionError::Other(_) => "other",
    }
}


/// A value recorded with a successful read. A number is kept as the JSON
/// numeral that records it, so the library holds it without floating point;
/// its double is read where floating point is at hand.
#[derive(Clone, Debug, PartialEq, Eq)]
pub enum CaptureValue {
    Number { numeral: String },
    Boolean(bool),
    Enum(String),
    Text(String),
    Unavailable { reason: String },
}

/// A closed vocabulary of passive observations from one capture session.
///
/// These values hold no transport handle and no operation that can issue a
/// diagnostic request. A writer consumes them in the order received.
#[derive(Clone, Debug, PartialEq, Eq)]
pub enum CaptureEvent {
    CaptureStarted { wallclock_ms: Option<u64>, profile: Option<String> },
    SessionInitialized,
    SubscriptionConfigured {
        semantic: String,
        requested_interval_us: CaptureTimeUs,
        filter: SubscriptionFilterOutcome,
    },
    SupportDiscovery { request_payload: Vec<u8>, responder: Option<String>, response_payload: Vec<u8> },
    /// Every normalized response before semantic selection, with the
    /// selected responder or the reason none was selected.
    ResponsesObserved {
        semantic: String,
        request_payload: Vec<u8>,
        responses: Vec<ResponderEvidence>,
        selected_responder: Option<String>,
        selection_error: Option<String>,
    },
    ReadSucceeded {
        semantic: String,
        requested_interval_us: CaptureTimeUs,
        due_us: CaptureTimeUs,
        started_us: CaptureTimeUs,
        finished_us: CaptureTimeUs,
        request_payload: Vec<u8>,
        response_payload: Vec<u8>,
        value: CaptureValue,
        unit: String,
        source: String,
        profile: String,
        decoder: String,
        provenance: String,
    },
    ReadFailed {
        semantic: String,
        requested_interval_us: CaptureTimeUs,
        timing: Option<ReadTiming>,
        request_payload: Option<Vec<u8>>,
        error: String,
    },
    SlotsSkipped { semantic: String, count: u64, first_due_us: CaptureTimeUs, last_due_us: CaptureTimeUs },
    SessionError { error: String },
    ShutdownRequested,
    SessionStopped { offset_us: CaptureTimeUs },
    DiagnosticJobStarted { job_id: String, model_version: u16, step_count: u64 },
    DiagnosticJobStep {
        job_id: String,
        step_sequence: u64,
        mode: u8,
        source: Option<String>,
        status: DiagnosticJobStepStatus,
        error: Option<String>,
    },
    DiagnosticJobCompleted { job_id: String, status: crate::diagnostic_job::JobStatus },
    DiagnosticJobFailed { job_id: String, error: String },
    DiagnosticJobCancelled { job_id: String },
}

/// Why an observed-responses event is refused, or `None`.
pub open spec fn observed_rejection(request_payload: Seq<u8>, responses: Seq<ResponderEvidence>) -> Option<
    Seq<char>,
> {
    if request_payload.len() == 0 {
        Some("observed response request payload must not be empty"@)
    } else if responses.len() == 0 {
        Some("observed response list must not be empty"@)
    } else if exists|i: int| 0 <= i < responses.len() && (#[trigger] responses[i]).payload@.len() == 0 {
        Some("observed response payload must not be empty"@)
    } else {
        None
    }
}

/// The characters of an optional text.
pub open spec fn text_view(text: Option<String>) -> Option<Seq<char>> {
    match text {
        Some(t) => Some(t@),
        None => None,
    }
}

/// Why a job step event is refused: the job id, the mode, the source and
/// the error are checked in turn; `None` when all are accepted.
pub open spec fn step_rejection(
    job_id: Seq<char>,
    mode: u8,
    source: Option<Seq<char>>,
    error: Option<Seq<char>>,
) -> Option<Seq<char>> {
    let id_check = text_rejection(
        "job id"@,
        job_id,
        vstd::utf8::encode_utf8(job_id).len(),
        MAX_DIAGNOSTIC_JOB_ID_LEN as nat,
    );
    if id_check is Some {
        id_check
    } else if !(1 <= mode <= MAX_DIAGNOSTIC_MODE) {
        Some("diagnostic mode must be between 0x01 and 0x7F"@)
    } else if source is Some && text_rejection(
        "source"@,
        source.unwrap(),
        vstd::utf8::encode_utf8(source.unwrap()).len(),
        MAX_DIAGNOSTIC_SOURCE_LEN as nat,
    ) is Some {
        text_rejection(
            "source"@,
            source.unwrap(),
            vstd::utf8::encode_utf8(source.unwrap()).len(),
            MAX_DIAGNOSTIC_SOURCE_LEN as nat,
        )
    } else if error is Some {
        text_rejection(
            "error"@,
            error.unwrap(),
            vstd::utf8::encode_utf8(error.unwrap()).len(),
            MAX_DIAGNOSTIC_ERROR_LEN as nat,
        )
    } else {
        None
    }
}

impl CaptureEvent {
    pub fn capture_started(wallclock_ms: Option<u64>, profile: Option<String>) -> (r: Self)
        ensures
            r == (CaptureEvent::CaptureStarted { wallclock_ms, profile }),
    {
        CaptureEvent::CaptureStarted { wallclock_ms, profile }
    }

    pub fn subscription_configured(
        semantic: String,
        requested_interval_us: CaptureTimeUs,
        filter: SubscriptionFilterOutcome,
    ) -> (r: Self)
        ensures
            r == (CaptureEvent::SubscriptionConfigured { semantic, requested_interval_us, filter }),
    {
        CaptureEvent::SubscriptionConfigured { semantic, requested_interval_us, filter }
    }

    pub fn support_discovery(request_payload: Vec<u8>, response_payload: Vec<u8>) -> (r: Self)
        ensures
            r == (CaptureEvent::SupportDiscovery { request_payload, responder: None, response_payload }),
    {
        Self::support_discovery_with_responder(request_payload, None, response_payload)
    }

    pub fn support_discovery_with_responder(
        request_payload: Vec<u8>,
        responder: Option<String>,
        response_payload: Vec<u8>,
    ) -> (r: Self)
        ensures
            r == (CaptureEvent::SupportDiscovery { request_payload, responder, response_payload }),
    {
        CaptureEvent::SupportDiscovery { request_payload, responder, response_payload }
    }

    /// Every response before selection; the request and each payload must
    /// be non-empty, and at least one response must be present.
    pub fn responses_observed(
        semantic: String,
        request_payload: Vec<u8>,
        responses: Vec<ResponderEvidence>,
        selected_responder: Option<String>,
        selection_error: Option<String>,
    ) -> (r: Result<Self, String>)
        ensures
            match observed_rejection(request_payload@, responses@) {
                Some(reason) => (r matches Err(message) && message@ == reason),
                None => r == Ok::<Self, String>(
                    CaptureEvent::ResponsesObserved {
                        semantic,
                        request_payload,
                        responses,
                        selected_responder,
                        selection_error,
                    },
                ),
            },
    {
        if request_payload.len() == 0 {
            return Err(owned("observed response request payload must not be empty"));
        }
        if responses.len() == 0 {
            return Err(owned("observed response list must not be empty"));
        }
        let mut i: usize = 0;
        while i < responses.len()
            invariant
                i <= responses@.len(),
                request_payload@.len() > 0,
                responses@.len() > 0,
                forall|j: int| 0 <= j < i ==> (#[trigger] responses@[j]).payload@.len() > 0,
            decreases responses@.len() - i,
        {
            if responses[i].payload.len() == 0 {
                assert(responses@[i as int].payload@.len() == 0);
                return Err(owned("observed response payload must not be empty"));
            }
            i += 1;
        }
        Ok(CaptureEvent::ResponsesObserved {
            semantic,
            request_payload,
            responses,
            selected_responder,
            selection_error,
        })
    }

    /// An explicit failed read; `None` for the request is a failure before
    /// a request was prepared.
    pub fn read_failed(
        semantic: String,
        requested_interval_us: CaptureTimeUs,
        timing: Option<ReadTiming>,
        request_payload: Option<Vec<u8>>,
        error: String,
    ) -> (r: Self)
        ensures
            r == (CaptureEvent::ReadFailed { semantic, requested_interval_us, timing, request_payload, error }),
    {
        CaptureEvent::ReadFailed { semantic, requested_interval_us, timing, request_payload, error }
    }

    pub fn slots_skipped(semantic: String, count: u64, first_due_us: CaptureTimeUs, last_due_us: CaptureTimeUs) -> (r:
        Self)
        ensures
            r == (CaptureEvent::SlotsSkipped { semantic, count, first_due_us, last_due_us }),
    {
        CaptureEvent::SlotsSkipped { semantic, count, first_due_us, last_due_us }
    }

    pub fn session_error(error: String) -> (r: Self)
        ensures
            r == (CaptureEvent::SessionError { error }),
    {
        CaptureEvent::SessionError { error }
    }

    /// One bounded step outcome; the job id, mode, source and error are
    /// checked as diagnostic text first.
    pub fn diagnostic_job_step(
        job_id: String,
        step_sequence: u64,
        mode: u8,
        source: Option<String>,
        status: DiagnosticJobStepStatus,
        error: Option<String>,
    ) -> (r: Result<Self, String>)
        ensures
            step_rejection(job_id@, mode, text_view(source), text_view(error)) is None ==> r == Ok::<
                Self,
                String,
            >(CaptureEvent::DiagnosticJobStep { job_id, step_sequence, mode, source, status, error }),
            step_rejection(job_id@, mode, text_view(source), text_view(error)) matches Some(reason) ==> (
            r matches Err(message) && message@ == reason),
    {
        match validate_diagnostic_job_id(job_id.as_str()) {
            Ok(()) => {},
            Err(e) => {
                return Err(e);
            },
        }
        match validate_diagnostic_mode(mode) {
            Ok(()) => {},
            Err(e) => {
                return Err(e);
            },
        }
        let checked_source = match &source {
            Some(text) => validate_diagnostic_source(Some(text.as_str())),
            None => Ok(()),
        };
        match checked_source {
            Ok(()) => {},
            Err(e) => {
                return Err(e);
            },
        }
        let checked_error = match &error {
            Some(text) => validate_diagnostic_error(Some(text.as_str())),
            None => Ok(()),
        };
        match checked_error {
            Ok(()) => {},
            Err(e) => {
                return Err(e);
            },
        }
        Ok(CaptureEvent::DiagnosticJobStep { job_id, step_sequence, mode, source, status, error })
    }

    pub fn diagnostic_job_failed(job_id: String, error: String) -> (r: Self)
        ensures
            r == (CaptureEvent::DiagnosticJobFailed { job_id, error }),
    {
        CaptureEvent::DiagnosticJobFailed { job_id, error }
    }

    pub fn diagnostic_job_cancelled(job_id: String) -> (r: Self)
        ensures
            r == (CaptureEvent::DiagnosticJobCancelled { job_id }),
    {
        CaptureEvent::DiagnosticJobCancelled { job_id }
    }
}

/// The stable name of a step error kind.
pub open spec fn step_error_text(error: crate::diagnostic_job::StepError) -> Seq<char> {
    match error {
        crate::diagnostic_job::StepError::Unsupported => "unsupported"@,
        crate::diagnostic_job::StepError::NegativeResponse => "negative_response"@,
        crate::diagnostic_job::StepError::Timeout => "timeout"@,
        crate::diagnostic_job::StepError::MalformedEvidence => "malformed_evidence"@,
        crate::diagnostic_job::StepError::Other(_) => "other"@,
    }
}

/// The stable name of a session error kind.
pub open spec fn session_error_text(error: crate::diagnostic_job::SessionError) -> Seq<char> {
    match error {
        crate::diagnostic_job::SessionError::Disconnected => "disconnected"@,
        crate::diagnostic_job::SessionError::Transport => "transport"@,
        crate::diagnostic_job::SessionError::Fault => "fault"@,
        crate::diagnostic_job::SessionError::Other(_) => "other"@,
    }
}

/// The status and error text a step outcome is recorded with.
pub open spec fn outcome_record(outcome: crate::diagnostic_job::StepOutcome) -> (
    DiagnosticJobStepStatus,
    Option<Seq<char>>,
) {
    match outcome {
        crate::diagnostic_job::StepOutcome::Succeeded { .. } => (DiagnosticJobStepStatus::Success, None),
        crate::diagnostic_job::StepOutcome::RecoverableError { error, .. } => (
            DiagnosticJobStepStatus::Recoverable,
            Some(step_error_text(error)),
        ),
        crate::diagnostic_job::StepOutcome::NotRun {
            reason: crate::diagnostic_job::SkipReason::SessionFailed,
        } => (DiagnosticJobStepStatus::Skipped, Some("session_failed"@)),
        crate::diagnostic_job::StepOutcome::NotRun {
            reason: crate::diagnostic_job::SkipReason::Cancelled,
        } => (DiagnosticJobStepStatus::Skipped, Some("cancelled"@)),
    }
}

/// A status a finished job can be recorded as completed with.
pub open spec fn is_completed(status: crate::diagnostic_job::JobStatus) -> bool {
    status == crate::diagnostic_job::JobStatus::Completed || status
        == crate::diagnostic_job::JobStatus::CompletedWithErrors
}

impl CaptureEvent {
    /// The start of a job: its id, model version and number of steps.
    pub fn diagnostic_job_started_from_plan(plan: &crate::diagnostic_job::JobPlan) -> (r: Self)
        ensures
            r matches CaptureEvent::DiagnosticJobStarted { job_id, model_version, step_count } && job_id@
                == crate::diagnostic_job::job_id_text(plan@.id) && model_version == plan@.model_version
                && step_count == plan@.steps.len(),
    {
        let steps = plan.steps();
        proof {
            assert(crate::order::models(steps@).len() == steps@.len());
        }
        CaptureEvent::DiagnosticJobStarted {
            job_id: owned(plan.id().id()),
            model_version: plan.model_version(),
            step_count: steps.len() as u64,
        }
    }

    pub fn diagnostic_job_started(job: &crate::diagnostic_job::DiagnosticJob) -> (r: Self)
        ensures
            r matches CaptureEvent::DiagnosticJobStarted { job_id, model_version, step_count } && job_id@
                == crate::diagnostic_job::job_id_text(crate::diagnostic_job::plan_of(job@).id)
                && model_version == crate::diagnostic_job::plan_of(job@).model_version && step_count
                == crate::diagnostic_job::plan_of(job@).steps.len(),
    {
        let plan = job.plan();
        Self::diagnostic_job_started_from_plan(&plan)
    }

    /// One step outcome of a job as privacy-safe capture metadata: its
    /// status and the name of its error, never its evidence.
    pub fn diagnostic_job_step_outcome(
        job: &crate::diagnostic_job::DiagnosticJob,
        step: &crate::diagnostic_job::JobStep,
        mode: u8,
        source: Option<String>,
        outcome: &crate::diagnostic_job::StepOutcome,
    ) -> (r: Result<Self, String>)
        ensures
            ({
                let (status, error) = outcome_record(*outcome);
                match step_rejection(
                    crate::diagnostic_job::job_id_text(job@.id),
                    mode,
                    text_view(source),
                    error,
                ) {
                    None => (r matches Ok(
                        CaptureEvent::DiagnosticJobStep {
                            job_id,
                            step_sequence,
                            mode: m,
                            source: s,
                            status: st,
                            error: e,
                        },
                    ) && job_id@ == crate::diagnostic_job::job_id_text(job@.id) && step_sequence
                        == step@.sequence && m == mode && s == source && st == status && text_view(e)
                        == error),
                    Some(reason) => (r matches Err(message) && message@ == reason),
                }
            }),
    {
        let (status, error): (DiagnosticJobStepStatus, Option<String>) = match outcome {
            crate::diagnostic_job::StepOutcome::Succeeded { .. } => (DiagnosticJobStepStatus::Success, None),
            crate::diagnostic_job::StepOutcome::RecoverableError { error, .. } => (
                DiagnosticJobStepStatus::Recoverable,
                Some(owned(step_error_name(error))),
            ),
            crate::diagnostic_job::StepOutcome::NotRun {
                reason: crate::diagnostic_job::SkipReason::SessionFailed,
            } => (DiagnosticJobStepStatus::Skipped, Some(owned("session_failed"))),
            crate::diagnostic_job::StepOutcome::NotRun {
                reason: crate::diagnostic_job::SkipReason::Cancelled,
            } => (DiagnosticJobStepStatus::Skipped, Some(owned("cancelled"))),
        };
        let job_id = owned(job.id().id());
        let sequence = step.sequence() as u64;
        Self::diagnostic_job_step(job_id, sequence, mode, source, status, error)
    }

    /// A completed job; a result that did not complete is refused.
    pub fn diagnostic_job_completed(result: &crate::diagnostic_job::JobResult) -> (r: Result<Self, String>)
        ensures
            is_completed(result@.status) ==> (r matches Ok(
                CaptureEvent::DiagnosticJobCompleted { job_id, status },
            ) && job_id@ == crate::diagnostic_job::job_id_text(result@.id) && status == result@.status),
            !is_completed(result@.status) ==> (r matches Err(message) && message@
                == "diagnostic job result is not completed: "@ + crate::diagnostic_job::status_text(
                result@.status,
            )),
    {
        let status = result.status();
        match status {
            crate::diagnostic_job::JobStatus::Completed
            | crate::diagnostic_job::JobStatus::CompletedWithErrors => Ok(
                CaptureEvent::DiagnosticJobCompleted { job_id: owned(result.id().id()), status },
            ),
            _ => Err(crate::text::concat("diagnostic job result is not completed: ", status.as_str())),
        }
    }

    /// The terminal event of a job: completed, failed with the name of its
    /// session error, or cancelled; a result still planned or running is
    /// refused.
    pub fn diagnostic_job_terminal(result: &crate::diagnostic_job::JobResult) -> (r: Result<Self, String>)
        ensures
            is_completed(result@.status) ==> (r matches Ok(
                CaptureEvent::DiagnosticJobCompleted { job_id, status },
            ) && job_id@ == crate::diagnostic_job::job_id_text(result@.id) && status == result@.status),
            result@.status == crate::diagnostic_job::JobStatus::Failed ==> (r matches Ok(
                CaptureEvent::DiagnosticJobFailed { job_id, error },
            ) && job_id@ == crate::diagnostic_job::job_id_text(result@.id) && error@ == match result@.session_error {
                Some(e) => session_error_text(e),
                None => "session_failed"@,
            }),
            result@.status == crate::diagnostic_job::JobStatus::Cancelled ==> (r matches Ok(
                CaptureEvent::DiagnosticJobCancelled { job_id },
            ) && job_id@ == crate::diagnostic_job::job_id_text(result@.id)),
            (result@.status == crate::diagnostic_job::JobStatus::Planned || result@.status
                == crate::diagnostic_job::JobStatus::Running) ==> (r matches Err(message) && message@
                == "diagnostic job result is not terminal: "@ + crate::diagnostic_job::status_text(
                result@.status,
            )),
    {
        let status = result.status();
        match status {
            crate::diagnostic_job::JobStatus::Completed
            | crate::diagnostic_job::JobStatus::CompletedWithErrors => Self::diagnostic_job_completed(result),
            crate::diagnostic_job::JobStatus::Failed => {
                let error = match result.session_error() {
                    Some(e) => session_error_name(e),
                    None => "session_failed",
                };
                Ok(CaptureEvent::DiagnosticJobFailed { job_id: owned(result.id().id()), error: owned(error) })
            },
            crate::diagnostic_job::JobStatus::Cancelled => Ok(
                CaptureEvent::DiagnosticJobCancelled { job_id: owned(result.id().id()) },
            ),
            _ => Err(crate::text::concat("diagnostic job result is not terminal: ", status.as_str())),
        }
    }
}

} // verus!
