//! Bounded per-ECU identification discovery: how one identification read is
//! classified from what the expected responder answered. The decisions here
//! take already normalized answers; the exchange itself happens elsewhere.

use vstd::prelude::*;

use crate::elm::{error_views, response_views, DiagnosticResponses, ResponseErrorView, ResponseView};
use crate::elm_text::{ascii_upper, hex2, hex2_chars, to_upper};
use crate::text::{
    chars_eq, chars_of, concat, contains_str, has_substring, owned, string_from_chars,
};
use crate::topology::{ProtocolContext, ResponderIdentity, ResponderIdentityView, ResponderKind};

verus! {

/// The outcome of one identification read.
#[derive(Clone, Copy, Debug, PartialEq, Eq, Structural)]
pub enum IdentificationResultStatus {
    Supported,
    Unsupported,
    Unavailable,
    NegativeResponse,
    Malformed,
    Timeout,
    TransportError,
    NotProbed,
}

/// One answer to an identification read, with the responder that sent it.
pub struct IdentificationResponseEvidence {
    responder: Option<ResponderIdentity>,
    payload: Vec<u8>,
}

pub struct EvidenceView {
    pub responder: Option<ResponderIdentityView>,
    pub payload: Seq<u8>,
}

impl View for IdentificationResponseEvidence {
    type V = EvidenceView;

    closed spec fn view(&self) -> EvidenceView {
        EvidenceView {
            responder: match self.responder {
                Some(r) => Some(r@),
                None => None,
            },
            payload: self.payload@,
        }
    }
}

impl IdentificationResponseEvidence {
    pub fn new(responder: Option<ResponderIdentity>, payload: Vec<u8>) -> (r: Self)
        ensures
            r@ == (EvidenceView {
                responder: match responder {
                    Some(x) => Some(x@),
                    None => None,
                },
                payload: payload@,
            }),
    {
        Self { responder, payload }
    }

    pub fn responder(&self) -> (r: Option<&ResponderIdentity>)
        ensures
            match self@.responder {
                Some(v) => (r matches Some(x) && x@ == v),
                None => r is None,
            },
    {
        match &self.responder {
            Some(x) => Some(x),
            None => None,
        }
    }

    pub fn payload(&self) -> (r: &[u8])
        ensures
            r@ == self@.payload,
    {
        self.payload.as_slice()
    }
}

/// The record of one identification read of one ECU.
pub struct IdentificationObservation {
    expected_responder: ResponderIdentity,
    did: u16,
    status: IdentificationResultStatus,
    responses: Vec<IdentificationResponseEvidence>,
    nrc: Option<u8>,
    value: Option<Vec<u8>>,
    errors: Vec<String>,
}

pub struct ObservationView {
    pub expected_responder: ResponderIdentityView,
    pub did: u16,
    pub status: IdentificationResultStatus,
    pub responses: Seq<EvidenceView>,
    pub nrc: Option<u8>,
    pub value: Option<Seq<u8>>,
    pub errors: Seq<Seq<char>>,
}

pub open spec fn evidence_views(responses: Seq<IdentificationResponseEvidence>) -> Seq<EvidenceView> {
    responses.map_values(|e: IdentificationResponseEvidence| e@)
}

pub open spec fn texts_view(texts: Seq<String>) -> Seq<Seq<char>> {
    texts.map_values(|s: String| s@)
}

impl View for IdentificationObservation {
    type V = ObservationView;

    closed spec fn view(&self) -> ObservationView {
        ObservationView {
            expected_responder: self.expected_responder@,
            did: self.did,
            status: self.status,
            responses: evidence_views(self.responses@),
            nrc: self.nrc,
            value: match self.value {
                Some(v) => Some(v@),
                None => None,
            },
            errors: texts_view(self.errors@),
        }
    }
}

impl IdentificationObservation {
    pub fn expected_responder(&self) -> (r: &ResponderIdentity)
        ensures
            r@ == self@.expected_responder,
    {
        &self.expected_responder
    }

    pub fn did(&self) -> (r: u16)
        ensures
            r == self@.did,
    {
        self.did
    }

    /// The request of the read: UDS ReadDataByIdentifier of the DID.
    pub fn request_bytes(&self) -> (r: [u8; 3])
        ensures
            r@ == seq![0x22u8, (self@.did / 256) as u8, (self@.did % 256) as u8],
    {
        let r = [0x22u8, (self.did / 256) as u8, (self.did % 256) as u8];
        assert(r@ =~= seq![0x22u8, (self@.did / 256) as u8, (self@.did % 256) as u8]);
        r
    }

    pub fn status(&self) -> (r: IdentificationResultStatus)
        ensures
            r == self@.status,
    {
        self.status
    }

    pub fn responses(&self) -> (r: &[IdentificationResponseEvidence])
        ensures
            evidence_views(r@) == self@.responses,
    {
        self.responses.as_slice()
    }

    pub fn nrc(&self) -> (r: Option<u8>)
        ensures
            r == self@.nrc,
    {
        self.nrc
    }

    pub fn value(&self) -> (r: Option<&[u8]>)
        ensures
            match self@.value {
                Some(v) => (r matches Some(x) && x@ == v),
                None => r is None,
            },
    {
        match &self.value {
            Some(v) => Some(v.as_slice()),
            None => None,
        }
    }

    pub fn errors(&self) -> (r: &[String])
        ensures
            texts_view(r@) == self@.errors,
    {
        self.errors.as_slice()
    }
}

// ---------------------------------------------------------------------------
// The rule.
// ---------------------------------------------------------------------------

/// Why a UDS ReadDataByIdentifier answer was not a value.
#[derive(Clone, Copy, Debug, PartialEq, Eq, Structural)]
pub enum ReadResponseError {
    UdsNegative { nrc: u8 },
    WrongDid { expected: u16, actual: u16 },
    Malformed,
}

/// The value a UDS ReadDataByIdentifier answer carries for `did`: a positive
/// answer `62 <DID> <data>` gives the data; `7F 22 <NRC>` is a negative
/// answer; anything else is malformed or echoes another DID.
pub open spec fn uds22_value(payload: Seq<u8>, did: u16) -> Result<Seq<u8>, ReadResponseError> {
    if payload.len() == 3 && payload[0] == 0x7F && payload[1] == 0x22 {
        Err(ReadResponseError::UdsNegative { nrc: payload[2] })
    } else if payload.len() < 3 || payload[0] != 0x62 {
        Err(ReadResponseError::Malformed)
    } else if payload[1] as int * 256 + payload[2] as int != did as int {
        Err(ReadResponseError::WrongDid { expected: did, actual: (payload[1] as int * 256 + payload[2] as int) as u16 })
    } else {
        Ok(payload.skip(3))
    }
}

pub open spec fn hex4(value: u16) -> Seq<char> {
    hex2((value / 256) as u8) + hex2((value % 256) as u8)
}

pub open spec fn read_error_text(error: ReadResponseError) -> Seq<char> {
    match error {
        ReadResponseError::UdsNegative { nrc } => "UDS negative response NRC "@ + hex2(nrc),
        ReadResponseError::WrongDid { expected, actual } => "UDS response DID "@ + hex4(actual)
            + " does not match requested DID "@ + hex4(expected),
        ReadResponseError::Malformed => "malformed UDS ReadDataByIdentifier response"@,
    }
}

/// The status a negative answer means: unsupported for serviceNotSupported
/// and requestOutOfRange, unavailable for conditions, security and session
/// refusals, otherwise a plain negative response.
pub open spec fn status_for_nrc(nrc: u8) -> IdentificationResultStatus {
    if nrc == 0x11 || nrc == 0x31 {
        IdentificationResultStatus::Unsupported
    } else if nrc == 0x22 || nrc == 0x33 || nrc == 0x7e || nrc == 0x7f {
        IdentificationResultStatus::Unavailable
    } else {
        IdentificationResultStatus::NegativeResponse
    }
}

/// Two texts equal when ASCII letters are compared without case.
pub open spec fn same_ignoring_ascii_case(a: Seq<char>, b: Seq<char>) -> bool {
    ascii_upper(a) == ascii_upper(b)
}

/// An answer from the expected responder.
pub open spec fn from_expected(e: EvidenceView, expected: Seq<char>) -> bool {
    e.responder matches Some(r) && r.value matches Some(v) && same_ignoring_ascii_case(v, expected)
}

/// The answers from the expected responder, in order.
pub open spec fn expected_answers(responses: Seq<EvidenceView>, expected: Seq<char>) -> Seq<EvidenceView>
    decreases responses.len(),
{
    if responses.len() == 0 {
        Seq::empty()
    } else {
        let rest = expected_answers(responses.drop_last(), expected);
        if from_expected(responses.last(), expected) {
            rest.push(responses.last())
        } else {
            rest
        }
    }
}

/// Some answer after the first carries another payload.
pub open spec fn payloads_conflict(answers: Seq<EvidenceView>) -> bool {
    exists|k: int| 1 <= k < answers.len() && (#[trigger] answers[k]).payload != answers[0].payload
}

pub open spec fn observed(
    expected: ResponderIdentityView,
    did: u16,
    status: IdentificationResultStatus,
    responses: Seq<EvidenceView>,
    nrc: Option<u8>,
    value: Option<Seq<u8>>,
    errors: Seq<Seq<char>>,
) -> ObservationView {
    ObservationView { expected_responder: expected, did, status, responses, nrc, value, errors }
}

/// How the answers to one identification read are classified.
pub open spec fn identification_classification(
    expected: ResponderIdentityView,
    did: u16,
    responses: Seq<EvidenceView>,
    errors: Seq<Seq<char>>,
    has_expected_error: bool,
    adapter_unavailable: bool,
) -> Result<ObservationView, Seq<char>> {
    match expected.value {
        None => Err("ECU identification classification requires a responder value"@),
        Some(name) => {
            let answers = expected_answers(responses, name);
            if answers.len() == 0 {
                let status = if adapter_unavailable {
                    IdentificationResultStatus::Unavailable
                } else if has_expected_error || responses.len() > 0 {
                    IdentificationResultStatus::Malformed
                } else {
                    IdentificationResultStatus::Unavailable
                };
                Ok(observed(expected, did, status, responses, None, None, errors.push(
                    "expected responder "@ + name + " did not provide a normalized ECU identification payload"@,
                )))
            } else if payloads_conflict(answers) {
                Ok(observed(expected, did, IdentificationResultStatus::Malformed, responses, None, None, errors.push(
                    "conflicting ECU identification payloads from responder "@ + name,
                )))
            } else if has_expected_error {
                Ok(observed(expected, did, IdentificationResultStatus::Malformed, responses, None, None, errors.push(
                    "responder "@ + name + " produced malformed ECU identification framing"@,
                )))
            } else {
                match uds22_value(answers[0].payload, did) {
                    Ok(value) => Ok(
                        observed(expected, did, IdentificationResultStatus::Supported, responses, None, Some(value), errors),
                    ),
                    Err(ReadResponseError::UdsNegative { nrc }) => Ok(
                        observed(expected, did, status_for_nrc(nrc), responses, Some(nrc), None, errors),
                    ),
                    Err(error) => Ok(observed(expected, did, IdentificationResultStatus::Malformed, responses, None, None, errors.push(
                        read_error_text(error),
                    ))),
                }
            }
        },
    }
}

// ---------------------------------------------------------------------------
// The rule, as computed.
// ---------------------------------------------------------------------------

pub fn uds22_value_exec(payload: &[u8], did: u16) -> (r: Result<Vec<u8>, ReadResponseError>)
    ensures
        match uds22_value(payload@, did) {
            Ok(v) => (r matches Ok(x) && x@ == v),
            Err(e) => r == Err::<Vec<u8>, ReadResponseError>(e),
        },
{
    if payload.len() == 3 && payload[0] == 0x7F && payload[1] == 0x22 {
        return Err(ReadResponseError::UdsNegative { nrc: payload[2] });
    }
    if payload.len() < 3 || payload[0] != 0x62 {
        return Err(ReadResponseError::Malformed);
    }
    let actual: u32 = payload[1] as u32 * 256 + payload[2] as u32;
    if actual != did as u32 {
        return Err(ReadResponseError::WrongDid { expected: did, actual: actual as u16 });
    }
    let mut value: Vec<u8> = Vec::new();
    let mut i: usize = 3;
    while i < payload.len()
        invariant
            3 <= i <= payload@.len(),
            value@ == payload@.subrange(3, i as int),
        decreases payload@.len() - i,
    {
        value.push(payload[i]);
        proof {
            assert(value@ =~= payload@.subrange(3, i + 1));
        }
        i += 1;
    }
    proof {
        assert(payload@.skip(3) =~= payload@.subrange(3, payload@.len() as int));
    }
    Ok(value)
}

fn hex4_text(value: u16) -> (r: String)
    ensures
        r@ == hex4(value),
{
    let high = hex2_chars((value / 256) as u8);
    let low = hex2_chars((value % 256) as u8);
    let a = string_from_chars(high.as_slice());
    let b = string_from_chars(low.as_slice());
    concat(a.as_str(), b.as_str())
}

pub fn read_error_message(error: ReadResponseError) -> (r: String)
    ensures
        r@ == read_error_text(error),
{
    match error {
        ReadResponseError::UdsNegative { nrc } => {
            let code = hex2_chars(nrc);
            let code = string_from_chars(code.as_slice());
            concat("UDS negative response NRC ", code.as_str())
        },
        ReadResponseError::WrongDid { expected, actual } => {
            let a = hex4_text(actual);
            let e = hex4_text(expected);
            let text = concat("UDS response DID ", a.as_str());
            let text = concat(text.as_str(), " does not match requested DID ");
            concat(text.as_str(), e.as_str())
        },
        ReadResponseError::Malformed => owned("malformed UDS ReadDataByIdentifier response"),
    }
}

pub fn status_for_nrc_exec(nrc: u8) -> (r: IdentificationResultStatus)
    ensures
        r == status_for_nrc(nrc),
{
    if nrc == 0x11 || nrc == 0x31 {
        IdentificationResultStatus::Unsupported
    } else if nrc == 0x22 || nrc == 0x33 || nrc == 0x7e || nrc == 0x7f {
        IdentificationResultStatus::Unavailable
    } else {
        IdentificationResultStatus::NegativeResponse
    }
}

fn same_ignoring_ascii_case_exec(a: &str, b: &str) -> (r: bool)
    ensures
        r == same_ignoring_ascii_case(a@, b@),
{
    let x = to_upper(&chars_of(a));
    let y = to_upper(&chars_of(b));
    chars_eq(x.as_slice(), y.as_slice())
}

fn from_expected_exec(e: &IdentificationResponseEvidence, expected: &str) -> (r: bool)
    ensures
        r == from_expected(e@, expected@),
{
    match e.responder() {
        Some(identity) => match identity.value() {
            Some(v) => same_ignoring_ascii_case_exec(v, expected),
            None => false,
        },
        None => false,
    }
}

fn bytes_eq(a: &[u8], b: &[u8]) -> (r: bool)
    ensures
        r == (a@ == b@),
{
    if a.len() != b.len() {
        return false;
    }
    let mut i: usize = 0;
    while i < a.len()
        invariant
            i <= a@.len(),
            a@.len() == b@.len(),
            forall|j: int| 0 <= j < i ==> a@[j] == b@[j],
        decreases a@.len() - i,
    {
        if a[i] != b[i] {
            return false;
        }
        i += 1;
    }
    assert(a@ =~= b@);
    true
}

fn push_text(errors: &mut Vec<String>, text: String)
    ensures
        texts_view(final(errors)@) == texts_view(old(errors)@).push(text@),
{
    errors.push(text);
    proof {
        assert(texts_view(errors@) =~= texts_view(old(errors)@).push(text@));
    }
}

/// Classify the answers to one identification read of the expected
/// responder: its answers decide, compared without ASCII case; no answer,
/// conflicting answers or malformed framing from it never become a value.
pub fn classify_normalized(
    expected: &ResponderIdentity,
    did: u16,
    responses: Vec<IdentificationResponseEvidence>,
    errors: Vec<String>,
    has_expected_error: bool,
    adapter_unavailable: bool,
) -> (r: Result<IdentificationObservation, String>)
    ensures
        match identification_classification(
            expected@,
            did,
            evidence_views(responses@),
            texts_view(errors@),
            has_expected_error,
            adapter_unavailable,
        ) {
            Ok(o) => (r matches Ok(x) && x@ == o),
            Err(e) => (r matches Err(m) && m@ == e),
        },
{
    let name = match expected.value() {
        Some(v) => v,
        None => {
            return Err(owned("ECU identification classification requires a responder value"));
        },
    };
    let ghost rv = evidence_views(responses@);
    let mut errors = errors;
    // The indices of the expected responder's answers, in order.
    let mut picked: Vec<usize> = Vec::new();
    let mut i: usize = 0;
    proof {
        assert(rv.take(0) =~= Seq::<EvidenceView>::empty());
    }
    while i < responses.len()
        invariant
            i <= responses@.len(),
            rv == evidence_views(responses@),
            picked@.len() == expected_answers(rv.take(i as int), name@).len(),
            forall|k: int| 0 <= k < picked@.len() ==> #[trigger] picked@[k] < i && rv[picked@[k] as int]
                == expected_answers(rv.take(i as int), name@)[k],
        decreases responses@.len() - i,
    {
        proof {
            assert(rv.take(i + 1).drop_last() =~= rv.take(i as int));
            assert(rv.take(i + 1).last() == rv[i as int]);
        }
        if from_expected_exec(&responses[i], name) {
            picked.push(i);
        }
        i += 1;
    }
    proof {
        assert(rv.take(responses@.len() as int) =~= rv);
    }
    let ghost answers = expected_answers(rv, name@);
    let status: IdentificationResultStatus;
    let mut nrc: Option<u8> = None;
    let mut value: Option<Vec<u8>> = None;
    if picked.len() == 0 {
        let text = concat("expected responder ", name);
        let text = concat(text.as_str(), " did not provide a normalized ECU identification payload");
        push_text(&mut errors, text);
        status = if adapter_unavailable {
            IdentificationResultStatus::Unavailable
        } else if has_expected_error || responses.len() > 0 {
            IdentificationResultStatus::Malformed
        } else {
            IdentificationResultStatus::Unavailable
        };
    } else {
        let first = &responses[picked[0]];
        let mut conflict = false;
        let mut k: usize = 1;
        while k < picked.len()
            invariant
                1 <= k <= picked@.len(),
                picked@.len() == answers.len(),
                rv == evidence_views(responses@),
                forall|j: int| 0 <= j < picked@.len() ==> #[trigger] picked@[j] < responses@.len() && rv[picked@[j] as int]
                    == answers[j],
                first@ == answers[0],
                conflict <==> (exists|j: int| 1 <= j < k && (#[trigger] answers[j]).payload != answers[0].payload),
            decreases picked@.len() - k,
        {
            let other = &responses[picked[k]];
            proof {
                assert(other@ == answers[k as int]);
            }
            if !bytes_eq(other.payload(), first.payload()) {
                conflict = true;
            }
            k += 1;
        }
        if conflict {
            let text = concat("conflicting ECU identification payloads from responder ", name);
            push_text(&mut errors, text);
            status = IdentificationResultStatus::Malformed;
        } else if has_expected_error {
            let text = concat("responder ", name);
            let text = concat(text.as_str(), " produced malformed ECU identification framing");
            push_text(&mut errors, text);
            status = IdentificationResultStatus::Malformed;
        } else {
            match uds22_value_exec(first.payload(), did) {
                Ok(v) => {
                    status = IdentificationResultStatus::Supported;
                    value = Some(v);
                },
                Err(ReadResponseError::UdsNegative { nrc: code }) => {
                    status = status_for_nrc_exec(code);
                    nrc = Some(code);
                },
                Err(error) => {
                    push_text(&mut errors, read_error_message(error));
                    status = IdentificationResultStatus::Malformed;
                },
            }
        }
    }
    Ok(
        IdentificationObservation {
            expected_responder: expected.duplicate(),
            did,
            status,
            responses,
            nrc,
            value,
            errors,
        },
    )
}

// ---------------------------------------------------------------------------
// From normalized adapter answers.
// ---------------------------------------------------------------------------

/// An adapter answer as identification evidence: its responder as an
/// address in the expected responder's context.
pub open spec fn evidence_of(context: ProtocolContext, r: ResponseView) -> EvidenceView {
    EvidenceView {
        responder: match r.responder {
            Some(name) => Some(ResponderIdentityView { context, kind: ResponderKind::Address, value: Some(name) }),
            None => None,
        },
        payload: r.payload,
    }
}

/// An issue as an error text: `responder X: e`, or `e` without a responder.
pub open spec fn error_text_of(e: ResponseErrorView) -> Seq<char> {
    match e.responder {
        Some(name) => "responder "@ + name + ": "@ + e.error,
        None => e.error,
    }
}

/// An issue reported by the expected responder.
pub open spec fn issue_from(e: ResponseErrorView, name: Seq<char>) -> bool {
    e.responder matches Some(r) && same_ignoring_ascii_case(r, name)
}

/// An issue without a responder saying the adapter refused a UDS 22 request.
pub open spec fn refusal(e: ResponseErrorView) -> bool {
    e.responder is None && has_substring(ascii_upper(e.error), "ELM327 REJECTED UDS 22 RESPONSE"@)
}

/// The expected responder reported an issue.
pub open spec fn expected_error(errors: Seq<ResponseErrorView>, name: Seq<char>) -> bool {
    exists|i: int| 0 <= i < errors.len() && #[trigger] issue_from(errors[i], name)
}

/// Nothing answered, and the adapter refused the UDS 22 request.
pub open spec fn adapter_refused(r: crate::elm::ResponsesView) -> bool {
    r.responses.len() == 0 && exists|i: int| 0 <= i < r.errors.len() && #[trigger] refusal(r.errors[i])
}

/// Classify the normalized adapter answers to one identification read: the
/// answers become evidence, the issues become error texts, and the expected
/// responder's issues and an adapter refusal are passed on.
pub fn classify_diagnostic_responses(expected: &ResponderIdentity, did: u16, responses: &DiagnosticResponses) -> (r:
    Result<IdentificationObservation, String>)
    ensures
        match expected@.value {
            None => (r matches Err(m) && m@ == "ECU identification classification requires a responder value"@),
            Some(name) => match identification_classification(
                expected@,
                did,
                responses@.responses.map_values(|v: ResponseView| evidence_of(expected@.context, v)),
                responses@.errors.map_values(|e: ResponseErrorView| error_text_of(e)),
                expected_error(responses@.errors, name),
                adapter_refused(responses@),
            ) {
                Ok(o) => (r matches Ok(x) && x@ == o),
                Err(e) => (r matches Err(m) && m@ == e),
            },
        },
{
    let name = match expected.value() {
        Some(v) => v,
        None => {
            return Err(owned("ECU identification classification requires a responder value"));
        },
    };
    let context = *expected.context();
    let answers = responses.as_slice();
    let ghost av = response_views(answers@);
    let mut evidence: Vec<IdentificationResponseEvidence> = Vec::new();
    let mut i: usize = 0;
    while i < answers.len()
        invariant
            i <= answers@.len(),
            av == response_views(answers@),
            av == responses@.responses,
            context == expected@.context,
            evidence_views(evidence@) == av.take(i as int).map_values(|v: ResponseView| evidence_of(context, v)),
        decreases answers@.len() - i,
    {
        let answer = &answers[i];
        let responder = match &answer.responder {
            Some(identity) => Some(ResponderIdentity::address(context, identity.as_str())),
            None => None,
        };
        let item = IdentificationResponseEvidence::new(responder, crate::text::byte_vec(answer.payload.as_slice()));
        let ghost before = evidence_views(evidence@);
        proof {
            assert(av[i as int] == answer@);
            assert(item@ == evidence_of(context, av[i as int]));
        }
        evidence.push(item);
        proof {
            assert(evidence_views(evidence@) =~= before.push(evidence_of(context, av[i as int])));
            assert(av.take(i + 1).map_values(|v: ResponseView| evidence_of(context, v)) =~= av.take(
                i as int,
            ).map_values(|v: ResponseView| evidence_of(context, v)).push(evidence_of(context, av[i as int])));
            assert(evidence_views(evidence@) =~= av.take(i + 1).map_values(|v: ResponseView| evidence_of(context, v)));
        }
        i += 1;
    }
    proof {
        assert(av.take(answers@.len() as int) =~= av);
    }
    let issues = responses.errors();
    let ghost ev = error_views(issues@);
    let mut errors: Vec<String> = Vec::new();
    let mut has_expected_error = false;
    let mut refused = false;
    let mut j: usize = 0;
    while j < issues.len()
        invariant
            j <= issues@.len(),
            ev == error_views(issues@),
            ev == responses@.errors,
            texts_view(errors@) == ev.take(j as int).map_values(|e: ResponseErrorView| error_text_of(e)),
            has_expected_error <==> exists|k: int| 0 <= k < j && #[trigger] issue_from(ev[k], name@),
            refused <==> exists|k: int| 0 <= k < j && #[trigger] refusal(ev[k]),
        decreases issues@.len() - j,
    {
        let issue = &issues[j];
        proof {
            assert(ev[j as int] == issue@);
        }
        let text = match &issue.responder {
            Some(identity) => {
                let head = concat("responder ", identity.as_str());
                let head = concat(head.as_str(), ": ");
                concat(head.as_str(), issue.error.as_str())
            },
            None => owned(issue.error.as_str()),
        };
        let ghost old_expected = has_expected_error;
        let ghost old_refused = refused;
        let from_expected_responder = match &issue.responder {
            Some(identity) => same_ignoring_ascii_case_exec(identity.as_str(), name),
            None => false,
        };
        let is_refusal = match &issue.responder {
            Some(_) => false,
            None => {
                let upper = to_upper(&chars_of(issue.error.as_str()));
                let upper = string_from_chars(upper.as_slice());
                contains_str(upper.as_str(), "ELM327 REJECTED UDS 22 RESPONSE")
            },
        };
        proof {
            assert(from_expected_responder == issue_from(ev[j as int], name@));
            assert(is_refusal == refusal(ev[j as int]));
        }
        if from_expected_responder {
            has_expected_error = true;
        }
        if is_refusal {
            refused = true;
        }
        proof {
            if has_expected_error {
                if from_expected_responder {
                    assert(issue_from(ev[j as int], name@));
                } else {
                    assert(old_expected);
                }
            } else {
                assert forall|k: int| 0 <= k < j + 1 implies !#[trigger] issue_from(ev[k], name@) by {
                    if k < j {
                        assert(!old_expected);
                    }
                }
            }
            if refused {
                if is_refusal {
                    assert(refusal(ev[j as int]));
                } else {
                    assert(old_refused);
                }
            } else {
                assert forall|k: int| 0 <= k < j + 1 implies !#[trigger] refusal(ev[k]) by {
                    if k < j {
                        assert(!old_refused);
                    }
                }
            }
        }
        push_text(&mut errors, text);
        proof {
            assert(texts_view(errors@) =~= ev.take(j + 1).map_values(|e: ResponseErrorView| error_text_of(e)));
        }
        j += 1;
    }
    proof {
        assert(ev.take(issues@.len() as int) =~= ev);
    }
    let adapter_unavailable = answers.len() == 0 && refused;
    classify_normalized(expected, did, evidence, errors, has_expected_error, adapter_unavailable)
}

// ---------------------------------------------------------------------------
// Reads that gave no answer.
// ---------------------------------------------------------------------------

/// Why later reads of a session were not made.
pub const SESSION_ABORT_REASON: &'static str =
    "not probed because the diagnostic session became unavailable after a fatal transport failure";

/// ASCII letters in lower case, everything else unchanged.
pub open spec fn lower_char(c: char) -> char {
    if 'A' <= c && c <= 'Z' {
        ((c as u32) + 32) as char
    } else {
        c
    }
}

pub open spec fn ascii_lower(s: Seq<char>) -> Seq<char> {
    s.map_values(|c: char| lower_char(c))
}

fn lower_text(s: &str) -> (r: String)
    ensures
        r@ == ascii_lower(s@),
{
    let chars = chars_of(s);
    let mut out: Vec<char> = Vec::new();
    let mut i: usize = 0;
    while i < chars.len()
        invariant
            i <= chars@.len(),
            out@ == chars@.take(i as int).map_values(|c: char| lower_char(c)),
        decreases chars@.len() - i,
    {
        let c = chars[i];
        let lowered = if 'A' <= c && c <= 'Z' {
            let code: u32 = c as u32 + 32;
            let byte: u8 = code as u8;
            byte as char
        } else {
            c
        };
        out.push(lowered);
        proof {
            assert(out@ =~= chars@.take(i + 1).map_values(|c: char| lower_char(c)));
        }
        i += 1;
    }
    proof {
        assert(chars@.take(chars@.len() as int) =~= chars@);
    }
    string_from_chars(out.as_slice())
}

/// The status of a read whose exchange failed: a timeout when the error
/// says so, otherwise a transport error.
pub open spec fn failure_status(error: Seq<char>) -> IdentificationResultStatus {
    if has_substring(ascii_lower(error), "timed out"@) || has_substring(ascii_lower(error), "timeout"@) {
        IdentificationResultStatus::Timeout
    } else {
        IdentificationResultStatus::TransportError
    }
}

/// The record of a read whose exchange failed with `error`.
pub fn transport_failure(expected: &ResponderIdentity, did: u16, error: String) -> (r: IdentificationObservation)
    ensures
        r@ == observed(expected@, did, failure_status(error@), Seq::empty(), None, None, seq![error@]),
{
    let lowered = lower_text(error.as_str());
    let status = if contains_str(lowered.as_str(), "timed out") || contains_str(lowered.as_str(), "timeout") {
        IdentificationResultStatus::Timeout
    } else {
        IdentificationResultStatus::TransportError
    };
    let mut errors: Vec<String> = Vec::new();
    let ghost text = error@;
    errors.push(error);
    let r = IdentificationObservation {
        expected_responder: expected.duplicate(),
        did,
        status,
        responses: Vec::new(),
        nrc: None,
        value: None,
        errors,
    };
    proof {
        assert(r@.errors =~= seq![text]);
        assert(r@.responses =~= Seq::<EvidenceView>::empty());
    }
    r
}

/// The record of a read that was not made, with the reason.
pub fn not_probed(expected: &ResponderIdentity, did: u16, reason: &str) -> (r: IdentificationObservation)
    ensures
        r@ == observed(expected@, did, IdentificationResultStatus::NotProbed, Seq::empty(), None, None, seq![reason@]),
{
    let mut errors: Vec<String> = Vec::new();
    errors.push(owned(reason));
    let r = IdentificationObservation {
        expected_responder: expected.duplicate(),
        did,
        status: IdentificationResultStatus::NotProbed,
        responses: Vec::new(),
        nrc: None,
        value: None,
        errors,
    };
    proof {
        assert(r@.errors =~= seq![reason@]);
        assert(r@.responses =~= Seq::<EvidenceView>::empty());
    }
    r
}

/// Once the expected responder has answered, answers from other responders
/// change nothing of the outcome: the status, the NRC, the value and the
/// errors follow from the expected responder's answers alone.
pub proof fn law_other_responders_never_decide(
    expected: ResponderIdentityView,
    did: u16,
    responses: Seq<EvidenceView>,
    others: Seq<EvidenceView>,
    errors: Seq<Seq<char>>,
    has_expected_error: bool,
    adapter_unavailable: bool,
)
    requires
        expected.value is Some,
        expected_answers(responses, expected.value.unwrap()) == expected_answers(others, expected.value.unwrap()),
        expected_answers(responses, expected.value.unwrap()).len() > 0,
    ensures
        ({
            let a = identification_classification(expected, did, responses, errors, has_expected_error, adapter_unavailable);
            let b = identification_classification(expected, did, others, errors, has_expected_error, adapter_unavailable);
            &&& a is Ok && b is Ok
            &&& a->Ok_0.status == b->Ok_0.status
            &&& a->Ok_0.nrc == b->Ok_0.nrc
            &&& a->Ok_0.value == b->Ok_0.value
            &&& a->Ok_0.errors == b->Ok_0.errors
        }),
{
}


/// A negative answer of the expected responder is classified by its NRC:
/// serviceNotSupported (0x11) and requestOutOfRange (0x31) mean the DID is
/// unsupported; conditionsNotCorrect (0x22), securityAccessDenied (0x33) and
/// the session refusals (0x7E, 0x7F) mean it is unavailable now; any other
/// NRC is a plain negative response. The NRC is kept and no value is.
pub proof fn law_negative_answers_classify_by_nrc(
    expected: ResponderIdentityView,
    did: u16,
    responses: Seq<EvidenceView>,
    errors: Seq<Seq<char>>,
    adapter_unavailable: bool,
    nrc: u8,
)
    requires
        expected.value is Some,
        expected_answers(responses, expected.value.unwrap()).len() > 0,
        !payloads_conflict(expected_answers(responses, expected.value.unwrap())),
        expected_answers(responses, expected.value.unwrap())[0].payload == seq![0x7Fu8, 0x22u8, nrc],
    ensures
        ({
            let r = identification_classification(expected, did, responses, errors, false, adapter_unavailable);
            &&& r is Ok
            &&& r->Ok_0.nrc == Some(nrc)
            &&& r->Ok_0.value is None
            &&& (nrc == 0x11 || nrc == 0x31) ==> r->Ok_0.status == IdentificationResultStatus::Unsupported
            &&& (nrc == 0x22 || nrc == 0x33 || nrc == 0x7E || nrc == 0x7F) ==> r->Ok_0.status
                == IdentificationResultStatus::Unavailable
            &&& !(nrc == 0x11 || nrc == 0x31 || nrc == 0x22 || nrc == 0x33 || nrc == 0x7E || nrc == 0x7F)
                ==> r->Ok_0.status == IdentificationResultStatus::NegativeResponse
        }),
{
    let p = expected_answers(responses, expected.value.unwrap())[0].payload;
    assert(p.len() == 3 && p[0] == 0x7F && p[1] == 0x22 && p[2] == nrc);
}

} // verus!
