//! The decisions of a read around the ELM exchanges: when a stale answer
//! earns one retry, how two attempts are kept together, and which targeted
//! answers are acceptable.

use vstd::prelude::*;

use crate::elm::{
    observation_of, observations_view, opt_view, ResponseObservation, error_views, payloads_from, all_equal, response_views, DiagnosticResponse, DiagnosticResponseError,
    DiagnosticResponses, ResponderIdentity, ResponseErrorView, ResponseView, ResponsesView,
};
use crate::elm_text::{hex2, hex2_chars};
use crate::text::{concat, debug_text, occurs_at, owned, starts_with_str};

verus! {

/// The message prefix of a stale Mode 01 answer kept for one retry.
pub const STALE_MODE01_RESPONSE_PREFIX: &'static str = "stale unrelated OBD-II Mode 01 response from responder";

/// The message prefix of a Mode 01 answer ignored while awaiting UDS.
pub const IGNORED_MODE01_RESPONSE_PREFIX: &'static str = "ignored unrelated OBD-II Mode 01 response from responder";

/// An issue that only reports an ignored Mode 01 answer.
pub open spec fn is_ignored_mode01(error: ResponseErrorView) -> bool {
    error.responder is None && occurs_at(error.error, IGNORED_MODE01_RESPONSE_PREFIX@, 0)
}

pub fn is_ignored_mode01_response(error: &DiagnosticResponseError) -> (r: bool)
    ensures
        r == is_ignored_mode01(error@),
{
    error.responder.is_none() && starts_with_str(error.error.as_str(), IGNORED_MODE01_RESPONSE_PREFIX)
}

/// A UDS answer that held nothing but ignored Mode 01 answers earns one
/// retry.
pub open spec fn stale_uds_answer(responses: ResponsesView) -> bool {
    &&& responses.responses.len() == 0
    &&& responses.errors.len() > 0
    &&& forall|i: int| 0 <= i < responses.errors.len() ==> is_ignored_mode01(#[trigger] responses.errors[i])
}

pub fn should_retry_stale_uds_response(responses: &DiagnosticResponses) -> (r: bool)
    ensures
        r == stale_uds_answer(responses@),
{
    let errors = responses.errors();
    if !responses.is_empty() || errors.len() == 0 {
        return false;
    }
    let mut i: usize = 0;
    while i < errors.len()
        invariant
            i <= errors@.len(),
            error_views(errors@) == responses@.errors,
            forall|j: int| 0 <= j < i ==> is_ignored_mode01(#[trigger] responses@.errors[j]),
        decreases errors@.len() - i,
    {
        assert(responses@.errors[i as int] == errors@[i as int]@);
        if !is_ignored_mode01_response(&errors[i]) {
            return false;
        }
        i += 1;
    }
    true
}

/// A Mode 01 answer made only of complete answers to another PID, each
/// reported as stale, earns one retry.
pub open spec fn stale_mode01_answer(responses: ResponsesView, pid: u8) -> bool {
    &&& responses.responses.len() > 0
    &&& responses.responses.len() == responses.errors.len()
    &&& forall|i: int|
        0 <= i < responses.responses.len() ==> {
            let payload = (#[trigger] responses.responses[i]).payload;
            payload.len() >= 2 && payload[0] == 0x41 && payload[1] != pid
        }
    &&& forall|i: int|
        0 <= i < responses.errors.len() ==> occurs_at(
            (#[trigger] responses.errors[i]).error,
            STALE_MODE01_RESPONSE_PREFIX@,
            0,
        )
}

pub fn should_retry_stale_mode01_response(responses: &DiagnosticResponses, pid: u8) -> (r: bool)
    ensures
        r == stale_mode01_answer(responses@, pid),
{
    let answers = responses.as_slice();
    let errors = responses.errors();
    if answers.len() == 0 || answers.len() != errors.len() {
        return false;
    }
    let mut i: usize = 0;
    while i < answers.len()
        invariant
            i <= answers@.len(),
            response_views(answers@) == responses@.responses,
            forall|j: int|
                0 <= j < i ==> {
                    let payload = (#[trigger] responses@.responses[j]).payload;
                    payload.len() >= 2 && payload[0] == 0x41 && payload[1] != pid
                },
        decreases answers@.len() - i,
    {
        assert(responses@.responses[i as int] == answers@[i as int]@);
        let payload = &answers[i].payload;
        if !(payload.len() >= 2 && payload[0] == 0x41 && payload[1] != pid) {
            return false;
        }
        i += 1;
    }
    let mut k: usize = 0;
    while k < errors.len()
        invariant
            k <= errors@.len(),
            error_views(errors@) == responses@.errors,
            forall|j: int|
                0 <= j < k ==> occurs_at(
                    (#[trigger] responses@.errors[j]).error,
                    STALE_MODE01_RESPONSE_PREFIX@,
                    0,
                ),
        decreases errors@.len() - k,
    {
        assert(responses@.errors[k as int] == errors@[k as int]@);
        if !starts_with_str(errors[k].error.as_str(), STALE_MODE01_RESPONSE_PREFIX) {
            return false;
        }
        k += 1;
    }
    true
}

/// Two attempts kept together: both answers' responses and issues, in
/// order, and both raw answers on separate lines.
pub fn merge_response_attempts(first: DiagnosticResponses, retry: DiagnosticResponses) -> (r: DiagnosticResponses)
    ensures
        r@ == (ResponsesView {
            responses: first@.responses + retry@.responses,
            raw_response: first@.raw_response + "\n"@ + retry@.raw_response,
            errors: first@.errors + retry@.errors,
        }),
{
    let (mut responses, raw, mut errors) = first.into_parts();
    let (more_responses, more_raw, more_errors) = retry.into_parts();
    let ghost first_responses = response_views(responses@);
    let ghost first_errors = error_views(errors@);
    let mut more_responses = more_responses;
    let mut more_errors = more_errors;
    responses.append(&mut more_responses);
    errors.append(&mut more_errors);
    assert(response_views(responses@) =~= first_responses + retry@.responses);
    assert(error_views(errors@) =~= first_errors + retry@.errors);
    let head = concat(raw.as_str(), "\n");
    let combined = concat(head.as_str(), more_raw.as_str());
    DiagnosticResponses::from_parts(responses, combined, errors)
}

/// A setup error, with the failure to restore functional addressing when
/// that failed too.
pub fn combine_setup_errors(error: String, restore: Result<(), String>) -> (r: String)
    ensures
        match restore {
            Ok(()) => r@ == error@,
            Err(failure) => r@ == error@ + "; restoring functional addressing failed: "@ + failure@,
        },
{
    match restore {
        Ok(()) => error,
        Err(failure) => {
            let head = concat(error.as_str(), "; restoring functional addressing failed: ");
            concat(head.as_str(), failure.as_str())
        },
    }
}

/// The first response from another responder than the expected one, if any.
pub open spec fn first_unexpected(responses: Seq<ResponseView>, expected: Seq<char>) -> int
    decreases responses.len(),
{
    if responses.len() == 0 {
        -1
    } else if responses[0].responder != Some(expected) {
        0
    } else if first_unexpected(responses.drop_first(), expected) < 0 {
        -1
    } else {
        first_unexpected(responses.drop_first(), expected) + 1
    }
}

proof fn lemma_first_unexpected(responses: Seq<ResponseView>, expected: Seq<char>)
    ensures
        -1 <= first_unexpected(responses, expected) < responses.len(),
        first_unexpected(responses, expected) == -1 <==> forall|j: int|
            0 <= j < responses.len() ==> (#[trigger] responses[j]).responder == Some(expected),
        first_unexpected(responses, expected) >= 0 ==> responses[first_unexpected(responses, expected)].responder
            != Some(expected) && forall|j: int|
            0 <= j < first_unexpected(responses, expected) ==> (#[trigger] responses[j]).responder == Some(expected),
    decreases responses.len(),
{
    if responses.len() > 0 {
        let rest = responses.drop_first();
        lemma_first_unexpected(rest, expected);
        assert forall|j: int| 0 <= j < rest.len() implies rest[j] == responses[j + 1] by {}
        if responses[0].responder == Some(expected) && first_unexpected(rest, expected) == -1 {
            assert forall|j: int| 0 <= j < responses.len() implies (#[trigger] responses[j]).responder == Some(
                expected,
            ) by {
                if j > 0 {
                    assert(rest[j - 1] == responses[j]);
                }
            }
        }
        if responses[0].responder == Some(expected) && first_unexpected(rest, expected) >= 0 {
            assert forall|j: int| 0 <= j < first_unexpected(responses, expected) implies (#[trigger] responses[j]).responder
                == Some(expected) by {
                if j > 0 {
                    assert(rest[j - 1] == responses[j]);
                }
            }
        }
    }
}

/// The name of a responder in a message.
pub open spec fn observed_name(responder: Option<Seq<char>>) -> Seq<char> {
    match responder {
        Some(name) => name,
        None => "unknown"@,
    }
}

/// The payload of a targeted read: every response must come from the
/// expected responder, and its answers must agree.
pub fn targeted_payload(responses: &DiagnosticResponses, expected: &ResponderIdentity) -> (r: Result<Vec<u8>, String>)
    ensures
        ({
            let index = first_unexpected(responses@.responses, expected@);
            let payloads = payloads_from(responses@.responses, expected@);
            &&& index >= 0 ==> (r matches Err(message) && message@ == "unexpected responder "@ + observed_name(
                responses@.responses[index].responder,
            ) + " for targeted read; expected "@ + expected@)
            &&& index < 0 && payloads.len() == 0 ==> (r matches Err(message) && message@ == "responder "@
                + expected@ + " did not answer"@)
            &&& index < 0 && payloads.len() > 0 && !all_equal(payloads) ==> (r matches Err(message)
                && message@ == "conflicting responses from responder "@ + expected@)
            &&& index < 0 && payloads.len() > 0 && all_equal(payloads) ==> (r matches Ok(payload)
                && payload@ == payloads[0])
        }),
{
    let answers = responses.as_slice();
    let ghost views = responses@.responses;
    proof {
        lemma_first_unexpected(views, expected@);
    }
    let mut i: usize = 0;
    while i < answers.len()
        invariant
            i <= answers@.len(),
            views == responses@.responses,
            response_views(answers@) == views,
            forall|j: int| 0 <= j < i ==> (#[trigger] views[j]).responder == Some(expected@),
        decreases answers@.len() - i,
    {
        assert(views[i as int] == answers@[i as int]@);
        let same = match &answers[i].responder {
            Some(identity) => crate::text::str_eq(identity.as_str(), expected.as_str()),
            None => false,
        };
        if !same {
            proof {
                lemma_first_unexpected(views, expected@);
                let f = first_unexpected(views, expected@);
                assert(f == i as int) by {
                    if f < i {
                        assert(views[f].responder == Some(expected@));
                    }
                    if f == -1 || f > i {
                        assert(views[i as int].responder == Some(expected@));
                    }
                }
            }
            let observed = match &answers[i].responder {
                Some(identity) => owned(identity.as_str()),
                None => owned("unknown"),
            };
            let head = concat("unexpected responder ", observed.as_str());
            let middle = concat(head.as_str(), " for targeted read; expected ");
            return Err(concat(middle.as_str(), expected.as_str()));
        }
        i += 1;
    }
    responses.select(expected)
}

/// The ELM command of a Mode 01 read: its request bytes in upper-case hex,
/// then a carriage return.
pub fn obd_command(request: crate::signals::ReadRequest) -> (r: String)
    ensures
        r@ == hex2(request.spec_metadata().mode) + hex2(request.spec_metadata().pid) + "\r"@,
{
    let bytes = request.bytes();
    let ghost parts = bytes@.map_values(|b: u8| hex2(b));
    assert(parts.drop_last().drop_last() =~= Seq::<Seq<char>>::empty());
    assert(parts[0] == hex2(request.spec_metadata().mode) && parts[1] == hex2(request.spec_metadata().pid));
    proof {
        reveal_with_fuel(crate::elm_text::concat_all, 3);
    }
    assert(crate::elm_text::concat_all(parts) =~= hex2(request.spec_metadata().mode) + hex2(
        request.spec_metadata().pid,
    ));
    command_of(&bytes)
}

/// The ELM command of a UDS ReadDataByIdentifier request: its three bytes
/// in upper-case hex, then a carriage return.
pub fn uds_command(request: [u8; 3]) -> (r: String)
    ensures
        r@ == hex2(request@[0]) + hex2(request@[1]) + hex2(request@[2]) + "\r"@,
{
    let ghost parts = request@.map_values(|b: u8| hex2(b));
    assert(parts.drop_last().drop_last().drop_last() =~= Seq::<Seq<char>>::empty());
    assert(parts[0] == hex2(request@[0]) && parts[1] == hex2(request@[1]) && parts[2] == hex2(request@[2]));
    proof {
        reveal_with_fuel(crate::elm_text::concat_all, 4);
    }
    assert(crate::elm_text::concat_all(parts) =~= hex2(request@[0]) + hex2(request@[1]) + hex2(request@[2]));
    command_of(&request)
}

fn command_of(bytes: &[u8]) -> (r: String)
    ensures
        r@ == crate::elm_text::concat_all(bytes@.map_values(|b: u8| hex2(b))) + "\r"@,
{
    let mut chars: Vec<char> = Vec::new();
    let mut i: usize = 0;
    while i < bytes.len()
        invariant
            i <= bytes@.len(),
            chars@ == crate::elm_text::concat_all(bytes@.take(i as int).map_values(|b: u8| hex2(b))),
        decreases bytes@.len() - i,
    {
        let digits = hex2_chars(bytes[i]);
        chars.push(digits[0]);
        chars.push(digits[1]);
        assert(bytes@.take(i + 1).map_values(|b: u8| hex2(b)) =~= bytes@.take(i as int).map_values(
            |b: u8| hex2(b),
        ).push(hex2(bytes@[i as int])));
        assert(bytes@.take(i + 1).map_values(|b: u8| hex2(b)).drop_last() =~= bytes@.take(i as int).map_values(
            |b: u8| hex2(b),
        ));
        assert(digits@ == hex2(bytes@[i as int]));
        i += 1;
    }
    assert(bytes@.take(bytes@.len() as int) =~= bytes@);
    chars.push('\r');
    let text = crate::text::string_from_chars(chars.as_slice());
    proof {
        reveal_strlit("\r");
    }
    assert(text@ =~= crate::elm_text::concat_all(bytes@.map_values(|b: u8| hex2(b))) + "\r"@);
    text
}


/// Answer padding after a frame.
pub open spec fn padding_after_frame(bytes: Seq<u8>, from: int) -> bool {
    forall|k: int| from <= k < bytes.len() ==> crate::elm_uds::is_uds_padding(#[trigger] bytes[k])
}

/// A complete, length-prefixed answer to another Mode 01 PID than the one
/// requested, padded at most.
pub open spec fn is_stale_frame(bytes: Seq<u8>, pid: u8) -> bool {
    &&& bytes.len() > 0
    &&& bytes[0] >= 2
    &&& bytes.len() - 1 >= bytes[0]
    &&& bytes[1] == 0x41
    &&& bytes[2] != pid
    &&& padding_after_frame(bytes, 1 + bytes[0])
}

/// What one cleaned line of a stale answer yields.
pub enum StaleLine {
    Skip,
    Fail(crate::elm::Mode01Failure),
    Stale(ResponseView),
}

pub open spec fn stale_line(line: Seq<char>, pid: u8) -> StaleLine {
    let upper = crate::elm_text::ascii_upper(line);
    let tokens = crate::elm_text::ascii_tokens(line);
    let header = crate::elm::header_of(tokens);
    let start = if header is Some {
        1int
    } else {
        0int
    };
    let bytes = crate::elm::token_bytes(tokens.skip(start));
    if line.len() == 0 {
        StaleLine::Skip
    } else if crate::elm::is_noise_line(upper, "01"@ + hex2(pid)) {
        StaleLine::Skip
    } else if crate::elm::is_status_line(upper) {
        StaleLine::Fail(crate::elm::Mode01Failure::Rejected)
    } else if header is Some && !crate::elm_text::all_hex(header.unwrap()) {
        StaleLine::Fail(crate::elm::Mode01Failure::MalformedHeader)
    } else if crate::elm::first_bad_token(tokens, start) < tokens.len() {
        StaleLine::Fail(crate::elm::Mode01Failure::MalformedLine)
    } else if is_stale_frame(bytes, pid) {
        StaleLine::Stale(
            ResponseView {
                responder: match header {
                    Some(h) => Some(crate::elm_text::ascii_upper(h)),
                    None => None,
                },
                payload: bytes.subrange(1, 1 + bytes[0]),
            },
        )
    } else {
        StaleLine::Fail(crate::elm::Mode01Failure::NotFound)
    }
}

/// The stale answers of all lines, or the first failure.
pub open spec fn stale_lines(lines: Seq<Seq<char>>, pid: u8) -> Result<Seq<ResponseView>, crate::elm::Mode01Failure>
    decreases lines.len(),
{
    if lines.len() == 0 {
        Ok(Seq::empty())
    } else {
        match stale_line(crate::elm_text::clean_line(lines[0]), pid) {
            StaleLine::Skip => stale_lines(lines.drop_first(), pid),
            StaleLine::Fail(kind) => Err(kind),
            StaleLine::Stale(found) => match stale_lines(lines.drop_first(), pid) {
                Ok(rest) => Ok(seq![found] + rest),
                Err(kind) => Err(kind),
            },
        }
    }
}

/// The cleaned lines that hold the stale answers, in order.
pub open spec fn stale_answer_lines(lines: Seq<Seq<char>>, pid: u8) -> Seq<Seq<char>>
    decreases lines.len(),
{
    if lines.len() == 0 {
        Seq::empty()
    } else {
        match stale_line(crate::elm_text::clean_line(lines[0]), pid) {
            StaleLine::Stale(_) => seq![crate::elm_text::clean_line(lines[0])] + stale_answer_lines(
                lines.drop_first(),
                pid,
            ),
            _ => stale_answer_lines(lines.drop_first(), pid),
        }
    }
}

/// The cleaned line on which `stale_lines` fails.
pub open spec fn stale_failed_line(lines: Seq<Seq<char>>, pid: u8) -> Seq<char>
    decreases lines.len(),
{
    if lines.len() == 0 {
        Seq::empty()
    } else {
        match stale_line(crate::elm_text::clean_line(lines[0]), pid) {
            StaleLine::Fail(_) => crate::elm_text::clean_line(lines[0]),
            _ => stale_failed_line(lines.drop_first(), pid),
        }
    }
}

/// The stale answers of a whole response, or why it has none.
pub open spec fn stale_outcome(response: Seq<char>, pid: u8) -> Result<Seq<ResponseView>, crate::elm::Mode01Failure> {
    match stale_lines(crate::elm_text::split_lines(response), pid) {
        Ok(found) => if found.len() == 0 {
            Err(crate::elm::Mode01Failure::NotFound)
        } else {
            Ok(found)
        },
        Err(kind) => Err(kind),
    }
}

/// The issue prefix reported for each stale answer.
pub open spec fn stale_issue_prefix(responder: Option<Seq<char>>, pid: u8) -> Seq<char> {
    STALE_MODE01_RESPONSE_PREFIX@ + " "@ + observed_name(responder) + " while awaiting 01"@ + hex2(pid) + ": "@
}

/// The issue reported for a stale answer: the prefix, then the quoted line.
pub open spec fn stale_issue_text(responder: Option<Seq<char>>, pid: u8, line: Seq<char>) -> Seq<char> {
    stale_issue_prefix(responder, pid) + debug_text(line)
}

enum StaleLineResult {
    Skip,
    Fail(crate::elm::Mode01Failure),
    Stale(DiagnosticResponse),
}

fn stale_line_exec(line: &Vec<char>, pid: u8) -> (r: StaleLineResult)
    ensures
        match stale_line(line@, pid) {
            StaleLine::Skip => r is Skip,
            StaleLine::Fail(kind) => r == StaleLineResult::Fail(kind),
            StaleLine::Stale(found) => (r matches StaleLineResult::Stale(response) && response@ == found),
        },
{
    if line.len() == 0 {
        return StaleLineResult::Skip;
    }
    let upper = crate::elm_text::to_upper(line);
    let echo = crate::elm::with_hex2("01", pid);
    if crate::elm::noise_line_exec(&upper, &echo) {
        return StaleLineResult::Skip;
    }
    if crate::elm::status_line(&upper) {
        return StaleLineResult::Fail(crate::elm::Mode01Failure::Rejected);
    }
    let toks = crate::elm_text::tokens(line);
    let ghost views = crate::elm::token_views(toks@);
    let header: Option<Vec<char>> = if toks.len() > 0 && toks[0].len() == 3 {
        Some(crate::elm::copy_chars(&toks[0]))
    } else {
        None
    };
    assert(toks.len() > 0 ==> views[0] == toks@[0]@);
    assert(views == crate::elm_text::ascii_tokens(line@));
    assert(crate::elm::header_of(views) == (match header {
        Some(h) => Some(h@),
        None => None,
    }));
    match &header {
        Some(h) => {
            if !crate::elm_text::all_hex_exec(h) {
                return StaleLineResult::Fail(crate::elm::Mode01Failure::MalformedHeader);
            }
        },
        None => {},
    }
    let start: usize = if header.is_some() {
        1
    } else {
        0
    };
    let bad = crate::elm::first_bad_exec(&toks, start);
    if bad < toks.len() {
        return StaleLineResult::Fail(crate::elm::Mode01Failure::MalformedLine);
    }
    let bytes = crate::elm::line_bytes(&toks, start);
    if bytes.len() == 0 {
        return StaleLineResult::Fail(crate::elm::Mode01Failure::NotFound);
    }
    let declared = bytes[0] as usize;
    if declared < 2 || bytes.len() - 1 < declared || bytes[1] != 0x41 || bytes[2] == pid {
        return StaleLineResult::Fail(crate::elm::Mode01Failure::NotFound);
    }
    if !crate::elm_uds::padding_after(&bytes, 1 + declared) {
        return StaleLineResult::Fail(crate::elm::Mode01Failure::NotFound);
    }
    let payload = crate::elm_uds::slice_bytes(&bytes, 1, 1 + declared);
    let responder = match &header {
        Some(h) => Some(ResponderIdentity::ElmHeader(crate::text::string_from_chars(
            crate::elm_text::to_upper(h).as_slice(),
        ))),
        None => None,
    };
    StaleLineResult::Stale(DiagnosticResponse { responder, payload })
}

fn stale_issue(responder: &Option<ResponderIdentity>, pid: u8, line: &Vec<char>) -> (r: String)
    ensures
        r@ == stale_issue_text(crate::elm::responder_text(*responder), pid, line@),
{
    let observed = match responder {
        Some(identity) => owned(identity.as_str()),
        None => owned("unknown"),
    };
    let head = concat(STALE_MODE01_RESPONSE_PREFIX, " ");
    let named = concat(head.as_str(), observed.as_str());
    let awaiting = crate::elm::with_hex2(" while awaiting 01", pid);
    let awaiting_text = crate::text::string_from_chars(awaiting.as_slice());
    let middle = concat(named.as_str(), awaiting_text.as_str());
    let prefix = concat(middle.as_str(), ": ");
    let text = crate::text::string_from_chars(line.as_slice());
    let quoted = crate::text::debug_quoted(text.as_str());
    let r = concat(prefix.as_str(), quoted.as_str());
    assert(prefix@ =~= stale_issue_prefix(crate::elm::responder_text(*responder), pid));
    r
}

/// Keep a complete, length-prefixed answer to another Mode 01 PID, so the
/// caller can retry its already authorized request once; every kept answer
/// is reported as stale. Anything less definite fails as
/// `normalize_mode01_responses` would.
pub fn normalize_stale_mode01_responses(response: &str, requested_pid: u8) -> (r: Result<DiagnosticResponses, String>)
    ensures
        match stale_outcome(response@, requested_pid) {
            Ok(found) => (r matches Ok(responses) && responses@.responses == found && responses@.raw_response
                == response@ && responses@.errors.len() == found.len() && forall|i: int|
                0 <= i < found.len() ==> (#[trigger] responses@.errors[i]).responder == found[i].responder
                    && responses@.errors[i].error == stale_issue_text(
                    found[i].responder,
                    requested_pid,
                    stale_answer_lines(crate::elm_text::split_lines(response@), requested_pid)[i],
                )),
            Err(kind) => (r matches Err(message) && message@ == crate::elm::mode01_failure_message(
                kind,
                requested_pid,
                stale_failed_line(crate::elm_text::split_lines(response@), requested_pid),
                response@,
            )),
        },
{
    let lines = crate::elm_text::split_response_lines(response);
    let ghost views = lines@.map_values(|l: Vec<char>| l@);
    let mut found: Vec<DiagnosticResponse> = Vec::new();
    let mut errors: Vec<DiagnosticResponseError> = Vec::new();
    let mut i: usize = 0;
    let ghost mut kept: Seq<Seq<char>> = Seq::empty();
    proof {
        assert(views.skip(0) =~= views);
        assert(response_views(found@) =~= Seq::<ResponseView>::empty());
        assert(stale_answer_lines(views, requested_pid) =~= kept + stale_answer_lines(views, requested_pid));
    }
    while i < lines.len()
        invariant
            i <= lines@.len(),
            views == lines@.map_values(|l: Vec<char>| l@),
            views == crate::elm_text::split_lines(response@),
            stale_failed_line(views, requested_pid) == stale_failed_line(views.skip(i as int), requested_pid),
            match stale_lines(views, requested_pid) {
                Ok(all) => stale_lines(views.skip(i as int), requested_pid) matches Ok(rest) && all
                    == response_views(found@) + rest,
                Err(kind) => stale_lines(views.skip(i as int), requested_pid) == Err::<
                    Seq<ResponseView>,
                    crate::elm::Mode01Failure,
                >(kind),
            },
            error_views(errors@).len() == found@.len(),
            kept.len() == found@.len(),
            stale_answer_lines(views, requested_pid) == kept + stale_answer_lines(
                views.skip(i as int),
                requested_pid,
            ),
            forall|j: int|
                0 <= j < found@.len() ==> (#[trigger] error_views(errors@)[j]).responder == response_views(found@)[j].responder
                    && error_views(errors@)[j].error == stale_issue_text(
                    response_views(found@)[j].responder,
                    requested_pid,
                    kept[j],
                ),
        decreases lines@.len() - i,
    {
        let line = crate::elm_text::clean(&lines[i]);
        assert(views[i as int] == lines@[i as int]@);
        let ghost rest = views.skip(i as int);
        assert(rest[0] == views[i as int]);
        assert(rest.drop_first() =~= views.skip(i + 1));
        match stale_line_exec(&line, requested_pid) {
            StaleLineResult::Skip => {},
            StaleLineResult::Fail(kind) => {
                return Err(crate::elm::mode01_message(kind, requested_pid, &line, response));
            },
            StaleLineResult::Stale(answer) => {
                let message = stale_issue(&answer.responder, requested_pid, &line);
                let error = DiagnosticResponseError { responder: crate::elm_uds::copy_responder(&answer.responder), error: message };
                let ghost before_found = response_views(found@);
                let ghost before_errors = error_views(errors@);
                let ghost added = answer@;
                let ghost before_kept = kept;
                found.push(answer);
                errors.push(error);
                assert(response_views(found@) =~= before_found.push(added));
                assert(error_views(errors@) =~= before_errors.push(error@));
                proof {
                    kept = kept.push(line@);
                    assert(stale_answer_lines(rest, requested_pid) =~= seq![line@] + stale_answer_lines(
                        views.skip(i + 1),
                        requested_pid,
                    ));
                    assert(before_kept + (seq![line@] + stale_answer_lines(views.skip(i + 1), requested_pid))
                        =~= kept + stale_answer_lines(views.skip(i + 1), requested_pid));
                    match stale_lines(views, requested_pid) {
                        Ok(all) => {
                            let tail = stale_lines(views.skip(i + 1), requested_pid);
                            assert(tail matches Ok(_));
                            assert(all =~= response_views(found@) + tail->Ok_0) by {
                                assert(before_found + (seq![added] + tail->Ok_0) =~= before_found.push(added) + tail->Ok_0);
                            }
                        },
                        Err(_) => {},
                    }
                    assert forall|j: int| 0 <= j < found@.len() implies (#[trigger] error_views(errors@)[j]).responder
                        == response_views(found@)[j].responder && error_views(errors@)[j].error == stale_issue_text(
                        response_views(found@)[j].responder,
                        requested_pid,
                        kept[j],
                    ) by {
                        if j < found@.len() - 1 {
                            assert(error_views(errors@)[j] == before_errors[j]);
                            assert(response_views(found@)[j] == before_found[j]);
                            assert(kept[j] == before_kept[j]);
                        }
                    }
                }
            },
        }
        i += 1;
    }
    assert(views.skip(lines@.len() as int) =~= Seq::<Seq<char>>::empty());
    assert(kept + stale_answer_lines(views.skip(lines@.len() as int), requested_pid) =~= kept);
    if found.len() == 0 {
        let empty: Vec<char> = Vec::new();
        return Err(crate::elm::mode01_message(crate::elm::Mode01Failure::NotFound, requested_pid, &empty, response));
    }
    Ok(DiagnosticResponses::from_parts(found, owned(response), errors))
}


/// What a Mode 01 read does after its first answer.
#[derive(Debug, PartialEq, Eq)]
pub enum FirstReadDecision {
    /// The agreed payload.
    Accept(Vec<u8>),
    /// A stale or conflicting answer: read once more; the error is kept.
    Retry(String),
    /// Any other failure, final.
    Fail(String),
}

/// Decide on the first answer of a Mode 01 read: accept the agreed
/// payload, retry once when the answer was stale or conflicting, or fail.
pub fn decide_first_read(first: &DiagnosticResponses, pid: u8) -> (r: FirstReadDecision)
    ensures
        ({
            let payloads = crate::elm::all_payloads(first@.responses);
            let answers = payloads.len() > 0 && payloads[0].len() >= 2 && payloads[0][0] == 0x41
                && payloads[0][1] == pid;
            &&& answers && all_equal(payloads) ==> (r matches FirstReadDecision::Accept(payload) && payload@
                == payloads[0])
            &&& !answers ==> (r matches FirstReadDecision::Retry(e) && e@ == "01"@ + hex2(pid)
                + " response not found"@ && stale_mode01_answer(first@, pid)) || (r matches FirstReadDecision::Fail(
                e,
            ) && e@ == "01"@ + hex2(pid) + " response not found"@ && !stale_mode01_answer(first@, pid))
            &&& answers && !all_equal(payloads) ==> (r matches FirstReadDecision::Retry(e) && e@
                == crate::elm::conflict_text(first@.responses, pid))
        }),
{
    match first.unambiguous_payload(pid) {
        Ok(payload) => FirstReadDecision::Accept(payload),
        Err(error) => {
            if should_retry_stale_mode01_response(first, pid) {
                return FirstReadDecision::Retry(error);
            }
            let conflict_prefix = crate::elm::with_hex2("conflicting 01", pid);
            let conflict_text = crate::text::string_from_chars(conflict_prefix.as_slice());
            let conflict = concat(conflict_text.as_str(), " responses");
            assert(conflict@ =~= "conflicting 01"@ + hex2(pid) + " responses"@);
            if starts_with_str(error.as_str(), conflict.as_str()) {
                proof {
                    reveal_strlit("01");
                    reveal_strlit("conflicting 01");
                    let payloads = crate::elm::all_payloads(first@.responses);
                    let answers = payloads.len() > 0 && payloads[0].len() >= 2 && payloads[0][0] == 0x41
                        && payloads[0][1] == pid;
                    if !answers {
                        assert(error@[0] == '0');
                        assert(conflict@[0] == 'c');
                    }
                }
                FirstReadDecision::Retry(error)
            } else {
                proof {
                    reveal_strlit("01");
                    reveal_strlit("conflicting 01");
                    let payloads = crate::elm::all_payloads(first@.responses);
                    let answers = payloads.len() > 0 && payloads[0].len() >= 2 && payloads[0][0] == 0x41
                        && payloads[0][1] == pid;
                    if answers && !all_equal(payloads) {
                        crate::elm::lemma_conflict_prefix(first@.responses, pid);
                    }
                    if !answers {
                        assert(error@[0] == '0');
                    }
                }
                FirstReadDecision::Fail(error)
            }
        },
    }
}

/// The error of a retried read whose retry could not be exchanged.
pub fn retry_exchange_failure(error: &str, first: &DiagnosticResponses, retry_error: &str) -> (r: String)
    ensures
        r@ == error@ + "; first ELM response="@ + crate::text::escape_text(first@.raw_response)
            + "; retry failed: "@ + retry_error@,
{
    let head = concat(error, "; first ELM response=");
    let escaped = crate::text::escape_default(first.raw_response());
    let middle = concat(head.as_str(), escaped.as_str());
    let tail = concat("; retry failed: ", retry_error);
    let r = concat(middle.as_str(), tail.as_str());
    assert(r@ =~= error@ + "; first ELM response="@ + crate::text::escape_text(first@.raw_response)
        + "; retry failed: "@ + retry_error@);
    r
}

/// The error of a retried read whose retry failed too: the retry's error
/// and both raw answers.
pub fn retry_answer_failure(retry_error: &str, first: &DiagnosticResponses, retry: &DiagnosticResponses) -> (r:
    String)
    ensures
        r@ == retry_error@ + "; first ELM response="@ + crate::text::escape_text(first@.raw_response)
            + "; retry ELM response="@ + crate::text::escape_text(retry@.raw_response),
{
    let head = concat(retry_error, "; first ELM response=");
    let first_escaped = crate::text::escape_default(first.raw_response());
    let retry_escaped = crate::text::escape_default(retry.raw_response());
    let middle = concat(head.as_str(), first_escaped.as_str());
    let with_label = concat(middle.as_str(), "; retry ELM response=");
    concat(with_label.as_str(), retry_escaped.as_str())
}

// ---------------------------------------------------------------------------
// The evidence a read records.
// ---------------------------------------------------------------------------

/// The one agreed payload of an answer, or why there is none.
pub open spec fn payload_of(r: ResponsesView, pid: u8) -> Result<Seq<u8>, Seq<char>> {
    let payloads = crate::elm::all_payloads(r.responses);
    let answers = payloads.len() > 0 && payloads[0].len() >= 2 && payloads[0][0] == 0x41 && payloads[0][1] == pid;
    if !answers {
        Err("01"@ + hex2(pid) + " response not found"@)
    } else if !all_equal(payloads) {
        Err(crate::elm::conflict_text(r.responses, pid))
    } else {
        Ok(payloads[0])
    }
}

/// A read's payload and what it observed.
pub struct ReadEvidence {
    pub payload: Vec<u8>,
    pub observations: Vec<ResponseObservation>,
}

/// Why a read failed, and what it observed on the way.
pub struct ReadEvidenceError {
    pub error: String,
    pub observations: Vec<ResponseObservation>,
}

/// The evidence of a read whose first exchange gave `first`, when no retry
/// follows: the payload with the answer's observation, or the failure with
/// the answer's observation carrying the error. A failed exchange observed
/// nothing.
pub fn first_read_evidence(first: Result<DiagnosticResponses, String>, pid: u8) -> (r: Result<ReadEvidence, ReadEvidenceError>)
    ensures
        match first {
            Err(e) => (r matches Err(f) && f.error@ == e@ && f.observations@.len() == 0),
            Ok(answer) => match payload_of(answer@, pid) {
                Ok(p) => (r matches Ok(ev) && ev.payload@ == p && observations_view(ev.observations@) == seq![
                    observation_of(answer@, None),
                ]),
                Err(e) => (r matches Err(f) && f.error@ == e && observations_view(f.observations@) == seq![
                    observation_of(answer@, Some(e)),
                ]),
            },
        },
{
    match first {
        Err(e) => Err(ReadEvidenceError { error: e, observations: Vec::new() }),
        Ok(answer) => match answer.unambiguous_payload(pid) {
            Ok(payload) => {
                let mut observations = Vec::new();
                observations.push(answer.observation(None));
                proof {
                    assert(observations_view(observations@) =~= seq![observation_of(answer@, None)]);
                }
                Ok(ReadEvidence { payload, observations })
            },
            Err(error) => {
                let mut observations = Vec::new();
                observations.push(answer.observation(Some(owned(error.as_str()))));
                proof {
                    assert(observations_view(observations@) =~= seq![observation_of(answer@, Some(error@))]);
                }
                Err(ReadEvidenceError { error, observations })
            },
        },
    }
}

/// The evidence of a read retried once after its first answer `first` was
/// refused with `error`: the first answer's observation, then the retry's;
/// the retry's payload, or the failure with both raw answers. A retry that
/// could not be exchanged adds nothing but its error.
pub fn retried_read_evidence(
    first: &DiagnosticResponses,
    error: String,
    retry: Result<DiagnosticResponses, String>,
    pid: u8,
) -> (r: Result<ReadEvidence, ReadEvidenceError>)
    ensures
        match retry {
            Err(e) => (r matches Err(f) && f.error@ == error@ + "; first ELM response="@ + crate::text::escape_text(
                first@.raw_response,
            ) + "; retry failed: "@ + e@ && observations_view(f.observations@) == seq![
                observation_of(first@, Some(error@)),
            ]),
            Ok(answer) => match payload_of(answer@, pid) {
                Ok(p) => (r matches Ok(ev) && ev.payload@ == p && observations_view(ev.observations@) == seq![
                    observation_of(first@, Some(error@)),
                    observation_of(answer@, None),
                ]),
                Err(e) => (r matches Err(f) && f.error@ == e + "; first ELM response="@ + crate::text::escape_text(
                    first@.raw_response,
                ) + "; retry ELM response="@ + crate::text::escape_text(answer@.raw_response)
                    && observations_view(f.observations@) == seq![
                    observation_of(first@, Some(error@)),
                    observation_of(answer@, Some(e)),
                ]),
            },
        },
{
    let mut observations = Vec::new();
    observations.push(first.observation(Some(owned(error.as_str()))));
    let ghost first_obs = observation_of(first@, Some(error@));
    proof {
        assert(observations_view(observations@) =~= seq![first_obs]);
    }
    match retry {
        Err(retry_error) => {
            let message = retry_exchange_failure(error.as_str(), first, retry_error.as_str());
            Err(ReadEvidenceError { error: message, observations })
        },
        Ok(answer) => match answer.unambiguous_payload(pid) {
            Ok(payload) => {
                observations.push(answer.observation(None));
                proof {
                    assert(observations_view(observations@) =~= seq![first_obs, observation_of(answer@, None)]);
                }
                Ok(ReadEvidence { payload, observations })
            },
            Err(retry_error) => {
                observations.push(answer.observation(Some(owned(retry_error.as_str()))));
                proof {
                    assert(observations_view(observations@) =~= seq![
                        first_obs,
                        observation_of(answer@, Some(retry_error@)),
                    ]);
                }
                let message = retry_answer_failure(retry_error.as_str(), first, &answer);
                Err(ReadEvidenceError { error: message, observations })
            },
        },
    }
}

} // verus!
