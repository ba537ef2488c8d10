//! Normalization of ELM327 answers to UDS ReadDataByIdentifier requests,
//! including ISO-TP reassembly per responder.

use vstd::prelude::*;

use crate::elm::{
    header_of, is_noise_line, response_views, ResponderIdentity, ResponseView,
    DiagnosticResponse, DiagnosticResponseError, DiagnosticResponses, ResponsesView,
    ResponseErrorView, error_views, token_bytes, is_byte_token, token_views,
};
use crate::elm_text::{
    all_hex, all_hex_exec, ascii_tokens, ascii_upper, clean, clean_line, hex2, hex2_chars,
    push_hex_bytes, split_lines, split_response_lines, to_upper, tokens,
};
use crate::text::{
    chars_of, concat, debug_quoted, debug_text, decimal, decimal_text, has_substring, owned,
    string_from_chars,
};

verus! {

/// A reassembly in progress.
pub struct AssemblyView {
    pub responder: Option<Seq<char>>,
    pub declared_len: int,
    pub payload: Seq<u8>,
    pub next_sequence: u8,
}

/// The issues the UDS normalizer reports.
pub enum UdsIssue {
    Rejected,
    MalformedHeader,
    MalformedLine,
    IgnoredMode01(Seq<char>),
    MalformedSingleFrame,
    TruncatedSingleFrame,
    UnexpectedAfterSingleFrame,
    MalformedFirstFrame,
    DuplicateFirstFrame,
    ConsecutiveWithoutFirst,
    MalformedConsecutive,
    SequenceMismatch,
    Exceeded,
    FlowControl,
    TruncatedIsoTp,
    NotFound,
}

/// The prefix of the message of each issue.
pub open spec fn uds_issue_prefix(issue: UdsIssue) -> Seq<char> {
    match issue {
        UdsIssue::Rejected => "ELM327 rejected UDS 22 response: "@,
        UdsIssue::MalformedHeader => "malformed ELM327 UDS responder header: "@,
        UdsIssue::MalformedLine => "malformed ELM327 UDS response line: "@,
        UdsIssue::IgnoredMode01(observed) => "ignored unrelated OBD-II Mode 01 response from responder "@
            + observed + " while awaiting UDS 22 response: "@,
        UdsIssue::MalformedSingleFrame => "malformed UDS single frame: "@,
        UdsIssue::TruncatedSingleFrame => "truncated UDS single frame: declared "@,
        UdsIssue::UnexpectedAfterSingleFrame => "unexpected bytes after UDS single frame: "@,
        UdsIssue::MalformedFirstFrame => "malformed UDS first frame: "@,
        UdsIssue::DuplicateFirstFrame => "duplicate UDS first frame: "@,
        UdsIssue::ConsecutiveWithoutFirst => "UDS consecutive frame without first frame: "@,
        UdsIssue::MalformedConsecutive => "malformed UDS consecutive frame: "@,
        UdsIssue::SequenceMismatch => "UDS sequence mismatch: expected "@,
        UdsIssue::Exceeded => "UDS payload exceeded declared length: "@,
        UdsIssue::FlowControl => "unexpected UDS flow-control frame: "@,
        UdsIssue::TruncatedIsoTp => "truncated UDS ISO-TP response: declared "@,
        UdsIssue::NotFound => "UDS 22 response not found"@,
    }
}

/// The message of an issue: its prefix, then the detail that follows it
/// (the quoted line, the byte counts, or nothing).
pub open spec fn uds_issue_message(issue: UdsIssue, detail: Seq<char>) -> Seq<char> {
    uds_issue_prefix(issue) + detail
}

/// The state of the normalizer between lines.
pub struct UdsState {
    pub matches: Seq<ResponseView>,
    pub issues: Seq<(Option<Seq<char>>, UdsIssue, Seq<char>)>,
    pub assemblies: Seq<AssemblyView>,
}

pub open spec fn with_issue(
    state: UdsState,
    responder: Option<Seq<char>>,
    issue: UdsIssue,
    detail: Seq<char>,
) -> UdsState {
    UdsState { issues: state.issues.push((responder, issue, detail)), ..state }
}

pub open spec fn push_nonempty(
    matches: Seq<ResponseView>,
    responder: Option<Seq<char>>,
    payload: Seq<u8>,
) -> Seq<ResponseView> {
    if payload.len() > 0 {
        matches.push(ResponseView { responder, payload })
    } else {
        matches
    }
}

pub open spec fn with_frame(state: UdsState, responder: Option<Seq<char>>, payload: Seq<u8>) -> UdsState {
    UdsState { matches: push_nonempty(state.matches, responder, payload), ..state }
}

/// The first reassembly of a responder, or -1.
pub open spec fn find_assembly(assemblies: Seq<AssemblyView>, responder: Option<Seq<char>>) -> int
    decreases assemblies.len(),
{
    if assemblies.len() == 0 {
        -1
    } else if assemblies.last().responder == responder && find_assembly(
        assemblies.drop_last(),
        responder,
    ) == -1 {
        assemblies.len() - 1
    } else {
        find_assembly(assemblies.drop_last(), responder)
    }
}

/// The reassemblies of other responders.
pub open spec fn without_responder(assemblies: Seq<AssemblyView>, responder: Option<Seq<char>>) -> Seq<
    AssemblyView,
> {
    assemblies.filter(|a: AssemblyView| a.responder != responder)
}

/// UDS answer padding.
pub open spec fn is_uds_padding(byte: u8) -> bool {
    byte == 0x00 || byte == 0x55 || byte == 0xaa
}

/// A stale functional Mode 01 frame, not a UDS answer.
pub open spec fn is_mode01_frame(bytes: Seq<u8>) -> bool {
    bytes.len() > 0 && (bytes[0] == 0x41 || (bytes[0] / 16 == 0 && bytes.len() > 1 && bytes[1] == 0x41))
}

/// An adapter status rejecting the request (any occurrence counts).
pub open spec fn is_uds_status(upper: Seq<char>) -> bool {
    ||| has_substring(upper, "?"@)
    ||| has_substring(upper, "NO DATA"@)
    ||| has_substring(upper, "STOPPED"@)
    ||| has_substring(upper, "UNABLE TO CONNECT"@)
    ||| has_substring(upper, "ERROR"@)
}

pub open spec fn observed_name(responder: Option<Seq<char>>) -> Seq<char> {
    match responder {
        Some(name) => name,
        None => "unknown"@,
    }
}

pub open spec fn uds_single_frame(
    state: UdsState,
    responder: Option<Seq<char>>,
    bytes: Seq<u8>,
    line: Seq<char>,
) -> UdsState {
    let declared = (bytes[0] % 16) as int;
    let payload = bytes.drop_first();
    if declared == 0 {
        with_issue(state, responder, UdsIssue::MalformedSingleFrame, debug_text(line))
    } else if payload.len() < declared {
        with_issue(
            with_frame(state, responder, payload),
            responder,
            UdsIssue::TruncatedSingleFrame,
            count_detail(declared, payload.len() as int),
        )
    } else if exists|k: int| declared <= k < payload.len() && !is_uds_padding(#[trigger] payload[k]) {
        with_issue(
            with_frame(state, responder, payload.take(declared)),
            responder,
            UdsIssue::UnexpectedAfterSingleFrame,
            debug_text(line),
        )
    } else {
        with_frame(state, responder, payload.take(declared))
    }
}

pub open spec fn uds_first_frame(
    state: UdsState,
    responder: Option<Seq<char>>,
    bytes: Seq<u8>,
    line: Seq<char>,
) -> UdsState {
    if bytes.len() < 3 {
        with_issue(state, responder, UdsIssue::MalformedFirstFrame, debug_text(line))
    } else {
        let declared = (bytes[0] % 16) as int * 256 + bytes[1] as int;
        let payload = bytes.skip(2);
        if declared < 3 || payload.len() >= declared {
            with_issue(
                state,
                responder,
                UdsIssue::MalformedFirstFrame,
                "declared "@ + count_detail(declared, payload.len() as int),
            )
        } else if find_assembly(state.assemblies, responder) >= 0 {
            with_issue(
                UdsState { assemblies: without_responder(state.assemblies, responder), ..state },
                responder,
                UdsIssue::DuplicateFirstFrame,
                debug_text(line),
            )
        } else {
            UdsState {
                assemblies: state.assemblies.push(
                    AssemblyView { responder, declared_len: declared, payload, next_sequence: 1 },
                ),
                ..state
            }
        }
    }
}

pub open spec fn uds_consecutive_frame(
    state: UdsState,
    responder: Option<Seq<char>>,
    bytes: Seq<u8>,
    line: Seq<char>,
) -> UdsState {
    let index = find_assembly(state.assemblies, responder);
    if index < 0 {
        with_issue(state, responder, UdsIssue::ConsecutiveWithoutFirst, debug_text(line))
    } else {
        let removed = UdsState { assemblies: state.assemblies.remove(index), ..state };
        let assembly = state.assemblies[index];
        let sequence = bytes[0] % 16;
        let data = bytes.drop_first();
        let received = assembly.payload.len() as int;
        if bytes.len() < 2 {
            with_issue(removed, responder, UdsIssue::MalformedConsecutive, debug_text(line))
        } else if sequence != assembly.next_sequence {
            with_issue(
                removed,
                responder,
                UdsIssue::SequenceMismatch,
                decimal(assembly.next_sequence as nat) + ", got "@ + decimal(sequence as nat),
            )
        } else if received >= assembly.declared_len {
            with_issue(removed, responder, UdsIssue::Exceeded, debug_text(line))
        } else {
            let remaining = assembly.declared_len - received;
            if data.len() > remaining && exists|k: int|
                remaining <= k < data.len() && !is_uds_padding(#[trigger] data[k]) {
                with_issue(removed, responder, UdsIssue::Exceeded, debug_text(line))
            } else {
                let taken = if data.len() < remaining {
                    data
                } else {
                    data.take(remaining)
                };
                let payload = assembly.payload + taken;
                if payload.len() == assembly.declared_len {
                    with_frame(removed, responder, payload)
                } else {
                    UdsState {
                        assemblies: state.assemblies.update(
                            index,
                            AssemblyView {
                                payload,
                                next_sequence: ((sequence + 1) % 16) as u8,
                                ..assembly
                            },
                        ),
                        ..state
                    }
                }
            }
        }
    }
}

/// Some token is not a run of byte pairs.
pub open spec fn has_bad_token(data: Seq<Seq<char>>) -> bool {
    exists|k: int| 0 <= k < data.len() && !is_byte_token(#[trigger] data[k])
}

/// What one cleaned line does to the normalizer state.
pub open spec fn uds_line(state: UdsState, line: Seq<char>, did: u16) -> UdsState {
    let upper = ascii_upper(line);
    let tokens = ascii_tokens(line);
    let header = header_of(tokens);
    let responder = match header {
        Some(h) => Some(ascii_upper(h)),
        None => None,
    };
    let start = if header is Some {
        1int
    } else {
        0int
    };
    let data = tokens.skip(start);
    let bytes = token_bytes(data);
    if line.len() == 0 {
        state
    } else if is_noise_line(upper, "22"@ + hex2((did / 256) as u8) + hex2((did % 256) as u8)) {
        state
    } else if is_uds_status(upper) {
        with_issue(state, None, UdsIssue::Rejected, line)
    } else if header is Some && !all_hex(header.unwrap()) {
        with_issue(state, None, UdsIssue::MalformedHeader, debug_text(line))
    } else if has_bad_token(data) {
        with_issue(state, responder, UdsIssue::MalformedLine, debug_text(line))
    } else if is_mode01_frame(bytes) {
        with_issue(state, None, UdsIssue::IgnoredMode01(observed_name(responder)), debug_text(line))
    } else if bytes.len() == 0 {
        state
    } else if bytes[0] / 16 == 0 {
        uds_single_frame(state, responder, bytes, line)
    } else if bytes[0] / 16 == 1 {
        uds_first_frame(state, responder, bytes, line)
    } else if bytes[0] / 16 == 2 {
        uds_consecutive_frame(state, responder, bytes, line)
    } else if bytes[0] / 16 == 3 {
        with_issue(state, responder, UdsIssue::FlowControl, debug_text(line))
    } else {
        with_frame(state, responder, bytes)
    }
}

/// All lines, in order.
pub open spec fn uds_lines(state: UdsState, lines: Seq<Seq<char>>, did: u16) -> UdsState
    decreases lines.len(),
{
    if lines.len() == 0 {
        state
    } else {
        uds_lines(uds_line(state, clean_line(lines[0]), did), lines.drop_first(), did)
    }
}

/// Unfinished reassemblies keep their partial payload and are reported.
pub open spec fn uds_flush(state: UdsState, assemblies: Seq<AssemblyView>) -> UdsState
    decreases assemblies.len(),
{
    if assemblies.len() == 0 {
        state
    } else {
        let a = assemblies[0];
        uds_flush(
            with_issue(
                with_frame(state, a.responder, a.payload),
                a.responder,
                UdsIssue::TruncatedIsoTp,
                count_detail(a.declared_len, a.payload.len() as int),
            ),
            assemblies.drop_first(),
        )
    }
}

/// The outcome of normalizing a whole UDS answer.
pub open spec fn uds_outcome(response: Seq<char>, did: u16) -> UdsState {
    let initial = UdsState { matches: Seq::empty(), issues: Seq::empty(), assemblies: Seq::empty() };
    let after = uds_lines(initial, split_lines(response), did);
    let flushed = uds_flush(UdsState { assemblies: Seq::empty(), ..after }, after.assemblies);
    if flushed.matches.len() == 0 && flushed.issues.len() == 0 {
        with_issue(flushed, None, UdsIssue::NotFound, Seq::empty())
    } else {
        flushed
    }
}

/// The normalized responses match the outcome: the same responses, the raw
/// answer, and each issue with its responder and message.
pub open spec fn matches_outcome(responses: ResponsesView, response: Seq<char>, outcome: UdsState) -> bool {
    &&& responses.responses == outcome.matches
    &&& responses.raw_response == response
    &&& responses.errors.len() == outcome.issues.len()
    &&& forall|i: int|
        0 <= i < outcome.issues.len() ==> (#[trigger] responses.errors[i]).responder == outcome.issues[i].0
            && responses.errors[i].error == uds_issue_message(outcome.issues[i].1, outcome.issues[i].2)
}


/// A reassembly in progress.
pub(crate) struct Assembly {
    pub(crate) responder: Option<ResponderIdentity>,
    pub(crate) declared_len: usize,
    pub(crate) payload: Vec<u8>,
    pub(crate) next_sequence: u8,
}

pub(crate) open spec fn identity_text(responder: Option<ResponderIdentity>) -> Option<Seq<char>> {
    crate::elm::responder_text(responder)
}

pub(crate) open spec fn assembly_view(a: Assembly) -> AssemblyView {
    AssemblyView {
        responder: identity_text(a.responder),
        declared_len: a.declared_len as int,
        payload: a.payload@,
        next_sequence: a.next_sequence,
    }
}

pub(crate) open spec fn assembly_views(assemblies: Seq<Assembly>) -> Seq<AssemblyView> {
    assemblies.map_values(|a: Assembly| assembly_view(a))
}

/// The errors carry exactly the issues, in order.
spec fn errors_follow(errors: Seq<ResponseErrorView>, issues: Seq<(Option<Seq<char>>, UdsIssue, Seq<char>)>) -> bool {
    &&& errors.len() == issues.len()
    &&& forall|i: int|
        0 <= i < issues.len() ==> (#[trigger] errors[i]).responder == issues[i].0 && errors[i].error
            == uds_issue_message(issues[i].1, issues[i].2)
}

struct Normalizer {
    matches: Vec<DiagnosticResponse>,
    errors: Vec<DiagnosticResponseError>,
    assemblies: Vec<Assembly>,
}

spec fn state_of(n: Normalizer, issues: Seq<(Option<Seq<char>>, UdsIssue, Seq<char>)>) -> UdsState {
    UdsState {
        matches: response_views(n.matches@),
        issues,
        assemblies: assembly_views(n.assemblies@),
    }
}

spec fn consistent(n: Normalizer, issues: Seq<(Option<Seq<char>>, UdsIssue, Seq<char>)>) -> bool {
    errors_follow(error_views(n.errors@), issues)
}

pub(crate) fn copy_responder(responder: &Option<ResponderIdentity>) -> (r: Option<ResponderIdentity>)
    ensures
        identity_text(r) == identity_text(*responder),
{
    match responder {
        Some(identity) => Some(identity.duplicate()),
        None => None,
    }
}

pub(crate) fn same_responder(a: &Option<ResponderIdentity>, b: &Option<ResponderIdentity>) -> (r: bool)
    ensures
        r == (identity_text(*a) == identity_text(*b)),
{
    match (a, b) {
        (Some(x), Some(y)) => crate::text::str_eq(x.as_str(), y.as_str()),
        (None, None) => true,
        _ => false,
    }
}

impl Normalizer {
    fn add_issue(
        &mut self,
        Ghost(issues): Ghost<Seq<(Option<Seq<char>>, UdsIssue, Seq<char>)>>,
        responder: Option<ResponderIdentity>,
        Ghost(issue): Ghost<UdsIssue>,
        Ghost(detail): Ghost<Seq<char>>,
        message: String,
    ) -> (r: Ghost<Seq<(Option<Seq<char>>, UdsIssue, Seq<char>)>>)
        requires
            consistent(*old(self), issues),
            message@ == uds_issue_message(issue, detail),
        ensures
            consistent(*final(self), r@),
            state_of(*final(self), r@) == with_issue(
                state_of(*old(self), issues),
                identity_text(responder),
                issue,
                detail,
            ),
            final(self).matches == old(self).matches,
            final(self).assemblies == old(self).assemblies,
    {
        let ghost before = error_views(self.errors@);
        let error = DiagnosticResponseError { responder, error: message };
        self.errors.push(error);
        let ghost next = issues.push((identity_text(error.responder), issue, detail));
        assert(error_views(self.errors@) =~= before.push(error@));
        assert forall|i: int| 0 <= i < next.len() implies (#[trigger] error_views(self.errors@)[i]).responder
            == next[i].0 && error_views(self.errors@)[i].error == uds_issue_message(next[i].1, next[i].2) by {
            if i < issues.len() {
                assert(error_views(self.errors@)[i] == before[i]);
            }
        }
        Ghost(next)
    }

    fn add_frame(&mut self, responder: Option<ResponderIdentity>, payload: Vec<u8>)
        ensures
            final(self).errors == old(self).errors,
            final(self).assemblies == old(self).assemblies,
            response_views(final(self).matches@) == push_nonempty(
                response_views(old(self).matches@),
                identity_text(responder),
                payload@,
            ),
    {
        if payload.len() > 0 {
            let ghost before = response_views(self.matches@);
            let response = DiagnosticResponse { responder, payload };
            self.matches.push(response);
            assert(response_views(self.matches@) =~= before.push(response@));
        }
    }
}

pub(crate) fn quoted_message(prefix: &str, line: &Vec<char>) -> (r: String)
    ensures
        r@ == prefix@ + debug_text(line@),
{
    let text = string_from_chars(line.as_slice());
    let quoted = debug_quoted(text.as_str());
    concat(prefix, quoted.as_str())
}

pub(crate) fn plain_message(prefix: &str, rest: &str) -> (r: String)
    ensures
        r@ == prefix@ + rest@,
{
    concat(prefix, rest)
}

pub(crate) proof fn lemma_find_assembly(assemblies: Seq<AssemblyView>, responder: Option<Seq<char>>)
    ensures
        -1 <= find_assembly(assemblies, responder) < assemblies.len(),
        find_assembly(assemblies, responder) == -1 <==> forall|j: int|
            0 <= j < assemblies.len() ==> #[trigger] assemblies[j].responder != responder,
        find_assembly(assemblies, responder) >= 0 ==> ({
            let i = find_assembly(assemblies, responder);
            &&& assemblies[i].responder == responder
            &&& forall|j: int| 0 <= j < i ==> #[trigger] assemblies[j].responder != responder
        }),
    decreases assemblies.len(),
{
    if assemblies.len() > 0 {
        lemma_find_assembly(assemblies.drop_last(), responder);
        let rest = assemblies.drop_last();
        assert forall|j: int| 0 <= j < rest.len() implies rest[j] == assemblies[j] by {}
    }
}

pub(crate) fn find_assembly_exec(assemblies: &Vec<Assembly>, responder: &Option<ResponderIdentity>) -> (r: Option<usize>)
    ensures
        match r {
            Some(i) => find_assembly(assembly_views(assemblies@), identity_text(*responder)) == i as int,
            None => find_assembly(assembly_views(assemblies@), identity_text(*responder)) == -1,
        },
{
    let ghost views = assembly_views(assemblies@);
    let ghost target = identity_text(*responder);
    proof {
        lemma_find_assembly(views, target);
    }
    let mut i: usize = 0;
    while i < assemblies.len()
        invariant
            i <= assemblies@.len(),
            views == assembly_views(assemblies@),
            target == identity_text(*responder),
            forall|j: int| 0 <= j < i ==> #[trigger] views[j].responder != target,
        decreases assemblies@.len() - i,
    {
        assert(views[i as int] == assembly_view(assemblies@[i as int]));
        if same_responder(&assemblies[i].responder, responder) {
            proof {
                lemma_find_assembly(views, target);
                let f = find_assembly(views, target);
                assert(views[i as int].responder == target);
                assert(f != -1);
                if f < i {
                    assert(views[f].responder == target);
                    assert(views[f].responder != target);
                }
                if f > i {
                    assert(views[i as int].responder != target);
                }
            }
            return Some(i);
        }
        i += 1;
    }
    proof {
        lemma_find_assembly(views, target);
    }
    None
}

pub(crate) fn remove_responder(assemblies: Vec<Assembly>, responder: &Option<ResponderIdentity>) -> (r: Vec<Assembly>)
    ensures
        assembly_views(r@) == without_responder(assembly_views(assemblies@), identity_text(*responder)),
{
    let ghost views = assembly_views(assemblies@);
    let ghost target = identity_text(*responder);
    let ghost pred = |a: AssemblyView| a.responder != target;
    let mut kept: Vec<Assembly> = Vec::new();
    let mut rest = assemblies;
    let mut i: usize = 0;
    let ghost all = rest@;
    let total = rest.len();
    while rest.len() > 0
        invariant
            all.len() == total,
            views == assembly_views(all),
            target == identity_text(*responder),
            pred == (|a: AssemblyView| a.responder != target),
            i + rest@.len() == all.len(),
            rest@ == all.skip(i as int),
            assembly_views(kept@) == views.take(i as int).filter(pred),
        decreases rest@.len(),
    {
        let a = rest.remove(0);
        assert(a == all[i as int]);
        assert(rest@ =~= all.skip(i + 1));
        let ghost next = views.take(i + 1);
        assert(next.drop_last() =~= views.take(i as int));
        assert(next.last() == assembly_view(a));
        proof {
            reveal_with_fuel(Seq::filter, 2);
        }
        if !same_responder(&a.responder, responder) {
            let ghost before = assembly_views(kept@);
            kept.push(a);
            assert(assembly_views(kept@) =~= before.push(next.last()));
        }
        i += 1;
    }
    assert(views.take(i as int) =~= views);
    kept
}


pub(crate) fn slice_bytes(bytes: &Vec<u8>, from: usize, to: usize) -> (r: Vec<u8>)
    requires
        from <= to <= bytes@.len(),
    ensures
        r@ == bytes@.subrange(from as int, to as int),
{
    let mut r: Vec<u8> = Vec::new();
    let mut k = from;
    while k < to
        invariant
            from <= k <= to <= bytes@.len(),
            r@ == bytes@.subrange(from as int, k as int),
        decreases to - k,
    {
        r.push(bytes[k]);
        assert(bytes@.subrange(from as int, k + 1) =~= bytes@.subrange(from as int, k as int).push(bytes@[k as int]));
        k += 1;
    }
    r
}

pub(crate) fn padding_after(bytes: &Vec<u8>, from: usize) -> (r: bool)
    requires
        from <= bytes@.len(),
    ensures
        r == !(exists|k: int| from <= k < bytes@.len() && !is_uds_padding(#[trigger] bytes@[k])),
{
    let mut k = from;
    while k < bytes.len()
        invariant
            from <= k <= bytes@.len(),
            forall|j: int| from <= j < k ==> is_uds_padding(#[trigger] bytes@[j]),
        decreases bytes@.len() - k,
    {
        let b = bytes[k];
        if !(b == 0x00 || b == 0x55 || b == 0xaa) {
            assert(!is_uds_padding(bytes@[k as int]));
            return false;
        }
        k += 1;
    }
    true
}

/// How a declared and a received byte count are reported.
pub open spec fn count_detail(declared: int, received: int) -> Seq<char> {
    decimal(declared as nat) + " bytes, received "@ + decimal(received as nat)
}

pub(crate) fn counts_message(prefix: &str, declared: usize, received: usize) -> (r: String)
    ensures
        r@ == prefix@ + count_detail(declared as int, received as int),
{
    let declared_text = decimal_text(declared as u64);
    let received_text = decimal_text(received as u64);
    let middle = concat(declared_text.as_str(), " bytes, received ");
    let rest = concat(middle.as_str(), received_text.as_str());
    plain_message(prefix, rest.as_str())
}

fn single_frame_exec(
    n: &mut Normalizer,
    Ghost(issues): Ghost<Seq<(Option<Seq<char>>, UdsIssue, Seq<char>)>>,
    responder: &Option<ResponderIdentity>,
    bytes: &Vec<u8>,
    line: &Vec<char>,
) -> (r: Ghost<Seq<(Option<Seq<char>>, UdsIssue, Seq<char>)>>)
    requires
        consistent(*old(n), issues),
        bytes@.len() > 0,
    ensures
        consistent(*final(n), r@),
        state_of(*final(n), r@) == uds_single_frame(
            state_of(*old(n), issues),
            identity_text(*responder),
            bytes@,
            line@,
        ),
{
    let declared = (bytes[0] % 16) as usize;
    let payload = slice_bytes(bytes, 1, bytes.len());
    assert(payload@ =~= bytes@.drop_first());
    if declared == 0 {
        let message = quoted_message("malformed UDS single frame: ", line);
        return n.add_issue(
            Ghost(issues),
            copy_responder(responder),
            Ghost(UdsIssue::MalformedSingleFrame),
            Ghost(debug_text(line@)),
            message,
        );
    }
    if payload.len() < declared {
        let received = payload.len();
        n.add_frame(copy_responder(responder), payload);
        let message = counts_message("truncated UDS single frame: declared ", declared, received);
        return n.add_issue(
            Ghost(issues),
            copy_responder(responder),
            Ghost(UdsIssue::TruncatedSingleFrame),
            Ghost(count_detail(declared as int, received as int)),
            message,
        );
    }
    let kept = slice_bytes(&payload, 0, declared);
    assert(kept@ =~= payload@.take(declared as int));
    if !padding_after(&payload, declared) {
        n.add_frame(copy_responder(responder), kept);
        let message = quoted_message("unexpected bytes after UDS single frame: ", line);
        return n.add_issue(
            Ghost(issues),
            copy_responder(responder),
            Ghost(UdsIssue::UnexpectedAfterSingleFrame),
            Ghost(debug_text(line@)),
            message,
        );
    }
    n.add_frame(copy_responder(responder), kept);
    Ghost(issues)
}

fn first_frame_exec(
    n: &mut Normalizer,
    Ghost(issues): Ghost<Seq<(Option<Seq<char>>, UdsIssue, Seq<char>)>>,
    responder: &Option<ResponderIdentity>,
    bytes: &Vec<u8>,
    line: &Vec<char>,
) -> (r: Ghost<Seq<(Option<Seq<char>>, UdsIssue, Seq<char>)>>)
    requires
        consistent(*old(n), issues),
    ensures
        consistent(*final(n), r@),
        state_of(*final(n), r@) == uds_first_frame(
            state_of(*old(n), issues),
            identity_text(*responder),
            bytes@,
            line@,
        ),
{
    if bytes.len() < 3 {
        let message = quoted_message("malformed UDS first frame: ", line);
        return n.add_issue(
            Ghost(issues),
            copy_responder(responder),
            Ghost(UdsIssue::MalformedFirstFrame),
            Ghost(debug_text(line@)),
            message,
        );
    }
    let declared = (bytes[0] % 16) as usize * 256 + bytes[1] as usize;
    let payload = slice_bytes(bytes, 2, bytes.len());
    assert(payload@ =~= bytes@.skip(2));
    if declared < 3 || payload.len() >= declared {
        let counts = counts_message("declared ", declared, payload.len());
        let message = plain_message("malformed UDS first frame: ", counts.as_str());
        let ghost detail = "declared "@ + count_detail(declared as int, payload@.len() as int);
        assert(message@ =~= uds_issue_message(UdsIssue::MalformedFirstFrame, detail));
        return n.add_issue(
            Ghost(issues),
            copy_responder(responder),
            Ghost(UdsIssue::MalformedFirstFrame),
            Ghost(detail),
            message,
        );
    }
    match find_assembly_exec(&n.assemblies, responder) {
        Some(_) => {
            let mut assemblies: Vec<Assembly> = Vec::new();
            core::mem::swap(&mut assemblies, &mut n.assemblies);
            n.assemblies = remove_responder(assemblies, responder);
            let message = quoted_message("duplicate UDS first frame: ", line);
            n.add_issue(
                Ghost(issues),
                copy_responder(responder),
                Ghost(UdsIssue::DuplicateFirstFrame),
                Ghost(debug_text(line@)),
                message,
            )
        },
        None => {
            let ghost before = assembly_views(n.assemblies@);
            let assembly = Assembly {
                responder: copy_responder(responder),
                declared_len: declared,
                payload,
                next_sequence: 1,
            };
            n.assemblies.push(assembly);
            assert(assembly_views(n.assemblies@) =~= before.push(assembly_view(assembly)));
            Ghost(issues)
        },
    }
}


fn consecutive_frame_exec(
    n: &mut Normalizer,
    Ghost(issues): Ghost<Seq<(Option<Seq<char>>, UdsIssue, Seq<char>)>>,
    responder: &Option<ResponderIdentity>,
    bytes: &Vec<u8>,
    line: &Vec<char>,
) -> (r: Ghost<Seq<(Option<Seq<char>>, UdsIssue, Seq<char>)>>)
    requires
        consistent(*old(n), issues),
        bytes@.len() > 0,
    ensures
        consistent(*final(n), r@),
        state_of(*final(n), r@) == uds_consecutive_frame(
            state_of(*old(n), issues),
            identity_text(*responder),
            bytes@,
            line@,
        ),
{
    let ghost views = assembly_views(n.assemblies@);
    let index = match find_assembly_exec(&n.assemblies, responder) {
        Some(index) => index,
        None => {
            let message = quoted_message("UDS consecutive frame without first frame: ", line);
            return n.add_issue(
                Ghost(issues),
                copy_responder(responder),
                Ghost(UdsIssue::ConsecutiveWithoutFirst),
                Ghost(debug_text(line@)),
                message,
            );
        },
    };
    proof {
        lemma_find_assembly(views, identity_text(*responder));
    }
    let assembly = n.assemblies.remove(index);
    assert(assembly_views(n.assemblies@) =~= views.remove(index as int));
    assert(assembly_view(assembly) == views[index as int]);
    if bytes.len() < 2 {
        let message = quoted_message("malformed UDS consecutive frame: ", line);
        return n.add_issue(
            Ghost(issues),
            copy_responder(responder),
            Ghost(UdsIssue::MalformedConsecutive),
            Ghost(debug_text(line@)),
            message,
        );
    }
    let sequence = bytes[0] % 16;
    if sequence != assembly.next_sequence {
        let expected_text = decimal_text(assembly.next_sequence as u64);
        let got_text = decimal_text(sequence as u64);
        let middle = concat(expected_text.as_str(), ", got ");
        let rest = concat(middle.as_str(), got_text.as_str());
        let message = plain_message("UDS sequence mismatch: expected ", rest.as_str());
        return n.add_issue(
            Ghost(issues),
            copy_responder(responder),
            Ghost(UdsIssue::SequenceMismatch),
            Ghost(decimal(assembly.next_sequence as nat) + ", got "@ + decimal(sequence as nat)),
            message,
        );
    }
    let data = slice_bytes(bytes, 1, bytes.len());
    assert(data@ =~= bytes@.drop_first());
    let received = assembly.payload.len();
    if received >= assembly.declared_len {
        let message = quoted_message("UDS payload exceeded declared length: ", line);
        return n.add_issue(
            Ghost(issues),
            copy_responder(responder),
            Ghost(UdsIssue::Exceeded),
            Ghost(debug_text(line@)),
            message,
        );
    }
    let remaining = assembly.declared_len - received;
    if data.len() > remaining && !padding_after(&data, remaining) {
        let message = quoted_message("UDS payload exceeded declared length: ", line);
        return n.add_issue(
            Ghost(issues),
            copy_responder(responder),
            Ghost(UdsIssue::Exceeded),
            Ghost(debug_text(line@)),
            message,
        );
    }
    let take = if data.len() < remaining {
        data.len()
    } else {
        remaining
    };
    let taken = slice_bytes(&data, 0, take);
    assert(data.len() < remaining ==> taken@ =~= data@);
    assert(data.len() >= remaining ==> taken@ =~= data@.take(remaining as int));
    let Assembly { responder: assembly_responder, declared_len, payload, next_sequence: _ } = assembly;
    let mut payload = payload;
    let ghost old_payload = payload@;
    let mut k: usize = 0;
    while k < taken.len()
        invariant
            k <= taken@.len(),
            payload@ == old_payload + taken@.take(k as int),
        decreases taken@.len() - k,
    {
        payload.push(taken[k]);
        assert(taken@.take(k + 1) =~= taken@.take(k as int).push(taken@[k as int]));
        k += 1;
    }
    assert(taken@.take(taken@.len() as int) =~= taken@);
    if payload.len() == declared_len {
        n.add_frame(copy_responder(responder), payload);
        return Ghost(issues);
    }
    let next: u8 = (sequence + 1) % 16;
    let updated = Assembly { responder: assembly_responder, declared_len, payload, next_sequence: next };
    let ghost removed = assembly_views(n.assemblies@);
    n.assemblies.insert(index, updated);
    assert(assembly_views(n.assemblies@) =~= removed.insert(index as int, assembly_view(updated)));
    assert(views.remove(index as int).insert(index as int, assembly_view(updated)) =~= views.update(
        index as int,
        assembly_view(updated),
    ));
    Ghost(issues)
}

/// Whether every data token is a run of byte pairs.
pub(crate) fn data_tokens_ok(toks: &Vec<Vec<char>>, start: usize) -> (r: bool)
    requires
        start <= toks@.len(),
    ensures
        r == !has_bad_token(token_views(toks@).skip(start as int)),
{
    let ghost data = token_views(toks@).skip(start as int);
    let mut i = start;
    while i < toks.len()
        invariant
            start <= i <= toks@.len(),
            data == token_views(toks@).skip(start as int),
            forall|k: int| 0 <= k < i - start ==> is_byte_token(#[trigger] data[k]),
        decreases toks@.len() - i,
    {
        let token = &toks[i];
        assert(data[i - start] == token@);
        if token.len() % 2 != 0 || !all_hex_exec(token) {
            return false;
        }
        i += 1;
    }
    true
}

pub(crate) fn collect_bytes(toks: &Vec<Vec<char>>, start: usize) -> (r: Vec<u8>)
    requires
        start <= toks@.len(),
        forall|k: int|
            0 <= k < token_views(toks@).skip(start as int).len() ==> is_byte_token(
                #[trigger] token_views(toks@).skip(start as int)[k],
            ),
    ensures
        r@ == token_bytes(token_views(toks@).skip(start as int)),
{
    let ghost data = token_views(toks@).skip(start as int);
    let mut bytes: Vec<u8> = Vec::new();
    let mut i = start;
    assert(data.take(0) =~= Seq::<Seq<char>>::empty());
    while i < toks.len()
        invariant
            start <= i <= toks@.len(),
            data == token_views(toks@).skip(start as int),
            forall|k: int| 0 <= k < data.len() ==> is_byte_token(#[trigger] data[k]),
            bytes@ == token_bytes(data.take(i - start)),
        decreases toks@.len() - i,
    {
        let token = &toks[i];
        assert(data[i - start] == token@);
        assert(is_byte_token(data[i - start]));
        push_hex_bytes(&mut bytes, token);
        let ghost taken = data.take(i - start + 1);
        assert(taken.drop_last() =~= data.take(i - start));
        i += 1;
    }
    assert(data.take(toks@.len() - start) =~= data);
    bytes
}

fn ignored_message(responder: &Option<ResponderIdentity>, line: &Vec<char>) -> (r: String)
    ensures
        r@ == uds_issue_message(
            UdsIssue::IgnoredMode01(observed_name(identity_text(*responder))),
            debug_text(line@),
        ),
{
    let observed = match responder {
        Some(identity) => owned(identity.as_str()),
        None => owned("unknown"),
    };
    let head = concat("ignored unrelated OBD-II Mode 01 response from responder ", observed.as_str());
    let prefix = concat(head.as_str(), " while awaiting UDS 22 response: ");
    let text = string_from_chars(line.as_slice());
    let quoted = debug_quoted(text.as_str());
    concat(prefix.as_str(), quoted.as_str())
}



fn uds_line_exec(
    n: &mut Normalizer,
    Ghost(issues): Ghost<Seq<(Option<Seq<char>>, UdsIssue, Seq<char>)>>,
    line: &Vec<char>,
    did: u16,
) -> (r: Ghost<Seq<(Option<Seq<char>>, UdsIssue, Seq<char>)>>)
    requires
        consistent(*old(n), issues),
    ensures
        consistent(*final(n), r@),
        state_of(*final(n), r@) == uds_line(state_of(*old(n), issues), line@, did),
{
    if line.len() == 0 {
        return Ghost(issues);
    }
    let upper = to_upper(line);
    let mut echo = crate::text::chars_of("22");
    let high = hex2_chars((did / 256) as u8);
    let low = hex2_chars((did % 256) as u8);
    echo.push(high[0]);
    echo.push(high[1]);
    echo.push(low[0]);
    echo.push(low[1]);
    assert(echo@ =~= "22"@ + hex2((did / 256) as u8) + hex2((did % 256) as u8));
    if crate::elm::noise_line_exec(&upper, &echo) {
        return Ghost(issues);
    }
    if crate::elm::uds_status_line(&upper) {
        let text = string_from_chars(line.as_slice());
        let message = plain_message("ELM327 rejected UDS 22 response: ", text.as_str());
        return n.add_issue(Ghost(issues), None, Ghost(UdsIssue::Rejected), Ghost(line@), message);
    }
    let toks = tokens(line);
    let ghost views = token_views(toks@);
    let header: Option<Vec<char>> = if toks.len() > 0 && toks[0].len() == 3 {
        Some(crate::elm::copy_chars(&toks[0]))
    } else {
        None
    };
    assert(toks.len() > 0 ==> views[0] == toks@[0]@);
    assert(views == ascii_tokens(line@));
    assert(header_of(views) == (match header {
        Some(h) => Some(h@),
        None => None,
    }));
    let responder: Option<ResponderIdentity> = match &header {
        Some(h) => {
            if !all_hex_exec(h) {
                let message = quoted_message("malformed ELM327 UDS responder header: ", line);
                return n.add_issue(
                    Ghost(issues),
                    None,
                    Ghost(UdsIssue::MalformedHeader),
                    Ghost(debug_text(line@)),
                    message,
                );
            }
            Some(ResponderIdentity::ElmHeader(string_from_chars(to_upper(h).as_slice())))
        },
        None => None,
    };
    assert(identity_text(responder) == (match header_of(views) {
        Some(h) => Some(ascii_upper(h)),
        None => None,
    }));
    let start: usize = if header.is_some() {
        1
    } else {
        0
    };
    if !data_tokens_ok(&toks, start) {
        let message = quoted_message("malformed ELM327 UDS response line: ", line);
        return n.add_issue(
            Ghost(issues),
            responder,
            Ghost(UdsIssue::MalformedLine),
            Ghost(debug_text(line@)),
            message,
        );
    }
    let bytes = collect_bytes(&toks, start);
    let mode01 = bytes.len() > 0 && (bytes[0] == 0x41 || (bytes[0] / 16 == 0 && bytes.len() > 1 && bytes[1] == 0x41));
    if mode01 {
        let message = ignored_message(&responder, line);
        return n.add_issue(
            Ghost(issues),
            None,
            Ghost(UdsIssue::IgnoredMode01(observed_name(identity_text(responder)))),
            Ghost(debug_text(line@)),
            message,
        );
    }
    if bytes.len() == 0 {
        return Ghost(issues);
    }
    let kind = bytes[0] / 16;
    if kind == 0 {
        single_frame_exec(n, Ghost(issues), &responder, &bytes, line)
    } else if kind == 1 {
        first_frame_exec(n, Ghost(issues), &responder, &bytes, line)
    } else if kind == 2 {
        consecutive_frame_exec(n, Ghost(issues), &responder, &bytes, line)
    } else if kind == 3 {
        let message = quoted_message("unexpected UDS flow-control frame: ", line);
        n.add_issue(
            Ghost(issues),
            responder,
            Ghost(UdsIssue::FlowControl),
            Ghost(debug_text(line@)),
            message,
        )
    } else {
        n.add_frame(responder, bytes);
        Ghost(issues)
    }
}


/// Normalize one ELM327 answer to a UDS ReadDataByIdentifier request into
/// application payloads, keeping every responder, every issue and the raw
/// adapter text. Multi-frame answers are reassembled per responder.
pub fn normalize_uds_responses(response: &str, did: u16) -> (r: Result<DiagnosticResponses, String>)
    ensures
        (r matches Ok(responses) && matches_outcome(responses@, response@, uds_outcome(response@, did))),
{
    let lines = split_response_lines(response);
    let ghost views = lines@.map_values(|l: Vec<char>| l@);
    let mut n = Normalizer { matches: Vec::new(), errors: Vec::new(), assemblies: Vec::new() };
    let ghost initial = UdsState { matches: Seq::empty(), issues: Seq::empty(), assemblies: Seq::empty() };
    let ghost mut issues: Seq<(Option<Seq<char>>, UdsIssue, Seq<char>)> = Seq::empty();
    proof {
        assert(views.skip(0) =~= views);
        assert(response_views(n.matches@) =~= Seq::<ResponseView>::empty());
        assert(assembly_views(n.assemblies@) =~= Seq::<AssemblyView>::empty());
        assert(error_views(n.errors@) =~= Seq::<ResponseErrorView>::empty());
        assert(state_of(n, issues) == initial);
    }
    let mut i: usize = 0;
    while i < lines.len()
        invariant
            i <= lines@.len(),
            views == lines@.map_values(|l: Vec<char>| l@),
            views == split_lines(response@),
            consistent(n, issues),
            uds_lines(initial, views, did) == uds_lines(state_of(n, issues), views.skip(i as int), did),
        decreases lines@.len() - i,
    {
        let line = clean(&lines[i]);
        assert(views[i as int] == lines@[i as int]@);
        let ghost rest = views.skip(i as int);
        assert(rest[0] == views[i as int]);
        assert(rest.drop_first() =~= views.skip(i + 1));
        let ghost before = state_of(n, issues);
        let Ghost(next) = uds_line_exec(&mut n, Ghost(issues), &line, did);
        proof {
            issues = next;
        }
        i += 1;
    }
    assert(views.skip(lines@.len() as int) =~= Seq::<Seq<char>>::empty());
    let ghost after = uds_lines(initial, views, did);
    let mut pending: Vec<Assembly> = Vec::new();
    core::mem::swap(&mut pending, &mut n.assemblies);
    let ghost all = pending@;
    proof {
        assert(assembly_views(n.assemblies@) =~= Seq::<AssemblyView>::empty());
        assert(state_of(n, issues) == UdsState { assemblies: Seq::empty(), ..after });
        assert(assembly_views(all) == after.assemblies);
        assert(assembly_views(all).skip(0) =~= assembly_views(all));
    }
    let mut j: usize = 0;
    let total = pending.len();
    while pending.len() > 0
        invariant
            all.len() == total,
            j + pending@.len() == total,
            pending@ == all.skip(j as int),
            assembly_views(all) == after.assemblies,
            n.assemblies@.len() == 0,
            consistent(n, issues),
            uds_flush(UdsState { assemblies: Seq::empty(), ..after }, after.assemblies) == uds_flush(
                state_of(n, issues),
                assembly_views(all).skip(j as int),
            ),
        decreases pending@.len(),
    {
        let a = pending.remove(0);
        assert(a == all[j as int]);
        assert(pending@ =~= all.skip(j + 1));
        let ghost rest = assembly_views(all).skip(j as int);
        assert(rest[0] == assembly_view(a));
        assert(rest.drop_first() =~= assembly_views(all).skip(j + 1));
        let Assembly { responder, declared_len, payload, next_sequence: _ } = a;
        let received = payload.len();
        let message = counts_message("truncated UDS ISO-TP response: declared ", declared_len, received);
        n.add_frame(copy_responder(&responder), payload);
        let Ghost(next) = n.add_issue(
            Ghost(issues),
            responder,
            Ghost(UdsIssue::TruncatedIsoTp),
            Ghost(count_detail(declared_len as int, received as int)),
            message,
        );
        proof {
            issues = next;
        }
        j += 1;
    }
    assert(assembly_views(all).skip(total as int) =~= Seq::<AssemblyView>::empty());
    if n.matches.len() == 0 && n.errors.len() == 0 {
        let message = owned("UDS 22 response not found");
        assert(message@ =~= uds_issue_message(UdsIssue::NotFound, Seq::empty()));
        let Ghost(next) = n.add_issue(
            Ghost(issues),
            None,
            Ghost(UdsIssue::NotFound),
            Ghost(Seq::empty()),
            message,
        );
        proof {
            issues = next;
        }
    }
    let Normalizer { matches, errors, assemblies: _ } = n;
    let responses = DiagnosticResponses::from_parts(matches, owned(response), errors);
    Ok(responses)
}


/// Every reassembly in progress holds fewer bytes than it declared.
pub open spec fn assemblies_within_declared(assemblies: Seq<AssemblyView>) -> bool {
    forall|i: int| 0 <= i < assemblies.len() ==> (#[trigger] assemblies[i]).payload.len() < assemblies[i].declared_len
}

pub(crate) proof fn lemma_without_responder_within(assemblies: Seq<AssemblyView>, responder: Option<Seq<char>>)
    requires
        assemblies_within_declared(assemblies),
    ensures
        assemblies_within_declared(without_responder(assemblies, responder)),
{
    let kept = without_responder(assemblies, responder);
    assert forall|i: int| 0 <= i < kept.len() implies (#[trigger] kept[i]).payload.len() < kept[i].declared_len by {
        let pred = |a: AssemblyView| a.responder != responder;
        assert(kept.contains(kept[i]));
        assemblies.lemma_filter_contains_rev(pred, kept[i]);
    }
}

proof fn lemma_uds_line_within(state: UdsState, line: Seq<char>, did: u16)
    requires
        assemblies_within_declared(state.assemblies),
    ensures
        assemblies_within_declared(uds_line(state, line, did).assemblies),
{
    lemma_without_responder_within(state.assemblies, None);
    let tokens = ascii_tokens(line);
    let header = header_of(tokens);
    let responder = match header {
        Some(h) => Some(ascii_upper(h)),
        None => None,
    };
    lemma_without_responder_within(state.assemblies, responder);
    lemma_find_assembly(state.assemblies, responder);
    let index = find_assembly(state.assemblies, responder);
    if index >= 0 {
        let removed = state.assemblies.remove(index);
        assert(assemblies_within_declared(removed)) by {
            assert forall|i: int| 0 <= i < removed.len() implies (#[trigger] removed[i]).payload.len()
                < removed[i].declared_len by {
                if i < index {
                    assert(removed[i] == state.assemblies[i]);
                } else {
                    assert(removed[i] == state.assemblies[i + 1]);
                }
            }
        }
    }
}

proof fn lemma_uds_lines_within(state: UdsState, lines: Seq<Seq<char>>, did: u16)
    requires
        assemblies_within_declared(state.assemblies),
    ensures
        assemblies_within_declared(uds_lines(state, lines, did).assemblies),
    decreases lines.len(),
{
    if lines.len() > 0 {
        lemma_uds_line_within(state, clean_line(lines[0]), did);
        lemma_uds_lines_within(uds_line(state, clean_line(lines[0]), did), lines.drop_first(), did);
    }
}

/// However an answer's lines arrive, a multi-frame UDS answer in progress
/// never holds as many bytes as it declared: a reassembly is reported as
/// a payload exactly when it is complete.
pub proof fn law_uds_reassembly_stays_below_declared_length(response: Seq<char>, did: u16)
    ensures
        assemblies_within_declared(
            uds_lines(
                UdsState { matches: Seq::empty(), issues: Seq::empty(), assemblies: Seq::empty() },
                split_lines(response),
                did,
            ).assemblies,
        ),
{
    lemma_uds_lines_within(
        UdsState { matches: Seq::empty(), issues: Seq::empty(), assemblies: Seq::empty() },
        split_lines(response),
        did,
    );
}

/// A UDS answer is never silently empty: the outcome holds a payload or
/// names an issue.
pub proof fn law_uds_outcome_is_never_silent(response: Seq<char>, did: u16)
    ensures
        uds_outcome(response, did).matches.len() > 0 || uds_outcome(response, did).issues.len() > 0,
{
}

} // verus!
