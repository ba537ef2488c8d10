//! Normalization of ELM327 answers to the Mode 03 (stored DTC) request,
//! including ISO-TP reassembly per responder.

use vstd::prelude::*;

use crate::elm::{
    first_bad_exec, first_bad_token, header_of, is_byte_token, is_noise_line, line_bytes,
    response_views, token_bytes, token_views, DiagnosticResponse, DiagnosticResponseError,
    DiagnosticResponses, ResponderIdentity, ResponseErrorView, ResponseView, ResponsesView,
    error_views,
};
use crate::elm_text::{
    all_hex, all_hex_exec, ascii_tokens, ascii_upper, clean, clean_line, push_hex_bytes,
    split_lines, split_response_lines, to_upper, tokens,
};
use crate::elm_uds::{
    assembly_view, assembly_views, copy_responder, counts_message, find_assembly,
    find_assembly_exec, identity_text, is_uds_status, lemma_find_assembly, plain_message,
    quoted_message, remove_responder, slice_bytes, without_responder, Assembly, AssemblyView,
    assemblies_within_declared, count_detail, lemma_without_responder_within,
};
use crate::text::{concat, debug_text, decimal, decimal_text, owned, string_from_chars};

verus! {

/// The issues the Mode 03 normalizer reports.
pub enum Mode03Issue {
    Rejected,
    MalformedHeader,
    MalformedLine,
    MalformedSingleFrame,
    TruncatedSingleFrame,
    UnexpectedAfterSingleFrame,
    MalformedFirstFrame,
    DuplicateFirstFrame,
    ConsecutiveWithoutFirst,
    MalformedConsecutive,
    SequenceMismatch,
    Exceeded,
    FlowControl,
    Interleaved,
    PositiveNotFound,
    MalformedPayload,
    TruncatedIsoTp,
    NotFound,
}

/// The prefix of the message of each issue.
pub open spec fn mode03_issue_prefix(issue: Mode03Issue) -> Seq<char> {
    match issue {
        Mode03Issue::Rejected => "ELM327 rejected Mode 03 response: "@,
        Mode03Issue::MalformedHeader => "malformed ELM327 responder header: "@,
        Mode03Issue::MalformedLine => "malformed ELM327 Mode 03 response line: "@,
        Mode03Issue::MalformedSingleFrame => "malformed Mode 03 single frame: "@,
        Mode03Issue::TruncatedSingleFrame => "truncated Mode 03 single frame: declared "@,
        Mode03Issue::UnexpectedAfterSingleFrame => "unexpected bytes after Mode 03 single frame: "@,
        Mode03Issue::MalformedFirstFrame => "malformed Mode 03 first frame: "@,
        Mode03Issue::DuplicateFirstFrame => "duplicate Mode 03 first frame: "@,
        Mode03Issue::ConsecutiveWithoutFirst => "Mode 03 consecutive frame without first frame: "@,
        Mode03Issue::MalformedConsecutive => "malformed Mode 03 consecutive frame: "@,
        Mode03Issue::SequenceMismatch => "Mode 03 sequence mismatch: expected "@,
        Mode03Issue::Exceeded => "Mode 03 ISO-TP payload exceeded declared length: "@,
        Mode03Issue::FlowControl => "unexpected Mode 03 flow-control frame: "@,
        Mode03Issue::Interleaved => "interleaved Mode 03 response frame: "@,
        Mode03Issue::PositiveNotFound => "Mode 03 positive response not found: "@,
        Mode03Issue::MalformedPayload => "malformed normalized Mode 03 payload: "@,
        Mode03Issue::TruncatedIsoTp => "truncated Mode 03 ISO-TP response: declared "@,
        Mode03Issue::NotFound => "Mode 03 response not found"@,
    }
}

/// The message of an issue: its prefix, then the detail that follows it
/// (the quoted line, the byte counts, or nothing).
pub open spec fn mode03_issue_message(issue: Mode03Issue, detail: Seq<char>) -> Seq<char> {
    mode03_issue_prefix(issue) + detail
}

/// The state of the normalizer between lines.
pub struct Mode03State {
    pub matches: Seq<ResponseView>,
    pub issues: Seq<(Option<Seq<char>>, Mode03Issue, Seq<char>)>,
    pub assemblies: Seq<AssemblyView>,
}

pub open spec fn with_issue(
    state: Mode03State,
    responder: Option<Seq<char>>,
    issue: Mode03Issue,
    detail: Seq<char>,
) -> Mode03State {
    Mode03State { issues: state.issues.push((responder, issue, detail)), ..state }
}

pub open spec fn with_match(state: Mode03State, responder: Option<Seq<char>>, payload: Seq<u8>) -> Mode03State {
    Mode03State { matches: state.matches.push(ResponseView { responder, payload }), ..state }
}

pub open spec fn with_assemblies(state: Mode03State, assemblies: Seq<AssemblyView>) -> Mode03State {
    Mode03State { assemblies, ..state }
}

/// Mode 03 answer padding.
pub open spec fn is_mode03_padding(byte: u8) -> bool {
    byte == 0x00 || byte == 0xaa
}

/// The first index of `byte`, or -1.
pub open spec fn position_of(bytes: Seq<u8>, byte: u8) -> int
    decreases bytes.len(),
{
    if bytes.len() == 0 {
        -1
    } else if bytes[0] == byte {
        0
    } else if position_of(bytes.drop_first(), byte) < 0 {
        -1
    } else {
        position_of(bytes.drop_first(), byte) + 1
    }
}

/// The bytes after the frame byte hold padding only from `from` on.
pub open spec fn padding_from(bytes: Seq<u8>, from: int) -> bool {
    forall|k: int| from <= k < bytes.len() ==> is_mode03_padding(#[trigger] bytes[k])
}

/// A normalized payload: the empty DTC list `43 00`, or `43` and whole DTCs.
pub open spec fn is_well_formed_payload(payload: Seq<u8>) -> bool {
    payload =~= seq![0x43u8, 0x00u8] || (payload.len() >= 3 && (payload.len() - 1) % 2 == 0)
}

/// A normalized payload starting at the positive response byte; in strict
/// mode that byte must come first and a malformed payload is dropped.
pub open spec fn mode03_payload(
    state: Mode03State,
    responder: Option<Seq<char>>,
    bytes: Seq<u8>,
    strict: bool,
    line: Seq<char>,
) -> Mode03State {
    let start = if strict {
        if bytes.len() > 0 && bytes[0] == 0x43 {
            0
        } else {
            -1
        }
    } else {
        position_of(bytes, 0x43)
    };
    if start < 0 {
        let kept = if !strict && bytes.len() > 0 {
            with_match(state, responder, bytes)
        } else {
            state
        };
        with_issue(kept, responder, Mode03Issue::PositiveNotFound, debug_text(line))
    } else {
        let payload = bytes.skip(start);
        if !is_well_formed_payload(payload) {
            let reported = with_issue(state, responder, Mode03Issue::MalformedPayload, debug_text(line));
            if strict {
                reported
            } else {
                with_match(reported, responder, payload)
            }
        } else {
            with_match(state, responder, payload)
        }
    }
}

/// What the bytes before a malformed token still yield.
pub open spec fn mode03_partial(state: Mode03State, responder: Option<Seq<char>>, bytes: Seq<u8>) -> Mode03State {
    if bytes.len() > 0 && (bytes[0] / 16 == 1 || bytes[0] / 16 == 2) {
        let index = find_assembly(state.assemblies, responder);
        if index >= 0 {
            with_assemblies(state, state.assemblies.remove(index))
        } else {
            state
        }
    } else if bytes.len() > 0 && bytes[0] / 16 == 0 {
        let declared = (bytes[0] % 16) as int;
        let payload = bytes.drop_first();
        let start = position_of(payload, 0x43);
        if start >= 0 {
            let end = if payload.len() < start + declared {
                payload.len() as int
            } else {
                start + declared
            };
            with_match(state, responder, payload.subrange(start, end))
        } else {
            state
        }
    } else {
        let start = position_of(bytes, 0x43);
        if start >= 0 {
            with_match(state, responder, bytes.skip(start))
        } else {
            state
        }
    }
}

pub open spec fn mode03_single_frame(
    state: Mode03State,
    responder: Option<Seq<char>>,
    bytes: Seq<u8>,
    line: Seq<char>,
) -> Mode03State {
    let declared = (bytes[0] % 16) as int;
    let payload = bytes.drop_first();
    if declared == 0 {
        with_issue(state, responder, Mode03Issue::MalformedSingleFrame, debug_text(line))
    } else if payload.len() < declared {
        let start = position_of(payload, 0x43);
        let kept = if start >= 0 {
            with_match(state, responder, payload.skip(start))
        } else {
            state
        };
        with_issue(kept, responder, Mode03Issue::TruncatedSingleFrame, count_detail(declared, payload.len() as int))
    } else if !padding_from(payload, declared) {
        with_issue(state, responder, Mode03Issue::UnexpectedAfterSingleFrame, debug_text(line))
    } else {
        mode03_payload(state, responder, payload.take(declared), false, line)
    }
}

pub open spec fn mode03_first_frame(
    state: Mode03State,
    responder: Option<Seq<char>>,
    bytes: Seq<u8>,
    line: Seq<char>,
) -> Mode03State {
    if bytes.len() < 3 {
        with_issue(state, responder, Mode03Issue::MalformedFirstFrame, debug_text(line))
    } else {
        let declared = (bytes[0] % 16) as int * 256 + bytes[1] as int;
        let payload = bytes.skip(2);
        if declared < 3 || payload.len() >= declared {
            with_issue(
                state,
                responder,
                Mode03Issue::MalformedFirstFrame,
                "declared "@ + count_detail(declared, payload.len() as int),
            )
        } else if find_assembly(state.assemblies, responder) >= 0 {
            with_issue(
                with_assemblies(state, without_responder(state.assemblies, responder)),
                responder,
                Mode03Issue::DuplicateFirstFrame,
                debug_text(line),
            )
        } else {
            with_assemblies(
                state,
                state.assemblies.push(
                    AssemblyView { responder, declared_len: declared, payload, next_sequence: 1 },
                ),
            )
        }
    }
}

pub open spec fn mode03_consecutive_frame(
    state: Mode03State,
    responder: Option<Seq<char>>,
    bytes: Seq<u8>,
    line: Seq<char>,
) -> Mode03State {
    let index = find_assembly(state.assemblies, responder);
    if index < 0 {
        with_issue(state, responder, Mode03Issue::ConsecutiveWithoutFirst, debug_text(line))
    } else {
        let removed = with_assemblies(state, state.assemblies.remove(index));
        let assembly = state.assemblies[index];
        let sequence = bytes[0] % 16;
        let data = bytes.drop_first();
        let received = assembly.payload.len() as int;
        if bytes.len() < 2 {
            with_issue(removed, responder, Mode03Issue::MalformedConsecutive, debug_text(line))
        } else if sequence != assembly.next_sequence {
            with_issue(
                removed,
                responder,
                Mode03Issue::SequenceMismatch,
                decimal(assembly.next_sequence as nat) + ", got "@ + decimal(sequence as nat),
            )
        } else if received >= assembly.declared_len {
            with_issue(removed, responder, Mode03Issue::Exceeded, debug_text(line))
        } else {
            let remaining = assembly.declared_len - received;
            if data.len() > remaining && !padding_from(data, remaining) {
                with_issue(removed, responder, Mode03Issue::Exceeded, debug_text(line))
            } else {
                let taken = if data.len() < remaining {
                    data
                } else {
                    data.take(remaining)
                };
                let payload = assembly.payload + taken;
                if payload.len() == assembly.declared_len {
                    mode03_payload(removed, responder, payload, true, line)
                } else {
                    with_assemblies(
                        state,
                        state.assemblies.update(
                            index,
                            AssemblyView { payload, next_sequence: ((sequence + 1) % 16) as u8, ..assembly },
                        ),
                    )
                }
            }
        }
    }
}

/// What the bytes of a well-formed line do to the state.
pub open spec fn mode03_frame(
    state: Mode03State,
    responder: Option<Seq<char>>,
    bytes: Seq<u8>,
    line: Seq<char>,
) -> Mode03State {
    if bytes.len() > 0 && bytes[0] / 16 == 0 {
        mode03_single_frame(state, responder, bytes, line)
    } else if bytes.len() > 0 && bytes[0] / 16 == 1 {
        mode03_first_frame(state, responder, bytes, line)
    } else if bytes.len() > 0 && bytes[0] / 16 == 2 {
        mode03_consecutive_frame(state, responder, bytes, line)
    } else if bytes.len() > 0 && bytes[0] / 16 == 3 {
        let index = find_assembly(state.assemblies, responder);
        let dropped = if index >= 0 {
            with_assemblies(state, state.assemblies.remove(index))
        } else {
            state
        };
        with_issue(dropped, responder, Mode03Issue::FlowControl, debug_text(line))
    } else if find_assembly(state.assemblies, responder) >= 0 {
        with_issue(
            with_assemblies(state, without_responder(state.assemblies, responder)),
            responder,
            Mode03Issue::Interleaved,
            debug_text(line),
        )
    } else {
        mode03_payload(state, responder, bytes, false, line)
    }
}

/// What one cleaned line does to the normalizer state.
pub open spec fn mode03_line(state: Mode03State, line: Seq<char>) -> Mode03State {
    let upper = ascii_upper(line);
    let tokens = ascii_tokens(line);
    let header = header_of(tokens);
    let responder = match header {
        Some(h) => Some(ascii_upper(h)),
        None => None,
    };
    let start = if header is Some {
        1int
    } else {
        0int
    };
    let bad = first_bad_token(tokens, start);
    if line.len() == 0 {
        state
    } else if is_noise_line(upper, "03"@) {
        state
    } else if is_uds_status(upper) {
        with_issue(state, responder, Mode03Issue::Rejected, line)
    } else if header is Some && !all_hex(header.unwrap()) {
        with_issue(state, responder, Mode03Issue::MalformedHeader, debug_text(line))
    } else if bad < tokens.len() {
        with_issue(
            mode03_partial(state, responder, token_bytes(tokens.subrange(start, bad))),
            responder,
            Mode03Issue::MalformedLine,
            debug_text(line),
        )
    } else {
        mode03_frame(state, responder, token_bytes(tokens.skip(start)), line)
    }
}

/// All lines, in order.
pub open spec fn mode03_lines(state: Mode03State, lines: Seq<Seq<char>>) -> Mode03State
    decreases lines.len(),
{
    if lines.len() == 0 {
        state
    } else {
        mode03_lines(mode03_line(state, clean_line(lines[0])), lines.drop_first())
    }
}

/// Unfinished reassemblies are reported; their partial payload is dropped.
pub open spec fn mode03_flush(state: Mode03State, assemblies: Seq<AssemblyView>) -> Mode03State
    decreases assemblies.len(),
{
    if assemblies.len() == 0 {
        state
    } else {
        mode03_flush(
            with_issue(
                state,
                assemblies[0].responder,
                Mode03Issue::TruncatedIsoTp,
                count_detail(assemblies[0].declared_len, assemblies[0].payload.len() as int),
            ),
            assemblies.drop_first(),
        )
    }
}

/// The outcome of normalizing a whole Mode 03 answer.
pub open spec fn mode03_outcome(response: Seq<char>) -> Mode03State {
    let initial = Mode03State { matches: Seq::empty(), issues: Seq::empty(), assemblies: Seq::empty() };
    let after = mode03_lines(initial, split_lines(response));
    let flushed = mode03_flush(with_assemblies(after, Seq::empty()), after.assemblies);
    if flushed.matches.len() == 0 && flushed.issues.len() == 0 {
        with_issue(flushed, None, Mode03Issue::NotFound, Seq::empty())
    } else {
        flushed
    }
}

/// The normalized responses match the outcome: the same responses, the raw
/// answer, and each issue with its responder and message.
pub open spec fn matches_mode03_outcome(responses: ResponsesView, response: Seq<char>, outcome: Mode03State) -> bool {
    &&& responses.responses == outcome.matches
    &&& responses.raw_response == response
    &&& responses.errors.len() == outcome.issues.len()
    &&& forall|i: int|
        0 <= i < outcome.issues.len() ==> (#[trigger] responses.errors[i]).responder == outcome.issues[i].0
            && responses.errors[i].error == mode03_issue_message(outcome.issues[i].1, outcome.issues[i].2)
}


proof fn lemma_position(bytes: Seq<u8>, byte: u8)
    ensures
        -1 <= position_of(bytes, byte) < bytes.len(),
        position_of(bytes, byte) == -1 <==> forall|j: int| 0 <= j < bytes.len() ==> bytes[j] != byte,
        position_of(bytes, byte) >= 0 ==> bytes[position_of(bytes, byte)] == byte && forall|j: int|
            0 <= j < position_of(bytes, byte) ==> bytes[j] != byte,
    decreases bytes.len(),
{
    if bytes.len() > 0 {
        lemma_position(bytes.drop_first(), byte);
        let rest = bytes.drop_first();
        assert forall|j: int| 0 <= j < rest.len() implies rest[j] == bytes[j + 1] by {}
        if bytes[0] != byte && position_of(rest, byte) == -1 {
            assert forall|j: int| 0 <= j < bytes.len() implies bytes[j] != byte by {
                if j > 0 {
                    assert(rest[j - 1] == bytes[j]);
                }
            }
        }
        if bytes[0] != byte && position_of(rest, byte) >= 0 {
            assert forall|j: int| 0 <= j < position_of(bytes, byte) implies bytes[j] != byte by {
                if j > 0 {
                    assert(rest[j - 1] == bytes[j]);
                }
            }
        }
    }
}

fn position_exec(bytes: &Vec<u8>, byte: u8) -> (r: Option<usize>)
    ensures
        match r {
            Some(i) => position_of(bytes@, byte) == i as int,
            None => position_of(bytes@, byte) == -1,
        },
{
    proof {
        lemma_position(bytes@, byte);
    }
    let mut i: usize = 0;
    while i < bytes.len()
        invariant
            i <= bytes@.len(),
            forall|j: int| 0 <= j < i ==> bytes@[j] != byte,
        decreases bytes@.len() - i,
    {
        if bytes[i] == byte {
            proof {
                lemma_position(bytes@, byte);
                let p = position_of(bytes@, byte);
                if p >= 0 && p < i {
                    assert(bytes@[p] != byte);
                }
                if p == -1 {
                    assert(bytes@[i as int] != byte);
                }
            }
            return Some(i);
        }
        i += 1;
    }
    proof {
        lemma_position(bytes@, byte);
    }
    None
}

pub(crate) fn padding_from_exec(bytes: &Vec<u8>, from: usize) -> (r: bool)
    requires
        from <= bytes@.len(),
    ensures
        r == padding_from(bytes@, from as int),
{
    let mut k = from;
    while k < bytes.len()
        invariant
            from <= k <= bytes@.len(),
            forall|j: int| from <= j < k ==> is_mode03_padding(#[trigger] bytes@[j]),
        decreases bytes@.len() - k,
    {
        let b = bytes[k];
        if !(b == 0x00 || b == 0xaa) {
            assert(!is_mode03_padding(bytes@[k as int]));
            return false;
        }
        k += 1;
    }
    true
}

proof fn lemma_first_bad(tokens: Seq<Seq<char>>, from: int)
    requires
        0 <= from <= tokens.len(),
    ensures
        from <= first_bad_token(tokens, from) <= tokens.len(),
        forall|k: int| from <= k < first_bad_token(tokens, from) ==> is_byte_token(#[trigger] tokens[k]),
        first_bad_token(tokens, from) < tokens.len() ==> !is_byte_token(tokens[first_bad_token(tokens, from)]),
    decreases tokens.len() - from,
{
    if from < tokens.len() && is_byte_token(tokens[from]) {
        lemma_first_bad(tokens, from + 1);
    }
}

/// The bytes of the tokens in `start..end`, all runs of byte pairs.
fn collect_range(toks: &Vec<Vec<char>>, start: usize, end: usize) -> (r: Vec<u8>)
    requires
        start <= end <= toks@.len(),
        forall|k: int| start <= k < end ==> is_byte_token(#[trigger] token_views(toks@)[k]),
    ensures
        r@ == token_bytes(token_views(toks@).subrange(start as int, end as int)),
{
    let ghost views = token_views(toks@);
    let mut bytes: Vec<u8> = Vec::new();
    let mut i = start;
    assert(views.subrange(start as int, start as int) =~= Seq::<Seq<char>>::empty());
    while i < end
        invariant
            start <= i <= end <= toks@.len(),
            views == token_views(toks@),
            forall|k: int| start <= k < end ==> is_byte_token(#[trigger] views[k]),
            bytes@ == token_bytes(views.subrange(start as int, i as int)),
        decreases end - i,
    {
        let token = &toks[i];
        assert(views[i as int] == token@);
        assert(is_byte_token(views[i as int]));
        push_hex_bytes(&mut bytes, token);
        let ghost taken = views.subrange(start as int, i + 1);
        assert(taken.drop_last() =~= views.subrange(start as int, i as int));
        assert(taken.last() == token@);
        i += 1;
    }
    bytes
}

spec fn errors_follow(errors: Seq<ResponseErrorView>, issues: Seq<(Option<Seq<char>>, Mode03Issue, Seq<char>)>) -> bool {
    &&& errors.len() == issues.len()
    &&& forall|i: int|
        0 <= i < issues.len() ==> (#[trigger] errors[i]).responder == issues[i].0 && errors[i].error
            == mode03_issue_message(issues[i].1, issues[i].2)
}

struct Normalizer {
    matches: Vec<DiagnosticResponse>,
    errors: Vec<DiagnosticResponseError>,
    assemblies: Vec<Assembly>,
}

spec fn state_of(n: Normalizer, issues: Seq<(Option<Seq<char>>, Mode03Issue, Seq<char>)>) -> Mode03State {
    Mode03State {
        matches: response_views(n.matches@),
        issues,
        assemblies: assembly_views(n.assemblies@),
    }
}

spec fn consistent(n: Normalizer, issues: Seq<(Option<Seq<char>>, Mode03Issue, Seq<char>)>) -> bool {
    errors_follow(error_views(n.errors@), issues)
}

impl Normalizer {
    fn add_issue(
        &mut self,
        Ghost(issues): Ghost<Seq<(Option<Seq<char>>, Mode03Issue, Seq<char>)>>,
        responder: Option<ResponderIdentity>,
        Ghost(issue): Ghost<Mode03Issue>,
        Ghost(detail): Ghost<Seq<char>>,
        message: String,
    ) -> (r: Ghost<Seq<(Option<Seq<char>>, Mode03Issue, Seq<char>)>>)
        requires
            consistent(*old(self), issues),
            message@ == mode03_issue_message(issue, detail),
        ensures
            consistent(*final(self), r@),
            state_of(*final(self), r@) == with_issue(
                state_of(*old(self), issues),
                identity_text(responder),
                issue,
                detail,
            ),
            final(self).matches == old(self).matches,
            final(self).assemblies == old(self).assemblies,
    {
        let ghost before = error_views(self.errors@);
        let error = DiagnosticResponseError { responder, error: message };
        self.errors.push(error);
        let ghost next = issues.push((identity_text(error.responder), issue, detail));
        assert(error_views(self.errors@) =~= before.push(error@));
        assert forall|i: int| 0 <= i < next.len() implies (#[trigger] error_views(self.errors@)[i]).responder
            == next[i].0 && error_views(self.errors@)[i].error == mode03_issue_message(next[i].1, next[i].2) by {
            if i < issues.len() {
                assert(error_views(self.errors@)[i] == before[i]);
            }
        }
        Ghost(next)
    }

    fn add_match(&mut self, responder: Option<ResponderIdentity>, payload: Vec<u8>)
        ensures
            final(self).errors == old(self).errors,
            final(self).assemblies == old(self).assemblies,
            response_views(final(self).matches@) == response_views(old(self).matches@).push(
                ResponseView { responder: identity_text(responder), payload: payload@ },
            ),
    {
        let ghost before = response_views(self.matches@);
        let response = DiagnosticResponse { responder, payload };
        self.matches.push(response);
        assert(response_views(self.matches@) =~= before.push(response@));
    }
}

fn payload_exec(
    n: &mut Normalizer,
    Ghost(issues): Ghost<Seq<(Option<Seq<char>>, Mode03Issue, Seq<char>)>>,
    responder: &Option<ResponderIdentity>,
    bytes: Vec<u8>,
    line: &Vec<char>,
    strict: bool,
) -> (r: Ghost<Seq<(Option<Seq<char>>, Mode03Issue, Seq<char>)>>)
    requires
        consistent(*old(n), issues),
    ensures
        consistent(*final(n), r@),
        state_of(*final(n), r@) == mode03_payload(
            state_of(*old(n), issues),
            identity_text(*responder),
            bytes@,
            strict,
            line@,
        ),
{
    let start: Option<usize> = if strict {
        if bytes.len() > 0 && bytes[0] == 0x43 {
            Some(0)
        } else {
            None
        }
    } else {
        position_exec(&bytes, 0x43)
    };
    match start {
        None => {
            if !strict && bytes.len() > 0 {
                n.add_match(copy_responder(responder), bytes);
            }
            let message = quoted_message("Mode 03 positive response not found: ", line);
            n.add_issue(
                Ghost(issues),
                copy_responder(responder),
                Ghost(Mode03Issue::PositiveNotFound),
                Ghost(debug_text(line@)),
                message,
            )
        },
        Some(start) => {
            proof {
                lemma_position(bytes@, 0x43);
            }
            let payload = slice_bytes(&bytes, start, bytes.len());
            assert(payload@ =~= bytes@.skip(start as int));
            let empty_list = payload.len() == 2 && payload[0] == 0x43 && payload[1] == 0x00;
            assert(empty_list <==> payload@ =~= seq![0x43u8, 0x00u8]);
            let well_formed = empty_list || (payload.len() >= 3 && (payload.len() - 1) % 2 == 0);
            if !well_formed {
                let message = quoted_message("malformed normalized Mode 03 payload: ", line);
                let Ghost(next) = n.add_issue(
                    Ghost(issues),
                    copy_responder(responder),
                    Ghost(Mode03Issue::MalformedPayload),
                    Ghost(debug_text(line@)),
                    message,
                );
                if !strict {
                    n.add_match(copy_responder(responder), payload);
                }
                Ghost(next)
            } else {
                n.add_match(copy_responder(responder), payload);
                Ghost(issues)
            }
        },
    }
}

fn partial_exec(n: &mut Normalizer, responder: &Option<ResponderIdentity>, bytes: &Vec<u8>)
    ensures
        final(n).errors == old(n).errors,
        state_of(*final(n), Seq::empty()) == mode03_partial(
            state_of(*old(n), Seq::empty()),
            identity_text(*responder),
            bytes@,
        ),
{
    if bytes.len() > 0 && (bytes[0] / 16 == 1 || bytes[0] / 16 == 2) {
        let ghost views = assembly_views(n.assemblies@);
        match find_assembly_exec(&n.assemblies, responder) {
            Some(index) => {
                proof {
                    lemma_find_assembly(views, identity_text(*responder));
                }
                let _ = n.assemblies.remove(index);
                assert(assembly_views(n.assemblies@) =~= views.remove(index as int));
            },
            None => {},
        }
    } else if bytes.len() > 0 && bytes[0] / 16 == 0 {
        let declared = (bytes[0] % 16) as usize;
        let payload = slice_bytes(bytes, 1, bytes.len());
        assert(payload@ =~= bytes@.drop_first());
        match position_exec(&payload, 0x43) {
            Some(start) => {
                proof {
                    lemma_position(payload@, 0x43);
                }
                let end = if payload.len() - start < declared {
                    payload.len()
                } else {
                    start + declared
                };
                let kept = slice_bytes(&payload, start, end);
                n.add_match(copy_responder(responder), kept);
            },
            None => {},
        }
    } else {
        match position_exec(bytes, 0x43) {
            Some(start) => {
                proof {
                    lemma_position(bytes@, 0x43);
                }
                let kept = slice_bytes(bytes, start, bytes.len());
                assert(kept@ =~= bytes@.skip(start as int));
                n.add_match(copy_responder(responder), kept);
            },
            None => {},
        }
    }
}


fn single_frame_exec(
    n: &mut Normalizer,
    Ghost(issues): Ghost<Seq<(Option<Seq<char>>, Mode03Issue, Seq<char>)>>,
    responder: &Option<ResponderIdentity>,
    bytes: &Vec<u8>,
    line: &Vec<char>,
) -> (r: Ghost<Seq<(Option<Seq<char>>, Mode03Issue, Seq<char>)>>)
    requires
        consistent(*old(n), issues),
        bytes@.len() > 0,
    ensures
        consistent(*final(n), r@),
        state_of(*final(n), r@) == mode03_single_frame(
            state_of(*old(n), issues),
            identity_text(*responder),
            bytes@,
            line@,
        ),
{
    let declared = (bytes[0] % 16) as usize;
    let payload = slice_bytes(bytes, 1, bytes.len());
    assert(payload@ =~= bytes@.drop_first());
    if declared == 0 {
        let message = quoted_message("malformed Mode 03 single frame: ", line);
        return n.add_issue(
            Ghost(issues),
            copy_responder(responder),
            Ghost(Mode03Issue::MalformedSingleFrame),
            Ghost(debug_text(line@)),
            message,
        );
    }
    if payload.len() < declared {
        let received = payload.len();
        match position_exec(&payload, 0x43) {
            Some(start) => {
                proof {
                    lemma_position(payload@, 0x43);
                }
                let kept = slice_bytes(&payload, start, payload.len());
                assert(kept@ =~= payload@.skip(start as int));
                n.add_match(copy_responder(responder), kept);
            },
            None => {},
        }
        let message = counts_message("truncated Mode 03 single frame: declared ", declared, received);
        return n.add_issue(
            Ghost(issues),
            copy_responder(responder),
            Ghost(Mode03Issue::TruncatedSingleFrame),
            Ghost(count_detail(declared as int, received as int)),
            message,
        );
    }
    if !padding_from_exec(&payload, declared) {
        let message = quoted_message("unexpected bytes after Mode 03 single frame: ", line);
        return n.add_issue(
            Ghost(issues),
            copy_responder(responder),
            Ghost(Mode03Issue::UnexpectedAfterSingleFrame),
            Ghost(debug_text(line@)),
            message,
        );
    }
    let kept = slice_bytes(&payload, 0, declared);
    assert(kept@ =~= payload@.take(declared as int));
    payload_exec(n, Ghost(issues), responder, kept, line, false)
}

fn first_frame_exec(
    n: &mut Normalizer,
    Ghost(issues): Ghost<Seq<(Option<Seq<char>>, Mode03Issue, Seq<char>)>>,
    responder: &Option<ResponderIdentity>,
    bytes: &Vec<u8>,
    line: &Vec<char>,
) -> (r: Ghost<Seq<(Option<Seq<char>>, Mode03Issue, Seq<char>)>>)
    requires
        consistent(*old(n), issues),
    ensures
        consistent(*final(n), r@),
        state_of(*final(n), r@) == mode03_first_frame(
            state_of(*old(n), issues),
            identity_text(*responder),
            bytes@,
            line@,
        ),
{
    if bytes.len() < 3 {
        let message = quoted_message("malformed Mode 03 first frame: ", line);
        return n.add_issue(
            Ghost(issues),
            copy_responder(responder),
            Ghost(Mode03Issue::MalformedFirstFrame),
            Ghost(debug_text(line@)),
            message,
        );
    }
    let declared = (bytes[0] % 16) as usize * 256 + bytes[1] as usize;
    let payload = slice_bytes(bytes, 2, bytes.len());
    assert(payload@ =~= bytes@.skip(2));
    if declared < 3 || payload.len() >= declared {
        let counts = counts_message("declared ", declared, payload.len());
        let message = plain_message("malformed Mode 03 first frame: ", counts.as_str());
        let ghost detail = "declared "@ + count_detail(declared as int, payload@.len() as int);
        assert(message@ =~= mode03_issue_message(Mode03Issue::MalformedFirstFrame, detail));
        return n.add_issue(
            Ghost(issues),
            copy_responder(responder),
            Ghost(Mode03Issue::MalformedFirstFrame),
            Ghost(detail),
            message,
        );
    }
    match find_assembly_exec(&n.assemblies, responder) {
        Some(_) => {
            let mut assemblies: Vec<Assembly> = Vec::new();
            core::mem::swap(&mut assemblies, &mut n.assemblies);
            n.assemblies = remove_responder(assemblies, responder);
            let message = quoted_message("duplicate Mode 03 first frame: ", line);
            n.add_issue(
                Ghost(issues),
                copy_responder(responder),
                Ghost(Mode03Issue::DuplicateFirstFrame),
                Ghost(debug_text(line@)),
                message,
            )
        },
        None => {
            let ghost before = assembly_views(n.assemblies@);
            let assembly = Assembly {
                responder: copy_responder(responder),
                declared_len: declared,
                payload,
                next_sequence: 1,
            };
            n.assemblies.push(assembly);
            assert(assembly_views(n.assemblies@) =~= before.push(assembly_view(assembly)));
            Ghost(issues)
        },
    }
}

fn consecutive_frame_exec(
    n: &mut Normalizer,
    Ghost(issues): Ghost<Seq<(Option<Seq<char>>, Mode03Issue, Seq<char>)>>,
    responder: &Option<ResponderIdentity>,
    bytes: &Vec<u8>,
    line: &Vec<char>,
) -> (r: Ghost<Seq<(Option<Seq<char>>, Mode03Issue, Seq<char>)>>)
    requires
        consistent(*old(n), issues),
        bytes@.len() > 0,
    ensures
        consistent(*final(n), r@),
        state_of(*final(n), r@) == mode03_consecutive_frame(
            state_of(*old(n), issues),
            identity_text(*responder),
            bytes@,
            line@,
        ),
{
    let ghost views = assembly_views(n.assemblies@);
    let index = match find_assembly_exec(&n.assemblies, responder) {
        Some(index) => index,
        None => {
            let message = quoted_message("Mode 03 consecutive frame without first frame: ", line);
            return n.add_issue(
                Ghost(issues),
                copy_responder(responder),
                Ghost(Mode03Issue::ConsecutiveWithoutFirst),
                Ghost(debug_text(line@)),
                message,
            );
        },
    };
    proof {
        lemma_find_assembly(views, identity_text(*responder));
    }
    let assembly = n.assemblies.remove(index);
    assert(assembly_views(n.assemblies@) =~= views.remove(index as int));
    assert(assembly_view(assembly) == views[index as int]);
    if bytes.len() < 2 {
        let message = quoted_message("malformed Mode 03 consecutive frame: ", line);
        return n.add_issue(
            Ghost(issues),
            copy_responder(responder),
            Ghost(Mode03Issue::MalformedConsecutive),
            Ghost(debug_text(line@)),
            message,
        );
    }
    let sequence = bytes[0] % 16;
    if sequence != assembly.next_sequence {
        let expected_text = decimal_text(assembly.next_sequence as u64);
        let got_text = decimal_text(sequence as u64);
        let middle = concat(expected_text.as_str(), ", got ");
        let rest = concat(middle.as_str(), got_text.as_str());
        let message = plain_message("Mode 03 sequence mismatch: expected ", rest.as_str());
        return n.add_issue(
            Ghost(issues),
            copy_responder(responder),
            Ghost(Mode03Issue::SequenceMismatch),
            Ghost(decimal(assembly.next_sequence as nat) + ", got "@ + decimal(sequence as nat)),
            message,
        );
    }
    let data = slice_bytes(bytes, 1, bytes.len());
    assert(data@ =~= bytes@.drop_first());
    let received = assembly.payload.len();
    if received >= assembly.declared_len {
        let message = quoted_message("Mode 03 ISO-TP payload exceeded declared length: ", line);
        return n.add_issue(
            Ghost(issues),
            copy_responder(responder),
            Ghost(Mode03Issue::Exceeded),
            Ghost(debug_text(line@)),
            message,
        );
    }
    let remaining = assembly.declared_len - received;
    if data.len() > remaining && !padding_from_exec(&data, remaining) {
        let message = quoted_message("Mode 03 ISO-TP payload exceeded declared length: ", line);
        return n.add_issue(
            Ghost(issues),
            copy_responder(responder),
            Ghost(Mode03Issue::Exceeded),
            Ghost(debug_text(line@)),
            message,
        );
    }
    let take = if data.len() < remaining {
        data.len()
    } else {
        remaining
    };
    let taken = slice_bytes(&data, 0, take);
    assert(data.len() < remaining ==> taken@ =~= data@);
    assert(data.len() >= remaining ==> taken@ =~= data@.take(remaining as int));
    let Assembly { responder: assembly_responder, declared_len, payload, next_sequence: _ } = assembly;
    let mut payload = payload;
    let ghost old_payload = payload@;
    let mut k: usize = 0;
    while k < taken.len()
        invariant
            k <= taken@.len(),
            payload@ == old_payload + taken@.take(k as int),
        decreases taken@.len() - k,
    {
        payload.push(taken[k]);
        assert(taken@.take(k + 1) =~= taken@.take(k as int).push(taken@[k as int]));
        k += 1;
    }
    assert(taken@.take(taken@.len() as int) =~= taken@);
    if payload.len() == declared_len {
        return payload_exec(n, Ghost(issues), responder, payload, line, true);
    }
    let next: u8 = (sequence + 1) % 16;
    let updated = Assembly { responder: assembly_responder, declared_len, payload, next_sequence: next };
    let ghost removed = assembly_views(n.assemblies@);
    n.assemblies.insert(index, updated);
    assert(assembly_views(n.assemblies@) =~= removed.insert(index as int, assembly_view(updated)));
    assert(views.remove(index as int).insert(index as int, assembly_view(updated)) =~= views.update(
        index as int,
        assembly_view(updated),
    ));
    Ghost(issues)
}

fn frame_exec(
    n: &mut Normalizer,
    Ghost(issues): Ghost<Seq<(Option<Seq<char>>, Mode03Issue, Seq<char>)>>,
    responder: &Option<ResponderIdentity>,
    bytes: Vec<u8>,
    line: &Vec<char>,
) -> (r: Ghost<Seq<(Option<Seq<char>>, Mode03Issue, Seq<char>)>>)
    requires
        consistent(*old(n), issues),
    ensures
        consistent(*final(n), r@),
        state_of(*final(n), r@) == mode03_frame(
            state_of(*old(n), issues),
            identity_text(*responder),
            bytes@,
            line@,
        ),
{
    if bytes.len() > 0 && bytes[0] / 16 == 0 {
        return single_frame_exec(n, Ghost(issues), responder, &bytes, line);
    }
    if bytes.len() > 0 && bytes[0] / 16 == 1 {
        return first_frame_exec(n, Ghost(issues), responder, &bytes, line);
    }
    if bytes.len() > 0 && bytes[0] / 16 == 2 {
        return consecutive_frame_exec(n, Ghost(issues), responder, &bytes, line);
    }
    let ghost views = assembly_views(n.assemblies@);
    let found = find_assembly_exec(&n.assemblies, responder);
    proof {
        lemma_find_assembly(views, identity_text(*responder));
    }
    if bytes.len() > 0 && bytes[0] / 16 == 3 {
        match found {
            Some(index) => {
                let _ = n.assemblies.remove(index);
                assert(assembly_views(n.assemblies@) =~= views.remove(index as int));
            },
            None => {},
        }
        let message = quoted_message("unexpected Mode 03 flow-control frame: ", line);
        return n.add_issue(
            Ghost(issues),
            copy_responder(responder),
            Ghost(Mode03Issue::FlowControl),
            Ghost(debug_text(line@)),
            message,
        );
    }
    if found.is_some() {
        let mut assemblies: Vec<Assembly> = Vec::new();
        core::mem::swap(&mut assemblies, &mut n.assemblies);
        n.assemblies = remove_responder(assemblies, responder);
        let message = quoted_message("interleaved Mode 03 response frame: ", line);
        return n.add_issue(
            Ghost(issues),
            copy_responder(responder),
            Ghost(Mode03Issue::Interleaved),
            Ghost(debug_text(line@)),
            message,
        );
    }
    payload_exec(n, Ghost(issues), responder, bytes, line, false)
}

fn line_exec(
    n: &mut Normalizer,
    Ghost(issues): Ghost<Seq<(Option<Seq<char>>, Mode03Issue, Seq<char>)>>,
    line: &Vec<char>,
) -> (r: Ghost<Seq<(Option<Seq<char>>, Mode03Issue, Seq<char>)>>)
    requires
        consistent(*old(n), issues),
    ensures
        consistent(*final(n), r@),
        state_of(*final(n), r@) == mode03_line(state_of(*old(n), issues), line@),
{
    if line.len() == 0 {
        return Ghost(issues);
    }
    let upper = to_upper(line);
    let echo = crate::text::chars_of("03");
    if crate::elm::noise_line_exec(&upper, &echo) {
        return Ghost(issues);
    }
    let toks = tokens(line);
    let ghost views = token_views(toks@);
    let header: Option<Vec<char>> = if toks.len() > 0 && toks[0].len() == 3 {
        Some(crate::elm::copy_chars(&toks[0]))
    } else {
        None
    };
    assert(toks.len() > 0 ==> views[0] == toks@[0]@);
    assert(views == ascii_tokens(line@));
    assert(header_of(views) == (match header {
        Some(h) => Some(h@),
        None => None,
    }));
    let responder: Option<ResponderIdentity> = match &header {
        Some(h) => Some(ResponderIdentity::ElmHeader(string_from_chars(to_upper(h).as_slice()))),
        None => None,
    };
    assert(identity_text(responder) == (match header_of(views) {
        Some(h) => Some(ascii_upper(h)),
        None => None,
    }));
    if crate::elm::uds_status_line(&upper) {
        let text = string_from_chars(line.as_slice());
        let message = plain_message("ELM327 rejected Mode 03 response: ", text.as_str());
        return n.add_issue(
            Ghost(issues),
            responder,
            Ghost(Mode03Issue::Rejected),
            Ghost(line@),
            message,
        );
    }
    match &header {
        Some(h) => {
            if !all_hex_exec(h) {
                let message = quoted_message("malformed ELM327 responder header: ", line);
                return n.add_issue(
                    Ghost(issues),
                    responder,
                    Ghost(Mode03Issue::MalformedHeader),
                    Ghost(debug_text(line@)),
                    message,
                );
            }
        },
        None => {},
    }
    let start: usize = if header.is_some() {
        1
    } else {
        0
    };
    let bad = first_bad_exec(&toks, start);
    proof {
        lemma_first_bad(views, start as int);
    }
    if bad < toks.len() {
        let partial = collect_range(&toks, start, bad);
        let ghost before = state_of(*n, issues);
        partial_exec(n, &responder, &partial);
        proof {
            assert(state_of(*n, issues) == Mode03State {
                issues,
                ..mode03_partial(before, identity_text(responder), partial@)
            });
        }
        let message = quoted_message("malformed ELM327 Mode 03 response line: ", line);
        return n.add_issue(
            Ghost(issues),
            responder,
            Ghost(Mode03Issue::MalformedLine),
            Ghost(debug_text(line@)),
            message,
        );
    }
    let bytes = line_bytes(&toks, start);
    frame_exec(n, Ghost(issues), &responder, bytes, line)
}

/// Normalize one ELM327 answer to a Mode 03 request into positive DTC
/// payloads, keeping every responder, every issue and the raw adapter text.
/// Multi-frame answers are reassembled per responder.
pub fn normalize_mode03_responses(response: &str) -> (r: Result<DiagnosticResponses, String>)
    ensures
        (r matches Ok(responses) && matches_mode03_outcome(responses@, response@, mode03_outcome(response@))),
{
    let lines = split_response_lines(response);
    let ghost views = lines@.map_values(|l: Vec<char>| l@);
    let mut n = Normalizer { matches: Vec::new(), errors: Vec::new(), assemblies: Vec::new() };
    let ghost initial = Mode03State { matches: Seq::empty(), issues: Seq::empty(), assemblies: Seq::empty() };
    let ghost mut issues: Seq<(Option<Seq<char>>, Mode03Issue, Seq<char>)> = Seq::empty();
    proof {
        assert(views.skip(0) =~= views);
        assert(response_views(n.matches@) =~= Seq::<ResponseView>::empty());
        assert(assembly_views(n.assemblies@) =~= Seq::<AssemblyView>::empty());
        assert(error_views(n.errors@) =~= Seq::<ResponseErrorView>::empty());
        assert(state_of(n, issues) == initial);
    }
    let mut i: usize = 0;
    while i < lines.len()
        invariant
            i <= lines@.len(),
            views == lines@.map_values(|l: Vec<char>| l@),
            views == split_lines(response@),
            consistent(n, issues),
            mode03_lines(initial, views) == mode03_lines(state_of(n, issues), views.skip(i as int)),
        decreases lines@.len() - i,
    {
        let line = clean(&lines[i]);
        assert(views[i as int] == lines@[i as int]@);
        let ghost rest = views.skip(i as int);
        assert(rest[0] == views[i as int]);
        assert(rest.drop_first() =~= views.skip(i + 1));
        let Ghost(next) = line_exec(&mut n, Ghost(issues), &line);
        proof {
            issues = next;
        }
        i += 1;
    }
    assert(views.skip(lines@.len() as int) =~= Seq::<Seq<char>>::empty());
    let ghost after = mode03_lines(initial, views);
    let mut pending: Vec<Assembly> = Vec::new();
    core::mem::swap(&mut pending, &mut n.assemblies);
    let ghost all = pending@;
    proof {
        assert(assembly_views(n.assemblies@) =~= Seq::<AssemblyView>::empty());
        assert(state_of(n, issues) == with_assemblies(after, Seq::empty()));
        assert(assembly_views(all).skip(0) =~= assembly_views(all));
    }
    let mut j: usize = 0;
    let total = pending.len();
    while pending.len() > 0
        invariant
            all.len() == total,
            j + pending@.len() == total,
            pending@ == all.skip(j as int),
            assembly_views(all) == after.assemblies,
            n.assemblies@.len() == 0,
            consistent(n, issues),
            mode03_flush(with_assemblies(after, Seq::empty()), after.assemblies) == mode03_flush(
                state_of(n, issues),
                assembly_views(all).skip(j as int),
            ),
        decreases pending@.len(),
    {
        let a = pending.remove(0);
        assert(a == all[j as int]);
        assert(pending@ =~= all.skip(j + 1));
        let ghost rest = assembly_views(all).skip(j as int);
        assert(rest[0] == assembly_view(a));
        assert(rest.drop_first() =~= assembly_views(all).skip(j + 1));
        let Assembly { responder, declared_len, payload, next_sequence: _ } = a;
        let message = counts_message("truncated Mode 03 ISO-TP response: declared ", declared_len, payload.len());
        let Ghost(next) = n.add_issue(
            Ghost(issues),
            responder,
            Ghost(Mode03Issue::TruncatedIsoTp),
            Ghost(count_detail(declared_len as int, payload@.len() as int)),
            message,
        );
        proof {
            issues = next;
        }
        j += 1;
    }
    assert(assembly_views(all).skip(total as int) =~= Seq::<AssemblyView>::empty());
    if n.matches.len() == 0 && n.errors.len() == 0 {
        let message = owned("Mode 03 response not found");
        assert(message@ =~= mode03_issue_message(Mode03Issue::NotFound, Seq::empty()));
        let Ghost(next) = n.add_issue(
            Ghost(issues),
            None,
            Ghost(Mode03Issue::NotFound),
            Ghost(Seq::empty()),
            message,
        );
        proof {
            issues = next;
        }
    }
    let Normalizer { matches, errors, assemblies: _ } = n;
    let responses = DiagnosticResponses::from_parts(matches, owned(response), errors);
    Ok(responses)
}


proof fn lemma_remove_within(assemblies: Seq<AssemblyView>, index: int)
    requires
        assemblies_within_declared(assemblies),
        0 <= index < assemblies.len(),
    ensures
        assemblies_within_declared(assemblies.remove(index)),
{
    let removed = assemblies.remove(index);
    assert forall|i: int| 0 <= i < removed.len() implies (#[trigger] removed[i]).payload.len()
        < removed[i].declared_len by {
        if i < index {
            assert(removed[i] == assemblies[i]);
        } else {
            assert(removed[i] == assemblies[i + 1]);
        }
    }
}

proof fn lemma_mode03_line_within(state: Mode03State, line: Seq<char>)
    requires
        assemblies_within_declared(state.assemblies),
    ensures
        assemblies_within_declared(mode03_line(state, line).assemblies),
{
    let tokens = ascii_tokens(line);
    let header = header_of(tokens);
    let responder = match header {
        Some(h) => Some(ascii_upper(h)),
        None => None,
    };
    lemma_without_responder_within(state.assemblies, responder);
    lemma_find_assembly(state.assemblies, responder);
    let index = find_assembly(state.assemblies, responder);
    if index >= 0 {
        lemma_remove_within(state.assemblies, index);
    }
}

proof fn lemma_mode03_lines_within(state: Mode03State, lines: Seq<Seq<char>>)
    requires
        assemblies_within_declared(state.assemblies),
    ensures
        assemblies_within_declared(mode03_lines(state, lines).assemblies),
    decreases lines.len(),
{
    if lines.len() > 0 {
        lemma_mode03_line_within(state, clean_line(lines[0]));
        lemma_mode03_lines_within(mode03_line(state, clean_line(lines[0])), lines.drop_first());
    }
}

/// However an answer's lines arrive, a multi-frame Mode 03 answer in
/// progress never holds as many bytes as it declared.
pub proof fn law_mode03_reassembly_stays_below_declared_length(response: Seq<char>)
    ensures
        assemblies_within_declared(
            mode03_lines(
                Mode03State { matches: Seq::empty(), issues: Seq::empty(), assemblies: Seq::empty() },
                split_lines(response),
            ).assemblies,
        ),
{
    lemma_mode03_lines_within(
        Mode03State { matches: Seq::empty(), issues: Seq::empty(), assemblies: Seq::empty() },
        split_lines(response),
    );
}

/// A Mode 03 answer is never silently empty: the outcome holds a payload or
/// names an issue.
pub proof fn law_mode03_outcome_is_never_silent(response: Seq<char>)
    ensures
        mode03_outcome(response).matches.len() > 0 || mode03_outcome(response).issues.len() > 0,
{
}

} // verus!
