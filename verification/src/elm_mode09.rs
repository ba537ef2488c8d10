//! Normalization of the ELM327 answer to the Mode 09 PID 02 (VIN) request
//! into data segments, reassembling one ISO-TP answer at a time.

use vstd::prelude::*;

use crate::elm::{
    chars_equal_str, chars_str_starts, first_bad_exec, first_bad_token, is_status_line, line_bytes,
    status_line, token_bytes, token_views,
};
use crate::elm_mode03::{padding_from, padding_from_exec};
use crate::elm_text::{
    all_hex, all_hex_exec, ascii_tokens, ascii_upper, clean, clean_line, split_lines,
    split_response_lines, to_upper, tokens,
};
use crate::elm_uds::{plain_message, slice_bytes};
use crate::identity::segment_views;
use crate::text::{debug_text, occurs_at, owned, string_from_chars};

verus! {

/// Why a Mode 09 answer yields no segments.
#[derive(Clone, Copy, Debug, PartialEq, Eq)]
pub enum Mode09Failure {
    Rejected,
    MalformedLine,
    MalformedFirstFrame,
    WithoutFirstFrame,
    MalformedConsecutive,
    UnexpectedAfter,
    Truncated,
    NotFound,
}

/// The message of each failure, or its beginning where the line follows.
pub open spec fn mode09_message_prefix(failure: Mode09Failure) -> Seq<char> {
    match failure {
        Mode09Failure::Rejected => "ELM327 rejected 0902: "@,
        Mode09Failure::MalformedLine => "malformed ELM327 Mode 09 response line: "@,
        Mode09Failure::MalformedFirstFrame => "malformed ISO-TP Mode 09 first frame"@,
        Mode09Failure::WithoutFirstFrame => "Mode 09 consecutive frame without first frame"@,
        Mode09Failure::MalformedConsecutive => "malformed ISO-TP Mode 09 consecutive frame"@,
        Mode09Failure::UnexpectedAfter => "unexpected bytes after ISO-TP Mode 09 response"@,
        Mode09Failure::Truncated => "truncated ISO-TP Mode 09 response"@,
        Mode09Failure::NotFound => "0902 response not found"@,
    }
}

/// The reassembly in progress: responder header, declared length, payload
/// so far and the next sequence number.
pub struct Mode09Pending {
    pub header: Option<Seq<char>>,
    pub declared_len: int,
    pub payload: Seq<u8>,
    pub next_sequence: u8,
}

pub struct Mode09State {
    pub segments: Seq<Seq<u8>>,
    pub pending: Option<Mode09Pending>,
}

pub enum Mode09Step {
    Continue(Mode09State),
    Fail(Mode09Failure),
}

/// The header of a line: a first token of three hex digits.
pub open spec fn mode09_header(tokens: Seq<Seq<char>>) -> Option<Seq<char>> {
    if tokens.len() > 0 && tokens[0].len() == 3 && all_hex(tokens[0]) {
        Some(ascii_upper(tokens[0]))
    } else {
        None
    }
}

pub open spec fn mode09_frame(state: Mode09State, header: Option<Seq<char>>, bytes: Seq<u8>) -> Mode09Step {
    if bytes.len() > 0 && bytes[0] / 16 == 1 {
        if bytes.len() < 3 || state.pending is Some {
            Mode09Step::Fail(Mode09Failure::MalformedFirstFrame)
        } else {
            let declared = (bytes[0] % 16) as int * 256 + bytes[1] as int;
            let payload = bytes.skip(2);
            if declared < 3 || payload.len() >= declared {
                Mode09Step::Fail(Mode09Failure::MalformedFirstFrame)
            } else {
                Mode09Step::Continue(
                    Mode09State {
                        pending: Some(
                            Mode09Pending { header, declared_len: declared, payload, next_sequence: 1 },
                        ),
                        ..state
                    },
                )
            }
        }
    } else if bytes.len() > 0 && bytes[0] / 16 == 2 {
        match state.pending {
            None => Mode09Step::Fail(Mode09Failure::WithoutFirstFrame),
            Some(pending) => {
                if pending.header != header || bytes[0] % 16 != pending.next_sequence {
                    Mode09Step::Fail(Mode09Failure::MalformedConsecutive)
                } else {
                    let remaining = pending.declared_len - pending.payload.len();
                    let data = bytes.drop_first();
                    if data.len() > remaining && !padding_from(data, remaining) {
                        Mode09Step::Fail(Mode09Failure::UnexpectedAfter)
                    } else {
                        let payload = pending.payload + if data.len() < remaining {
                            data
                        } else {
                            data.take(remaining)
                        };
                        if payload.len() == pending.declared_len {
                            Mode09Step::Continue(
                                Mode09State { segments: state.segments.push(payload), pending: None },
                            )
                        } else {
                            Mode09Step::Continue(
                                Mode09State {
                                    pending: Some(
                                        Mode09Pending {
                                            payload,
                                            next_sequence: ((pending.next_sequence + 1) % 16) as u8,
                                            ..pending
                                        },
                                    ),
                                    ..state
                                },
                            )
                        }
                    }
                }
            },
        }
    } else if bytes.len() > 0 {
        Mode09Step::Continue(Mode09State { segments: state.segments.push(bytes), ..state })
    } else {
        Mode09Step::Continue(state)
    }
}

/// What one cleaned line does.
pub open spec fn mode09_line(state: Mode09State, line: Seq<char>) -> Mode09Step {
    let upper = ascii_upper(line);
    let tokens = ascii_tokens(line);
    let header = mode09_header(tokens);
    let start = if header is Some {
        1int
    } else {
        0int
    };
    if line.len() == 0 || upper == "0902"@ || occurs_at(upper, "SEARCHING"@, 0) || occurs_at(
        upper,
        "BUS INIT"@,
        0,
    ) {
        Mode09Step::Continue(state)
    } else if is_status_line(upper) {
        Mode09Step::Fail(Mode09Failure::Rejected)
    } else if first_bad_token(tokens, start) < tokens.len() {
        Mode09Step::Fail(Mode09Failure::MalformedLine)
    } else {
        mode09_frame(state, header, token_bytes(tokens.skip(start)))
    }
}

pub open spec fn mode09_lines(state: Mode09State, lines: Seq<Seq<char>>) -> Mode09Step
    decreases lines.len(),
{
    if lines.len() == 0 {
        Mode09Step::Continue(state)
    } else {
        match mode09_line(state, clean_line(lines[0])) {
            Mode09Step::Continue(next) => mode09_lines(next, lines.drop_first()),
            Mode09Step::Fail(failure) => Mode09Step::Fail(failure),
        }
    }
}

/// The cleaned line on which `mode09_lines` fails.
pub open spec fn mode09_failed_line(state: Mode09State, lines: Seq<Seq<char>>) -> Seq<char>
    decreases lines.len(),
{
    if lines.len() == 0 {
        Seq::empty()
    } else {
        match mode09_line(state, clean_line(lines[0])) {
            Mode09Step::Continue(next) => mode09_failed_line(next, lines.drop_first()),
            Mode09Step::Fail(_) => clean_line(lines[0]),
        }
    }
}

/// The message of each failure, given the line it arose on.
pub open spec fn mode09_message(failure: Mode09Failure, line: Seq<char>) -> Seq<char> {
    match failure {
        Mode09Failure::Rejected => mode09_message_prefix(failure) + line,
        Mode09Failure::MalformedLine => mode09_message_prefix(failure) + debug_text(line),
        _ => mode09_message_prefix(failure),
    }
}

/// The message of a refused answer.
pub open spec fn mode09_error(response: Seq<char>) -> Seq<char> {
    match mode09_outcome(response) {
        Err(failure) => mode09_message(
            failure,
            mode09_failed_line(Mode09State { segments: Seq::empty(), pending: None }, split_lines(response)),
        ),
        Ok(_) => Seq::empty(),
    }
}

/// The segments of a whole answer, or why there are none.
pub open spec fn mode09_outcome(response: Seq<char>) -> Result<Seq<Seq<u8>>, Mode09Failure> {
    match mode09_lines(Mode09State { segments: Seq::empty(), pending: None }, split_lines(response)) {
        Mode09Step::Fail(failure) => Err(failure),
        Mode09Step::Continue(state) => {
            if state.pending is Some {
                Err(Mode09Failure::Truncated)
            } else if state.segments.len() == 0 {
                Err(Mode09Failure::NotFound)
            } else {
                Ok(state.segments)
            }
        },
    }
}


struct PendingExec {
    header: Option<Vec<char>>,
    declared_len: usize,
    payload: Vec<u8>,
    next_sequence: u8,
}

spec fn header_view(header: Option<Vec<char>>) -> Option<Seq<char>> {
    match header {
        Some(h) => Some(h@),
        None => None,
    }
}

spec fn pending_view(pending: Option<PendingExec>) -> Option<Mode09Pending> {
    match pending {
        Some(p) => Some(
            Mode09Pending {
                header: header_view(p.header),
                declared_len: p.declared_len as int,
                payload: p.payload@,
                next_sequence: p.next_sequence,
            },
        ),
        None => None,
    }
}

/// A pending reassembly still misses bytes.
spec fn pending_wf(pending: Option<Mode09Pending>) -> bool {
    match pending {
        Some(p) => p.payload.len() < p.declared_len,
        None => true,
    }
}

struct Segments {
    segments: Vec<Vec<u8>>,
    pending: Option<PendingExec>,
}

spec fn state_view(s: Segments) -> Mode09State {
    Mode09State { segments: segment_views(s.segments@), pending: pending_view(s.pending) }
}

fn same_header(a: &Option<Vec<char>>, b: &Option<Vec<char>>) -> (r: bool)
    ensures
        r == (header_view(*a) == header_view(*b)),
{
    match (a, b) {
        (Some(x), Some(y)) => crate::text::chars_eq(x.as_slice(), y.as_slice()),
        (None, None) => true,
        _ => false,
    }
}

impl Segments {
    fn push_segment(&mut self, segment: Vec<u8>)
        ensures
            segment_views(final(self).segments@) == segment_views(old(self).segments@).push(segment@),
            final(self).pending == old(self).pending,
    {
        let ghost before = segment_views(self.segments@);
        let ghost added = segment@;
        self.segments.push(segment);
        assert(segment_views(self.segments@) =~= before.push(added));
    }

    fn frame(&mut self, header: Option<Vec<char>>, bytes: Vec<u8>) -> (r: Option<Mode09Failure>)
        requires
            pending_wf(pending_view(old(self).pending)),
        ensures
            match mode09_frame(state_view(*old(self)), header_view(header), bytes@) {
                Mode09Step::Continue(next) => r is None && state_view(*final(self)) == next && pending_wf(
                    next.pending,
                ),
                Mode09Step::Fail(failure) => r == Some(failure),
            },
    {
        if bytes.len() > 0 && bytes[0] / 16 == 1 {
            if bytes.len() < 3 || self.pending.is_some() {
                return Some(Mode09Failure::MalformedFirstFrame);
            }
            let declared = (bytes[0] % 16) as usize * 256 + bytes[1] as usize;
            let payload = slice_bytes(&bytes, 2, bytes.len());
            assert(payload@ =~= bytes@.skip(2));
            if declared < 3 || payload.len() >= declared {
                return Some(Mode09Failure::MalformedFirstFrame);
            }
            self.pending = Some(PendingExec { header, declared_len: declared, payload, next_sequence: 1 });
            return None;
        }
        if bytes.len() > 0 && bytes[0] / 16 == 2 {
            let mut taken_pending: Option<PendingExec> = None;
            core::mem::swap(&mut taken_pending, &mut self.pending);
            let pending = match taken_pending {
                None => {
                    return Some(Mode09Failure::WithoutFirstFrame);
                },
                Some(pending) => pending,
            };
            if !same_header(&pending.header, &header) || bytes[0] % 16 != pending.next_sequence {
                return Some(Mode09Failure::MalformedConsecutive);
            }
            let remaining = pending.declared_len - pending.payload.len();
            let data = slice_bytes(&bytes, 1, bytes.len());
            assert(data@ =~= bytes@.drop_first());
            if data.len() > remaining && !padding_from_exec(&data, remaining) {
                return Some(Mode09Failure::UnexpectedAfter);
            }
            let take = if data.len() < remaining {
                data.len()
            } else {
                remaining
            };
            let taken = slice_bytes(&data, 0, take);
            assert(data.len() < remaining ==> taken@ =~= data@);
            assert(data.len() >= remaining ==> taken@ =~= data@.take(remaining as int));
            let PendingExec { header: pending_header, declared_len, payload, next_sequence } = pending;
            let mut payload = payload;
            let ghost old_payload = payload@;
            let mut k: usize = 0;
            while k < taken.len()
                invariant
                    k <= taken@.len(),
                    payload@ == old_payload + taken@.take(k as int),
                decreases taken@.len() - k,
            {
                payload.push(taken[k]);
                assert(taken@.take(k + 1) =~= taken@.take(k as int).push(taken@[k as int]));
                k += 1;
            }
            assert(taken@.take(taken@.len() as int) =~= taken@);
            if payload.len() == declared_len {
                self.push_segment(payload);
                return None;
            }
            let next: u8 = (next_sequence + 1) % 16;
            self.pending = Some(
                PendingExec { header: pending_header, declared_len, payload, next_sequence: next },
            );
            return None;
        }
        if bytes.len() > 0 {
            self.push_segment(bytes);
        }
        None
    }

    fn line(&mut self, line: &Vec<char>) -> (r: Option<Mode09Failure>)
        requires
            pending_wf(pending_view(old(self).pending)),
        ensures
            match mode09_line(state_view(*old(self)), line@) {
                Mode09Step::Continue(next) => r is None && state_view(*final(self)) == next && pending_wf(
                    next.pending,
                ),
                Mode09Step::Fail(failure) => r == Some(failure),
            },
    {
        let upper = to_upper(line);
        if line.len() == 0 || chars_equal_str(&upper, "0902") || chars_str_starts(&upper, "SEARCHING")
            || chars_str_starts(&upper, "BUS INIT") {
            return None;
        }
        if status_line(&upper) {
            return Some(Mode09Failure::Rejected);
        }
        let toks = tokens(line);
        let ghost views = token_views(toks@);
        assert(views == ascii_tokens(line@));
        assert(toks.len() > 0 ==> views[0] == toks@[0]@);
        let has_header = toks.len() > 0 && toks[0].len() == 3 && all_hex_exec(&toks[0]);
        let header: Option<Vec<char>> = if has_header {
            Some(to_upper(&toks[0]))
        } else {
            None
        };
        assert(header_view(header) == mode09_header(views));
        let start: usize = if has_header {
            1
        } else {
            0
        };
        let bad = first_bad_exec(&toks, start);
        if bad < toks.len() {
            return Some(Mode09Failure::MalformedLine);
        }
        let bytes = line_bytes(&toks, start);
        self.frame(header, bytes)
    }
}

fn failure_message(failure: Mode09Failure, line: &Vec<char>) -> (r: String)
    ensures
        r@ == mode09_message(failure, line@),
{
    match failure {
        Mode09Failure::Rejected => {
            let text = string_from_chars(line.as_slice());
            plain_message("ELM327 rejected 0902: ", text.as_str())
        },
        Mode09Failure::MalformedLine => crate::elm_uds::quoted_message(
            "malformed ELM327 Mode 09 response line: ",
            line,
        ),
        Mode09Failure::MalformedFirstFrame => owned("malformed ISO-TP Mode 09 first frame"),
        Mode09Failure::WithoutFirstFrame => owned("Mode 09 consecutive frame without first frame"),
        Mode09Failure::MalformedConsecutive => owned("malformed ISO-TP Mode 09 consecutive frame"),
        Mode09Failure::UnexpectedAfter => owned("unexpected bytes after ISO-TP Mode 09 response"),
        Mode09Failure::Truncated => owned("truncated ISO-TP Mode 09 response"),
        Mode09Failure::NotFound => owned("0902 response not found"),
    }
}

/// The data segments of an ELM327 answer to Mode 09 PID 02: single frames
/// as they are, ISO-TP answers reassembled. Fails on an adapter status, a
/// malformed line or frame, an unfinished reassembly or an empty answer.
pub fn normalize_mode09_segments(response: &str) -> (r: Result<Vec<Vec<u8>>, String>)
    ensures
        match mode09_outcome(response@) {
            Ok(segments) => (r matches Ok(v) && segment_views(v@) == segments),
            Err(failure) => (r matches Err(message) && message@ == mode09_error(response@)),
        },
{
    let lines = split_response_lines(response);
    let ghost views = lines@.map_values(|l: Vec<char>| l@);
    let mut state = Segments { segments: Vec::new(), pending: None };
    let ghost initial = Mode09State { segments: Seq::empty(), pending: None };
    proof {
        assert(views.skip(0) =~= views);
        assert(segment_views(state.segments@) =~= Seq::<Seq<u8>>::empty());
    }
    let mut i: usize = 0;
    while i < lines.len()
        invariant
            i <= lines@.len(),
            views == lines@.map_values(|l: Vec<char>| l@),
            views == split_lines(response@),
            pending_wf(pending_view(state.pending)),
            initial == (Mode09State { segments: Seq::empty(), pending: None }),
            mode09_lines(initial, views) == mode09_lines(state_view(state), views.skip(i as int)),
            mode09_failed_line(initial, views) == mode09_failed_line(state_view(state), views.skip(i as int)),
        decreases lines@.len() - i,
    {
        let line = clean(&lines[i]);
        assert(views[i as int] == lines@[i as int]@);
        let ghost rest = views.skip(i as int);
        assert(rest[0] == views[i as int]);
        assert(rest.drop_first() =~= views.skip(i + 1));
        let ghost before = state_view(state);
        match state.line(&line) {
            Some(failure) => {
                assert(mode09_lines(before, rest) == Mode09Step::Fail(failure));
                let message = failure_message(failure, &line);
                return Err(message);
            },
            None => {},
        }
        i += 1;
    }
    assert(views.skip(lines@.len() as int) =~= Seq::<Seq<char>>::empty());
    let empty: Vec<char> = Vec::new();
    if state.pending.is_some() {
        return Err(failure_message(Mode09Failure::Truncated, &empty));
    }
    if state.segments.len() == 0 {
        return Err(failure_message(Mode09Failure::NotFound, &empty));
    }
    Ok(state.segments)
}

} // verus!
