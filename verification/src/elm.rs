//! ELM327 response vocabulary and the pure parts of its dialect: response
//! normalization, support bitmaps, targeted request validation and responder
//! selection.

use vstd::prelude::*;

use crate::elm_text::{
    all_hex, all_hex_exec, ascii_tokens, ascii_upper, clean, clean_line, concat_all, hex2,
    hex2_chars, hex_bytes, join_compact, push_hex_bytes, split_lines, split_response_lines,
    to_upper, tokens,
};
use crate::order::{
    byte_key, byte_key_exec, int_values, ints_le, ints_le_exec, lemma_byte_key_injective,
    lemma_ints_le_antisymmetric, lemma_ints_le_reflexive, lemma_ints_le_total_ordering,
    lemma_mapped_total_ordering, lemma_optional_text_key_injective, lemma_pair_le_total_ordering,
    optional_text_key, optional_text_key_exec, pair_le, sort_by_model, Ordered,
};
use crate::text::{
    concat, contains_str, debug_quoted, debug_text, has_substring, occurs_at, owned, starts_with_str,
    string_from_chars,
};
use crate::topology::{AddressingContext, EcuRole, EcuTargetMapping, Protocol, RequestTarget, RequestTargetView};
use vstd::relations::*;

verus! {

/// Whether the vehicle advertises a signal.
#[derive(Clone, Copy, Debug, PartialEq, Eq, Structural)]
pub enum SignalSupportStatus {
    Supported,
    Unsupported,
    Unknown,
}

/// The advertised support of one catalog signal.
#[derive(Clone, Debug, PartialEq, Eq)]
pub struct SignalSupport {
    pub semantic: &'static str,
    pub status: SignalSupportStatus,
}

/// Identity exposed by ELM header output. This is not called a CAN
/// identifier: ELM may be speaking a non-CAN protocol and the text alone
/// does not prove a wire-level CAN frame.
#[derive(Clone, Debug, PartialEq, Eq, Hash)]
pub enum ResponderIdentity {
    ElmHeader(String),
}

impl View for ResponderIdentity {
    type V = Seq<char>;

    open spec fn view(&self) -> Seq<char> {
        match self {
            ResponderIdentity::ElmHeader(header) => header@,
        }
    }
}

impl ResponderIdentity {
    pub fn as_str(&self) -> (r: &str)
        ensures
            r@ == self@,
    {
        match self {
            ResponderIdentity::ElmHeader(header) => header.as_str(),
        }
    }

    /// A copy of this identity.
    pub fn duplicate(&self) -> (r: Self)
        ensures
            r@ == self@,
    {
        match self {
            ResponderIdentity::ElmHeader(header) => ResponderIdentity::ElmHeader(header.clone()),
        }
    }
}

pub open spec fn responder_text(responder: Option<ResponderIdentity>) -> Option<Seq<char>> {
    match responder {
        Some(identity) => Some(identity@),
        None => None,
    }
}

/// One normalized response and the responder that sent it, when known.
#[derive(Clone, Debug, PartialEq, Eq)]
pub struct DiagnosticResponse {
    pub responder: Option<ResponderIdentity>,
    pub payload: Vec<u8>,
}

/// The model of a response.
pub struct ResponseView {
    pub responder: Option<Seq<char>>,
    pub payload: Seq<u8>,
}

impl View for DiagnosticResponse {
    type V = ResponseView;

    open spec fn view(&self) -> ResponseView {
        ResponseView { responder: responder_text(self.responder), payload: self.payload@ }
    }
}

/// A recoverable issue attached to one response line.
#[derive(Clone, Debug, PartialEq, Eq)]
pub struct DiagnosticResponseError {
    pub responder: Option<ResponderIdentity>,
    pub error: String,
}

/// The model of a response issue.
pub struct ResponseErrorView {
    pub responder: Option<Seq<char>>,
    pub error: Seq<char>,
}

impl View for DiagnosticResponseError {
    type V = ResponseErrorView;

    open spec fn view(&self) -> ResponseErrorView {
        ResponseErrorView { responder: responder_text(self.responder), error: self.error@ }
    }
}

/// Every normalized response of one adapter answer, the answer itself, and
/// the issues found in it.
#[derive(Clone, Debug, PartialEq, Eq)]
pub struct DiagnosticResponses {
    responses: Vec<DiagnosticResponse>,
    raw_response: String,
    errors: Vec<DiagnosticResponseError>,
}

/// The model of normalized responses.
pub struct ResponsesView {
    pub responses: Seq<ResponseView>,
    pub raw_response: Seq<char>,
    pub errors: Seq<ResponseErrorView>,
}

pub open spec fn response_views(responses: Seq<DiagnosticResponse>) -> Seq<ResponseView> {
    responses.map_values(|r: DiagnosticResponse| r@)
}

pub open spec fn error_views(errors: Seq<DiagnosticResponseError>) -> Seq<ResponseErrorView> {
    errors.map_values(|e: DiagnosticResponseError| e@)
}

impl View for DiagnosticResponses {
    type V = ResponsesView;

    closed spec fn view(&self) -> ResponsesView {
        ResponsesView {
            responses: response_views(self.responses@),
            raw_response: self.raw_response@,
            errors: error_views(self.errors@),
        }
    }
}

impl DiagnosticResponses {
    /// Responses built by a normalizer of this crate.
    pub(crate) fn from_parts(
        responses: Vec<DiagnosticResponse>,
        raw_response: String,
        errors: Vec<DiagnosticResponseError>,
    ) -> (r: Self)
        ensures
            r@ == (ResponsesView {
                responses: response_views(responses@),
                raw_response: raw_response@,
                errors: error_views(errors@),
            }),
    {
        DiagnosticResponses { responses, raw_response, errors }
    }

    /// The responses, the raw answer and the issues, taken apart.
    pub(crate) fn into_parts(self) -> (r: (Vec<DiagnosticResponse>, String, Vec<DiagnosticResponseError>))
        ensures
            response_views(r.0@) == self@.responses,
            r.1@ == self@.raw_response,
            error_views(r.2@) == self@.errors,
    {
        (self.responses, self.raw_response, self.errors)
    }

    pub fn as_slice(&self) -> (r: &[DiagnosticResponse])
        ensures
            response_views(r@) == self@.responses,
    {
        self.responses.as_slice()
    }

    pub fn is_empty(&self) -> (r: bool)
        ensures
            r == (self@.responses.len() == 0),
    {
        self.responses.len() == 0
    }

    pub fn raw_response(&self) -> (r: &str)
        ensures
            r@ == self@.raw_response,
    {
        self.raw_response.as_str()
    }

    pub fn errors(&self) -> (r: &[DiagnosticResponseError])
        ensures
            error_views(r@) == self@.errors,
    {
        self.errors.as_slice()
    }
}

// ---------------------------------------------------------------------------
// Line vocabulary shared by the normalizers.
// ---------------------------------------------------------------------------

/// An adapter status that rejects the request.
pub open spec fn is_status_line(upper: Seq<char>) -> bool {
    ||| upper == "?"@
    ||| has_substring(upper, "NO DATA"@)
    ||| has_substring(upper, "STOPPED"@)
    ||| has_substring(upper, "UNABLE TO CONNECT"@)
    ||| has_substring(upper, "ERROR"@)
}

/// A line that carries no response: the command echo or adapter progress.
pub open spec fn is_noise_line(upper: Seq<char>, echo: Seq<char>) -> bool {
    ||| concat_all(ascii_tokens(upper)) == echo
    ||| occurs_at(upper, "SEARCHING"@, 0)
    ||| (occurs_at(upper, "BUS INIT"@, 0) && !has_substring(upper, "ERROR"@))
}

fn chars_str_contains(line: &Vec<char>, needle: &str) -> (r: bool)
    ensures
        r == has_substring(line@, needle@),
{
    let text = string_from_chars(line.as_slice());
    contains_str(text.as_str(), needle)
}

pub(crate) fn chars_str_starts(line: &Vec<char>, prefix: &str) -> (r: bool)
    ensures
        r == occurs_at(line@, prefix@, 0),
{
    let text = string_from_chars(line.as_slice());
    starts_with_str(text.as_str(), prefix)
}

pub(crate) fn chars_equal_str(line: &Vec<char>, text: &str) -> (r: bool)
    ensures
        r == (line@ == text@),
{
    let other = crate::text::chars_of(text);
    crate::text::chars_eq(line.as_slice(), other.as_slice())
}

pub(crate) fn status_line(upper: &Vec<char>) -> (r: bool)
    ensures
        r == is_status_line(upper@),
{
    chars_equal_str(upper, "?") || chars_str_contains(upper, "NO DATA") || chars_str_contains(
        upper,
        "STOPPED",
    ) || chars_str_contains(upper, "UNABLE TO CONNECT") || chars_str_contains(upper, "ERROR")
}

pub(crate) fn noise_line_exec(upper: &Vec<char>, echo: &Vec<char>) -> (r: bool)
    ensures
        r == is_noise_line(upper@, echo@),
{
    noise_line(upper, echo)
}

/// An adapter status anywhere in an upper-case UDS answer line.
pub(crate) fn uds_status_line(upper: &Vec<char>) -> (r: bool)
    ensures
        r == crate::elm_uds::is_uds_status(upper@),
{
    chars_str_contains(upper, "?") || chars_str_contains(upper, "NO DATA") || chars_str_contains(
        upper,
        "STOPPED",
    ) || chars_str_contains(upper, "UNABLE TO CONNECT") || chars_str_contains(upper, "ERROR")
}

fn noise_line(upper: &Vec<char>, echo: &Vec<char>) -> (r: bool)
    ensures
        r == is_noise_line(upper@, echo@),
{
    let upper_tokens = tokens(upper);
    let compact = join_compact(&upper_tokens);
    crate::text::chars_eq(compact.as_slice(), echo.as_slice()) || chars_str_starts(upper, "SEARCHING")
        || (chars_str_starts(upper, "BUS INIT") && !chars_str_contains(upper, "ERROR"))
}

/// The bytes of hex tokens, in order.
pub open spec fn token_bytes(tokens: Seq<Seq<char>>) -> Seq<u8>
    decreases tokens.len(),
{
    if tokens.len() == 0 {
        Seq::empty()
    } else {
        token_bytes(tokens.drop_last()) + hex_bytes(tokens.last())
    }
}

/// A token that is a run of byte pairs.
pub open spec fn is_byte_token(token: Seq<char>) -> bool {
    token.len() % 2 == 0 && all_hex(token)
}

/// The index of the first token at or after `from` that is not a run of
/// byte pairs, or the number of tokens.
pub open spec fn first_bad_token(tokens: Seq<Seq<char>>, from: int) -> int
    decreases tokens.len() - from,
{
    if from >= tokens.len() {
        tokens.len() as int
    } else if !is_byte_token(tokens[from]) {
        from
    } else {
        first_bad_token(tokens, from + 1)
    }
}

/// A three-character first token is a responder header.
pub open spec fn header_of(tokens: Seq<Seq<char>>) -> Option<Seq<char>> {
    if tokens.len() > 0 && tokens[0].len() == 3 {
        Some(tokens[0])
    } else {
        None
    }
}

/// Texts joined with single spaces.
pub open spec fn join_spaced(parts: Seq<Seq<char>>) -> Seq<char>
    decreases parts.len(),
{
    if parts.len() == 0 {
        Seq::empty()
    } else if parts.len() == 1 {
        parts[0]
    } else {
        join_spaced(parts.drop_last()) + " "@ + parts.last()
    }
}

// ---------------------------------------------------------------------------
// Mode 01 normalization.
// ---------------------------------------------------------------------------

/// Why a Mode 01 answer was refused.
#[derive(Clone, Copy, Debug, PartialEq, Eq, Structural)]
pub enum Mode01Failure {
    Rejected,
    MalformedLine,
    MalformedHeader,
    Negative,
    UnexpectedBytes,
    NotFound,
}

/// What one Mode 01 line contributes.
pub enum Mode01Line {
    Skip,
    Fail(Mode01Failure),
    Frames(Seq<ResponseView>),
    /// The frame needs more responder tokens than the line holds.
    Overrun,
}

/// The first position at or after `from` where `41 <pid>` starts, or -1.
pub open spec fn next_frame(bytes: Seq<u8>, pid: u8, from: int) -> int
    decreases bytes.len() - from,
{
    if from < 0 || from + 1 >= bytes.len() {
        -1
    } else if bytes[from] == 0x41 && bytes[from + 1] == pid {
        from
    } else {
        next_frame(bytes, pid, from + 1)
    }
}

/// Padding after a frame: `00` or `AA`, or `55` after a length prefix.
pub open spec fn is_padding(byte: u8, prefixed: bool) -> bool {
    byte == 0x00 || byte == 0xaa || (prefixed && byte == 0x55)
}

/// The responder of a frame starting at byte `frame_start` of a line.
pub open spec fn frame_responder(
    header: Option<Seq<char>>,
    upper_tokens: Seq<Seq<char>>,
    has_separators: bool,
    frame_start: int,
) -> Option<Option<Seq<char>>> {
    if header is Some {
        Some(Some(ascii_upper(header.unwrap())))
    } else if has_separators && frame_start > 0 {
        if frame_start > upper_tokens.len() {
            None
        } else {
            Some(Some(join_spaced(upper_tokens.take(frame_start))))
        }
    } else {
        Some(None)
    }
}

/// The frames of a Mode 01 line from byte `from` on.
pub open spec fn scan_frames(
    bytes: Seq<u8>,
    pid: u8,
    expected_len: int,
    from: int,
    header: Option<Seq<char>>,
    upper_tokens: Seq<Seq<char>>,
    has_separators: bool,
) -> Mode01Line
    decreases bytes.len() - from,
    when 0 <= from && expected_len >= 2
{
    let start = next_frame(bytes, pid, from);
    if start < from || start + expected_len > bytes.len() {
        Mode01Line::Frames(Seq::empty())
    } else {
        let end = start + expected_len;
        let prefixed = start > 0 && bytes[start - 1] == (expected_len % 256) as u8;
        if !prefixed && start != 0 {
            scan_frames(bytes, pid, expected_len, end, header, upper_tokens, has_separators)
        } else if exists|k: int| end <= k < bytes.len() && !is_padding(#[trigger] bytes[k], prefixed) {
            Mode01Line::Fail(Mode01Failure::UnexpectedBytes)
        } else {
            let frame_start = if prefixed {
                start - 1
            } else {
                start
            };
            match frame_responder(header, upper_tokens, has_separators, frame_start) {
                None => Mode01Line::Overrun,
                Some(responder) => match scan_frames(
                    bytes,
                    pid,
                    expected_len,
                    end,
                    header,
                    upper_tokens,
                    has_separators,
                ) {
                    Mode01Line::Frames(rest) => Mode01Line::Frames(
                        seq![ResponseView { responder, payload: bytes.subrange(start, end) }] + rest,
                    ),
                    other => other,
                },
            }
        }
    }
}

/// The bytes of a line after the negative-response check, when negative.
pub open spec fn is_negative(bytes: Seq<u8>) -> bool {
    let shifted = bytes.len() > 1 && bytes[1] == 0x7f && (bytes[0] as int) < bytes.len();
    let checked = if shifted {
        bytes.drop_first()
    } else {
        bytes
    };
    checked.len() > 0 && checked[0] == 0x7f
}

/// What one cleaned line contributes to a Mode 01 answer.
pub open spec fn mode01_line(line: Seq<char>, pid: u8, data_len: int) -> Mode01Line {
    let upper = ascii_upper(line);
    let compact = concat_all(ascii_tokens(upper));
    let tokens = ascii_tokens(line);
    let has_separators = tokens.len() > 1;
    let header = header_of(tokens);
    let start = if header is Some {
        1int
    } else {
        0int
    };
    let bad = first_bad_token(tokens, start);
    if line.len() == 0 {
        Mode01Line::Skip
    } else if is_noise_line(upper, "01"@ + hex2(pid)) {
        Mode01Line::Skip
    } else if is_status_line(upper) {
        Mode01Line::Fail(Mode01Failure::Rejected)
    } else if header is None && (compact.len() % 2 != 0 || !all_hex(compact)) {
        Mode01Line::Fail(Mode01Failure::MalformedLine)
    } else if header is Some && !all_hex(header.unwrap()) {
        Mode01Line::Fail(Mode01Failure::MalformedHeader)
    } else if bad < tokens.len() {
        if bad == 0 && has_separators {
            Mode01Line::Fail(Mode01Failure::MalformedHeader)
        } else {
            Mode01Line::Fail(Mode01Failure::MalformedLine)
        }
    } else {
        let bytes = token_bytes(tokens.skip(start));
        if is_negative(bytes) {
            Mode01Line::Fail(Mode01Failure::Negative)
        } else {
            scan_frames(
                bytes,
                pid,
                data_len + 2,
                0,
                header,
                ascii_tokens(upper),
                has_separators,
            )
        }
    }
}

/// The frames of all lines, or the first failure in line order.
pub open spec fn mode01_lines(lines: Seq<Seq<char>>, pid: u8, data_len: int) -> Mode01Line
    decreases lines.len(),
{
    if lines.len() == 0 {
        Mode01Line::Frames(Seq::empty())
    } else {
        match mode01_line(clean_line(lines[0]), pid, data_len) {
            Mode01Line::Skip => mode01_lines(lines.drop_first(), pid, data_len),
            Mode01Line::Frames(frames) => match mode01_lines(lines.drop_first(), pid, data_len) {
                Mode01Line::Frames(rest) => Mode01Line::Frames(frames + rest),
                other => other,
            },
            other => other,
        }
    }
}

/// The cleaned line on which the normalization of `lines` fails.
pub open spec fn mode01_failed_line(lines: Seq<Seq<char>>, pid: u8, data_len: int) -> Seq<char>
    decreases lines.len(),
{
    if lines.len() == 0 {
        Seq::empty()
    } else {
        match mode01_line(clean_line(lines[0]), pid, data_len) {
            Mode01Line::Fail(_) => clean_line(lines[0]),
            Mode01Line::Overrun => Seq::empty(),
            _ => mode01_failed_line(lines.drop_first(), pid, data_len),
        }
    }
}

/// The message of a refused Mode 01 answer.
pub open spec fn mode01_error(response: Seq<char>, pid: u8, data_len: int) -> Seq<char> {
    match mode01_outcome(response, pid, data_len) {
        Mode01Line::Fail(kind) => mode01_failure_message(
            kind,
            pid,
            mode01_failed_line(split_lines(response), pid, data_len),
            response,
        ),
        _ => Seq::empty(),
    }
}

/// The outcome of normalizing a whole Mode 01 answer: its frames, or why it
/// was refused (no frame at all is `NotFound`).
pub open spec fn mode01_outcome(response: Seq<char>, pid: u8, data_len: int) -> Mode01Line {
    match mode01_lines(split_lines(response), pid, data_len) {
        Mode01Line::Frames(frames) => if frames.len() == 0 {
            Mode01Line::Fail(Mode01Failure::NotFound)
        } else {
            Mode01Line::Frames(frames)
        },
        other => other,
    }
}


pub open spec fn token_views(tokens: Seq<Vec<char>>) -> Seq<Seq<char>> {
    tokens.map_values(|t: Vec<char>| t@)
}

pub(crate) fn first_bad_exec(tokens: &Vec<Vec<char>>, start: usize) -> (r: usize)
    requires
        start <= tokens@.len(),
    ensures
        r as int == first_bad_token(token_views(tokens@), start as int),
        r <= tokens@.len(),
{
    let ghost views = token_views(tokens@);
    let mut i = start;
    while i < tokens.len()
        invariant
            start <= i <= tokens@.len(),
            views == token_views(tokens@),
            first_bad_token(views, start as int) == first_bad_token(views, i as int),
        decreases tokens@.len() - i,
    {
        let token = &tokens[i];
        assert(views[i as int] == token@);
        if token.len() % 2 != 0 || !all_hex_exec(token) {
            return i;
        }
        i += 1;
    }
    i
}

pub(crate) fn line_bytes(tokens: &Vec<Vec<char>>, start: usize) -> (r: Vec<u8>)
    requires
        start <= tokens@.len(),
        first_bad_token(token_views(tokens@), start as int) == tokens@.len(),
    ensures
        r@ == token_bytes(token_views(tokens@).skip(start as int)),
{
    let ghost views = token_views(tokens@);
    let mut bytes: Vec<u8> = Vec::new();
    let mut i = start;
    assert(views.skip(start as int).take(0) =~= Seq::<Seq<char>>::empty());
    while i < tokens.len()
        invariant
            start <= i <= tokens@.len(),
            views == token_views(tokens@),
            first_bad_token(views, i as int) == tokens@.len(),
            bytes@ == token_bytes(views.skip(start as int).take(i - start)),
        decreases tokens@.len() - i,
    {
        let token = &tokens[i];
        assert(views[i as int] == token@);
        push_hex_bytes(&mut bytes, token);
        let ghost taken = views.skip(start as int).take(i - start + 1);
        assert(taken.drop_last() =~= views.skip(start as int).take(i - start));
        assert(taken.last() == token@);
        i += 1;
    }
    assert(views.skip(start as int).take(tokens@.len() - start) =~= views.skip(start as int));
    bytes
}

fn next_frame_exec(bytes: &Vec<u8>, pid: u8, from: usize) -> (r: Option<usize>)
    ensures
        match r {
            Some(start) => next_frame(bytes@, pid, from as int) == start as int,
            None => next_frame(bytes@, pid, from as int) == -1,
        },
{
    let mut i = from;
    while i < bytes.len() && i + 1 < bytes.len()
        invariant
            from <= i,
            next_frame(bytes@, pid, from as int) == next_frame(bytes@, pid, i as int),
        decreases bytes@.len() - i,
    {
        if bytes[i] == 0x41 && bytes[i + 1] == pid {
            return Some(i);
        }
        i += 1;
    }
    None
}

fn padding_only(bytes: &Vec<u8>, end: usize, prefixed: bool) -> (r: bool)
    requires
        end <= bytes@.len(),
    ensures
        r == !(exists|k: int| end <= k < bytes@.len() && !is_padding(#[trigger] bytes@[k], prefixed)),
{
    let mut k = end;
    while k < bytes.len()
        invariant
            end <= k <= bytes@.len(),
            forall|j: int| end <= j < k ==> is_padding(#[trigger] bytes@[j], prefixed),
        decreases bytes@.len() - k,
    {
        let byte = bytes[k];
        if !(byte == 0x00 || byte == 0xaa || (prefixed && byte == 0x55)) {
            assert(!is_padding(bytes@[k as int], prefixed));
            return false;
        }
        k += 1;
    }
    true
}

fn join_spaced_exec(parts: &Vec<Vec<char>>, count: usize) -> (r: Vec<char>)
    requires
        count <= parts@.len(),
    ensures
        r@ == join_spaced(token_views(parts@).take(count as int)),
{
    let ghost views = token_views(parts@);
    let mut r: Vec<char> = Vec::new();
    let mut i: usize = 0;
    assert(views.take(0) =~= Seq::<Seq<char>>::empty());
    while i < count
        invariant
            i <= count <= parts@.len(),
            views == token_views(parts@),
            r@ == join_spaced(views.take(i as int)),
        decreases count - i,
    {
        let part = &parts[i];
        assert(views[i as int] == part@);
        let ghost before = r@;
        if i > 0 {
            r.push(' ');
        }
        proof {
            reveal_strlit(" ");
        }
        let mut k: usize = 0;
        let ghost base = r@;
        while k < part.len()
            invariant
                k <= part@.len(),
                r@ == base + part@.take(k as int),
            decreases part@.len() - k,
        {
            r.push(part[k]);
            assert(part@.take(k + 1) =~= part@.take(k as int).push(part@[k as int]));
            k += 1;
        }
        assert(part@.take(part@.len() as int) =~= part@);
        let ghost taken = views.take(i + 1);
        assert(taken.drop_last() =~= views.take(i as int));
        assert(taken.last() == part@);
        if i == 0 {
            assert(taken.len() == 1);
            assert(r@ =~= join_spaced(taken));
        } else {
            assert(r@ =~= before + " "@ + part@);
        }
        i += 1;
    }
    r
}

/// Prepend frames to an outcome.
pub open spec fn prepend_frames(frames: Seq<ResponseView>, outcome: Mode01Line) -> Mode01Line {
    match outcome {
        Mode01Line::Frames(rest) => Mode01Line::Frames(frames + rest),
        other => other,
    }
}

/// What one line contributes, with the responses it holds.
pub enum LineResult {
    Skip,
    Fail(Mode01Failure),
    Frames(Vec<DiagnosticResponse>),
    Overrun,
}

pub open spec fn line_result_view(r: LineResult) -> Mode01Line {
    match r {
        LineResult::Skip => Mode01Line::Skip,
        LineResult::Fail(f) => Mode01Line::Fail(f),
        LineResult::Frames(frames) => Mode01Line::Frames(response_views(frames@)),
        LineResult::Overrun => Mode01Line::Overrun,
    }
}

fn scan_frames_exec(
    bytes: &Vec<u8>,
    pid: u8,
    expected_len: usize,
    header: &Option<Vec<char>>,
    upper_tokens: &Vec<Vec<char>>,
    has_separators: bool,
) -> (r: LineResult)
    requires
        expected_len >= 2,
    ensures
        line_result_view(r) == scan_frames(
            bytes@,
            pid,
            expected_len as int,
            0,
            match header {
                Some(h) => Some(h@),
                None => None,
            },
            token_views(upper_tokens@),
            has_separators,
        ),
{
    let ghost header_view: Option<Seq<char>> = match header {
        Some(h) => Some(h@),
        None => None,
    };
    let ghost uviews = token_views(upper_tokens@);
    let mut found: Vec<DiagnosticResponse> = Vec::new();
    let mut search_from: usize = 0;
    loop
        invariant
            expected_len >= 2,
            uviews == token_views(upper_tokens@),
            header_view == (match header {
                Some(h) => Some(h@),
                None => None,
            }),
            scan_frames(bytes@, pid, expected_len as int, 0, header_view, uviews, has_separators)
                == prepend_frames(
                response_views(found@),
                scan_frames(
                    bytes@,
                    pid,
                    expected_len as int,
                    search_from as int,
                    header_view,
                    uviews,
                    has_separators,
                ),
            ),
        decreases bytes@.len() + expected_len - search_from,
    {
        let start = match next_frame_exec(bytes, pid, search_from) {
            Some(start) => start,
            None => {
                assert(response_views(found@) + Seq::<ResponseView>::empty() =~= response_views(found@));
                return LineResult::Frames(found);
            },
        };
        proof {
            lemma_next_frame_bounds(bytes@, pid, search_from as int);
        }
        let total = bytes.len();
        let end = match start.checked_add(expected_len) {
            Some(end) => end,
            None => {
                assert(start + expected_len > total);
                assert(response_views(found@) + Seq::<ResponseView>::empty() =~= response_views(found@));
                return LineResult::Frames(found);
            },
        };
        if end > bytes.len() {
            assert(response_views(found@) + Seq::<ResponseView>::empty() =~= response_views(found@));
            return LineResult::Frames(found);
        }
        let prefixed = start > 0 && bytes[start - 1] == (expected_len % 256) as u8;
        if !prefixed && start != 0 {
            search_from = end;
            continue;
        }
        if !padding_only(bytes, end, prefixed) {
            return LineResult::Fail(Mode01Failure::UnexpectedBytes);
        }
        let frame_start = if prefixed {
            start - 1
        } else {
            start
        };
        let responder: Option<ResponderIdentity> = match header {
            Some(h) => Some(ResponderIdentity::ElmHeader(string_from_chars(to_upper(h).as_slice()))),
            None => {
                if has_separators && frame_start > 0 {
                    if frame_start > upper_tokens.len() {
                        return LineResult::Overrun;
                    }
                    let joined = join_spaced_exec(upper_tokens, frame_start);
                    Some(ResponderIdentity::ElmHeader(string_from_chars(joined.as_slice())))
                } else {
                    None
                }
            },
        };
        let mut payload: Vec<u8> = Vec::new();
        let mut k = start;
        while k < end
            invariant
                start <= k <= end <= bytes@.len(),
                payload@ == bytes@.subrange(start as int, k as int),
            decreases end - k,
        {
            payload.push(bytes[k]);
            assert(bytes@.subrange(start as int, k + 1) =~= bytes@.subrange(start as int, k as int).push(
                bytes@[k as int],
            ));
            k += 1;
        }
        let response = DiagnosticResponse { responder, payload };
        let ghost before = response_views(found@);
        found.push(response);
        assert(response_views(found@) =~= before.push(response@));
        assert(before.push(response@) =~= before + seq![response@]);
        proof {
            let next = scan_frames(bytes@, pid, expected_len as int, end as int, header_view, uviews, has_separators);
            match next {
                Mode01Line::Frames(rest) => {
                    assert(before + (seq![response@] + rest) =~= before.push(response@) + rest);
                },
                _ => {},
            }
        }
        search_from = end;
    }
}

proof fn lemma_next_frame_bounds(bytes: Seq<u8>, pid: u8, from: int)
    requires
        0 <= from,
    ensures
        next_frame(bytes, pid, from) == -1 || (from <= next_frame(bytes, pid, from) && next_frame(
            bytes,
            pid,
            from,
        ) + 1 < bytes.len()),
    decreases bytes.len() - from,
{
    if from + 1 < bytes.len() && !(bytes[from] == 0x41 && bytes[from + 1] == pid) {
        lemma_next_frame_bounds(bytes, pid, from + 1);
    }
}


pub(crate) fn copy_chars(v: &Vec<char>) -> (r: Vec<char>)
    ensures
        r@ == v@,
{
    let mut r: Vec<char> = Vec::new();
    let mut i: usize = 0;
    while i < v.len()
        invariant
            i <= v@.len(),
            r@ == v@.take(i as int),
        decreases v@.len() - i,
    {
        r.push(v[i]);
        assert(v@.take(i + 1) =~= v@.take(i as int).push(v@[i as int]));
        i += 1;
    }
    assert(v@.take(v@.len() as int) =~= v@);
    r
}

/// `prefix` followed by the two hex digits of `byte`.
pub(crate) fn with_hex2(prefix: &str, byte: u8) -> (r: Vec<char>)
    ensures
        r@ == prefix@ + hex2(byte),
{
    let mut r = crate::text::chars_of(prefix);
    let digits = hex2_chars(byte);
    r.push(digits[0]);
    r.push(digits[1]);
    assert(r@ =~= prefix@ + hex2(byte));
    r
}

fn mode01_line_exec(line: &Vec<char>, pid: u8, data_len: usize) -> (r: LineResult)
    requires
        data_len + 2 <= usize::MAX,
    ensures
        line_result_view(r) == mode01_line(line@, pid, data_len as int),
{
    if line.len() == 0 {
        return LineResult::Skip;
    }
    let upper = to_upper(line);
    let echo = with_hex2("01", pid);
    if noise_line(&upper, &echo) {
        return LineResult::Skip;
    }
    if status_line(&upper) {
        return LineResult::Fail(Mode01Failure::Rejected);
    }
    let toks = tokens(line);
    let upper_toks = tokens(&upper);
    let compact = join_compact(&upper_toks);
    let has_separators = toks.len() > 1;
    let header: Option<Vec<char>> = if toks.len() > 0 && toks[0].len() == 3 {
        Some(copy_chars(&toks[0]))
    } else {
        None
    };
    let ghost views = token_views(toks@);
    assert(toks.len() > 0 ==> views[0] == toks@[0]@);
    assert(header_of(views) == (match header {
        Some(h) => Some(h@),
        None => None,
    }));
    match &header {
        None => {
            if compact.len() % 2 != 0 || !all_hex_exec(&compact) {
                return LineResult::Fail(Mode01Failure::MalformedLine);
            }
        },
        Some(h) => {
            if !all_hex_exec(h) {
                return LineResult::Fail(Mode01Failure::MalformedHeader);
            }
        },
    }
    let start: usize = if header.is_some() {
        1
    } else {
        0
    };
    let bad = first_bad_exec(&toks, start);
    if bad < toks.len() {
        if bad == 0 && has_separators {
            return LineResult::Fail(Mode01Failure::MalformedHeader);
        }
        return LineResult::Fail(Mode01Failure::MalformedLine);
    }
    let bytes = line_bytes(&toks, start);
    let shifted = bytes.len() > 1 && bytes[1] == 0x7f && (bytes[0] as usize) < bytes.len();
    let negative = if shifted {
        bytes.len() > 1 && bytes[1] == 0x7f
    } else {
        bytes.len() > 0 && bytes[0] == 0x7f
    };
    assert(shifted ==> bytes@.drop_first()[0] == bytes@[1]);
    if negative {
        return LineResult::Fail(Mode01Failure::Negative);
    }
    scan_frames_exec(&bytes, pid, data_len + 2, &header, &upper_toks, has_separators)
}

/// The prefix of the message for each Mode 01 failure.
pub open spec fn mode01_failure_prefix(kind: Mode01Failure, pid: u8) -> Seq<char> {
    match kind {
        Mode01Failure::Rejected => "ELM327 rejected 01"@ + hex2(pid) + ": "@,
        Mode01Failure::MalformedLine => "malformed ELM327 response line: "@,
        Mode01Failure::MalformedHeader => "malformed ELM327 responder header: "@,
        Mode01Failure::Negative => "negative OBD-II response: "@,
        Mode01Failure::UnexpectedBytes => "unexpected bytes after OBD-II response: "@,
        Mode01Failure::NotFound => "01"@ + hex2(pid) + " response not found in "@,
    }
}

/// The message of each Mode 01 failure, given the cleaned line it arose on
/// and the whole answer.
pub open spec fn mode01_failure_message(
    kind: Mode01Failure,
    pid: u8,
    line: Seq<char>,
    response: Seq<char>,
) -> Seq<char> {
    match kind {
        Mode01Failure::Rejected => mode01_failure_prefix(kind, pid) + line,
        Mode01Failure::MalformedLine => mode01_failure_prefix(kind, pid) + debug_text(line),
        Mode01Failure::MalformedHeader => mode01_failure_prefix(kind, pid) + debug_text(line),
        Mode01Failure::Negative => mode01_failure_prefix(kind, pid) + line,
        Mode01Failure::UnexpectedBytes => mode01_failure_prefix(kind, pid) + line,
        Mode01Failure::NotFound => mode01_failure_prefix(kind, pid) + debug_text(response),
    }
}

fn prefixed_message(prefix: Vec<char>, rest: &str) -> (r: String)
    ensures
        r@ == prefix@ + rest@,
{
    let head = string_from_chars(prefix.as_slice());
    concat(head.as_str(), rest)
}

pub(crate) fn mode01_message(kind: Mode01Failure, pid: u8, line: &Vec<char>, response: &str) -> (r: String)
    ensures
        r@ == mode01_failure_message(kind, pid, line@, response@),
{
    let text = string_from_chars(line.as_slice());
    match kind {
        Mode01Failure::Rejected => {
            let mut prefix = with_hex2("ELM327 rejected 01", pid);
            prefix.push(':');
            prefix.push(' ');
            proof {
                reveal_strlit(": ");
            }
            assert(prefix@ =~= "ELM327 rejected 01"@ + hex2(pid) + ": "@);
            prefixed_message(prefix, text.as_str())
        },
        Mode01Failure::MalformedLine => {
            let quoted = debug_quoted(text.as_str());
            prefixed_message(crate::text::chars_of("malformed ELM327 response line: "), quoted.as_str())
        },
        Mode01Failure::MalformedHeader => {
            let quoted = debug_quoted(text.as_str());
            prefixed_message(crate::text::chars_of("malformed ELM327 responder header: "), quoted.as_str())
        },
        Mode01Failure::Negative => prefixed_message(
            crate::text::chars_of("negative OBD-II response: "),
            text.as_str(),
        ),
        Mode01Failure::UnexpectedBytes => prefixed_message(
            crate::text::chars_of("unexpected bytes after OBD-II response: "),
            text.as_str(),
        ),
        Mode01Failure::NotFound => {
            let head = with_hex2("01", pid);
            let mut prefix = head;
            let tail = crate::text::chars_of(" response not found in ");
            let ghost before = prefix@;
            let mut k: usize = 0;
            while k < tail.len()
                invariant
                    k <= tail@.len(),
                    prefix@ == before + tail@.take(k as int),
                decreases tail@.len() - k,
            {
                prefix.push(tail[k]);
                assert(tail@.take(k + 1) =~= tail@.take(k as int).push(tail@[k as int]));
                k += 1;
            }
            assert(tail@.take(tail@.len() as int) =~= tail@);
            let quoted = debug_quoted(response);
            prefixed_message(prefix, quoted.as_str())
        },
    }
}

/// Normalize a Mode 01 answer, or `None` where a frame needs more responder
/// tokens than its line holds (a line the slice of header tokens cannot be
/// taken from).
pub fn try_normalize_mode01_responses(response: &str, pid: u8, data_len: usize) -> (r: Option<
    Result<DiagnosticResponses, String>,
>)
    requires
        data_len + 2 <= usize::MAX,
    ensures
        match mode01_outcome(response@, pid, data_len as int) {
            Mode01Line::Frames(frames) => (r matches Some(Ok(responses)) && responses@ == (
            ResponsesView { responses: frames, raw_response: response@, errors: Seq::empty() })),
            Mode01Line::Fail(kind) => (r matches Some(Err(message)) && message@ == mode01_error(
                response@,
                pid,
                data_len as int,
            )),
            _ => r is None,
        },
{
    let lines = split_response_lines(response);
    let ghost views = lines@.map_values(|l: Vec<char>| l@);
    let mut found: Vec<DiagnosticResponse> = Vec::new();
    let mut i: usize = 0;
    proof {
        assert(views.skip(0) =~= views);
        assert(response_views(found@) =~= Seq::<ResponseView>::empty());
        match mode01_lines(views, pid, data_len as int) {
            Mode01Line::Frames(all) => {
                assert(Seq::<ResponseView>::empty() + all =~= all);
            },
            _ => {},
        }
    }
    while i < lines.len()
        invariant
            i <= lines@.len(),
            data_len + 2 <= usize::MAX,
            views == lines@.map_values(|l: Vec<char>| l@),
            views == split_lines(response@),
            mode01_failed_line(views, pid, data_len as int) == mode01_failed_line(
                views.skip(i as int),
                pid,
                data_len as int,
            ),
            mode01_lines(views, pid, data_len as int) == prepend_frames(
                response_views(found@),
                mode01_lines(views.skip(i as int), pid, data_len as int),
            ),
        decreases lines@.len() - i,
    {
        let line = clean(&lines[i]);
        assert(views[i as int] == lines@[i as int]@);
        let ghost rest = views.skip(i as int);
        assert(rest[0] == views[i as int]);
        assert(rest.drop_first() =~= views.skip(i + 1));
        match mode01_line_exec(&line, pid, data_len) {
            LineResult::Skip => {},
            LineResult::Fail(kind) => {
                let message = mode01_message(kind, pid, &line, response);
                return Some(Err(message));
            },
            LineResult::Overrun => {
                return None;
            },
            LineResult::Frames(frames) => {
                let ghost before = response_views(found@);
                let ghost added = response_views(frames@);
                let mut k: usize = 0;
                while k < frames.len()
                    invariant
                        k <= frames@.len(),
                        added == response_views(frames@),
                        response_views(found@) == before + added.take(k as int),
                    decreases frames@.len() - k,
                {
                    let ghost found_before = response_views(found@);
                    found.push(frames[k].clone_response());
                    assert(response_views(found@) =~= found_before.push(frames@[k as int]@));
                    assert(added.take(k + 1) =~= added.take(k as int).push(added[k as int]));
                    k += 1;
                }
                assert(added.take(frames@.len() as int) =~= added);
                proof {
                    match mode01_lines(views.skip(i + 1), pid, data_len as int) {
                        Mode01Line::Frames(tail) => {
                            assert(before + (added + tail) =~= (before + added) + tail);
                        },
                        _ => {},
                    }
                }
            },
        }
        i += 1;
    }
    assert(views.skip(lines@.len() as int) =~= Seq::<Seq<char>>::empty());
    assert(response_views(found@) + Seq::<ResponseView>::empty() =~= response_views(found@));
    if found.len() == 0 {
        let empty: Vec<char> = Vec::new();
        let message = mode01_message(Mode01Failure::NotFound, pid, &empty, response);
        return Some(Err(message));
    }
    let result = DiagnosticResponses { responses: found, raw_response: owned(response), errors: Vec::new() };
    assert(result@.errors =~= Seq::<ResponseErrorView>::empty());
    Some(Ok(result))
}

/// Normalize a Mode 01 answer into the responses to `01 <pid>` with
/// `data_len` data bytes, keeping every responder.
pub fn normalize_mode01_responses(response: &str, pid: u8, data_len: usize) -> (r: Result<
    DiagnosticResponses,
    String,
>)
    requires
        data_len + 2 <= usize::MAX,
        !(mode01_outcome(response@, pid, data_len as int) is Overrun),
    ensures
        match mode01_outcome(response@, pid, data_len as int) {
            Mode01Line::Frames(frames) => (r matches Ok(responses) && responses@ == (ResponsesView {
                responses: frames,
                raw_response: response@,
                errors: Seq::empty(),
            })),
            Mode01Line::Fail(kind) => (r matches Err(message) && message@ == mode01_error(
                response@,
                pid,
                data_len as int,
            )),
            _ => false,
        },
{
    proof {
        lemma_mode01_lines_not_skip(split_lines(response@), pid, data_len as int);
    }
    match try_normalize_mode01_responses(response, pid, data_len) {
        Some(result) => result,
        None => {
            proof {
                assert(false);
            }
            Err(owned(""))
        },
    }
}

proof fn lemma_scan_frames_not_skip(
    bytes: Seq<u8>,
    pid: u8,
    expected_len: int,
    from: int,
    header: Option<Seq<char>>,
    upper_tokens: Seq<Seq<char>>,
    has_separators: bool,
)
    requires
        0 <= from,
        expected_len >= 2,
    ensures
        !(scan_frames(bytes, pid, expected_len, from, header, upper_tokens, has_separators) is Skip),
    decreases bytes.len() - from,
{
    let start = next_frame(bytes, pid, from);
    lemma_next_frame_bounds(bytes, pid, from);
    if start >= from && start + expected_len <= bytes.len() {
        lemma_scan_frames_not_skip(
            bytes,
            pid,
            expected_len,
            start + expected_len,
            header,
            upper_tokens,
            has_separators,
        );
    }
}

proof fn lemma_mode01_lines_not_skip(lines: Seq<Seq<char>>, pid: u8, data_len: int)
    requires
        data_len >= 0,
    ensures
        !(mode01_lines(lines, pid, data_len) is Skip),
    decreases lines.len(),
{
    if lines.len() > 0 {
        lemma_mode01_lines_not_skip(lines.drop_first(), pid, data_len);
    }
}

impl DiagnosticResponse {
    /// A copy of this response.
    pub fn clone_response(&self) -> (r: Self)
        ensures
            r@ == self@,
    {
        let responder = match &self.responder {
            Some(identity) => Some(identity.duplicate()),
            None => None,
        };
        DiagnosticResponse { responder, payload: self.payload.clone() }
    }
}


/// The payloads of the responses from `target`, in order.
pub open spec fn payloads_from(responses: Seq<ResponseView>, target: Seq<char>) -> Seq<Seq<u8>> {
    responses.filter(|r: ResponseView| r.responder == Some(target)).map_values(
        |r: ResponseView| r.payload,
    )
}

/// All payloads agree.
pub open spec fn all_equal(payloads: Seq<Seq<u8>>) -> bool {
    forall|i: int| 0 <= i < payloads.len() ==> #[trigger] payloads[i] == payloads[0]
}

fn bytes_equal(a: &Vec<u8>, b: &Vec<u8>) -> (r: bool)
    ensures
        r == (a@ == b@),
{
    if a.len() != b.len() {
        return false;
    }
    let mut i: usize = 0;
    while i < a.len()
        invariant
            i <= a@.len(),
            a@.len() == b@.len(),
            forall|j: int| 0 <= j < i ==> a@[j] == b@[j],
        decreases a@.len() - i,
    {
        if a[i] != b[i] {
            return false;
        }
        i += 1;
    }
    assert(a@ =~= b@);
    true
}

fn same_responder(responder: &Option<ResponderIdentity>, target: &ResponderIdentity) -> (r: bool)
    ensures
        r == (responder_text(*responder) == Some(target@)),
{
    match responder {
        Some(identity) => crate::text::str_eq(identity.as_str(), target.as_str()),
        None => false,
    }
}

impl DiagnosticResponses {
    /// The payload of a known responder. No value-based fallback is
    /// permitted: the responder must have answered, and every answer it gave
    /// must carry the same payload.
    pub fn select(&self, target: &ResponderIdentity) -> (r: Result<Vec<u8>, String>)
        ensures
            ({
                let payloads = payloads_from(self@.responses, target@);
                &&& payloads.len() == 0 ==> (r matches Err(message) && message@ == "responder "@
                    + target@ + " did not answer"@)
                &&& payloads.len() > 0 && !all_equal(payloads) ==> (r matches Err(message)
                    && message@ == "conflicting responses from responder "@ + target@)
                &&& payloads.len() > 0 && all_equal(payloads) ==> (r matches Ok(payload)
                    && payload@ == payloads[0])
            }),
    {
        let ghost views = self@.responses;
        let ghost pred = |r: ResponseView| r.responder == Some(target@);
        let ghost map = |r: ResponseView| r.payload;
        let mut first: Option<usize> = None;
        let mut conflict = false;
        let mut i: usize = 0;
        while i < self.responses.len()
            invariant
                i <= self.responses@.len(),
                views == self@.responses,
                views == response_views(self.responses@),
                pred == (|r: ResponseView| r.responder == Some(target@)),
                map == (|r: ResponseView| r.payload),
                first is None <==> views.take(i as int).filter(pred).len() == 0,
                first matches Some(f) ==> f < i && views[f as int].responder == Some(target@)
                    && views.take(i as int).filter(pred).map_values(map)[0] == views[f as int].payload,
                conflict <==> !all_equal(views.take(i as int).filter(pred).map_values(map)),
            decreases self.responses@.len() - i,
        {
            let ghost prefix = views.take(i as int);
            let ghost next = views.take(i + 1);
            assert(next.drop_last() =~= prefix);
            assert(views[i as int] == self.responses@[i as int]@);
            let response = &self.responses[i];
            proof {
                reveal_with_fuel(Seq::filter, 2);
                assert(next.last() == views[i as int]);
            }
            if same_responder(&response.responder, target) {
                assert(pred(views[i as int]));
                assert(next.filter(pred) == prefix.filter(pred).push(views[i as int]));
                assert(next.filter(pred).map_values(map) =~= prefix.filter(pred).map_values(map).push(
                    views[i as int].payload,
                ));
                match first {
                    None => {
                        first = Some(i);
                        assert(all_equal(next.filter(pred).map_values(map)));
                    },
                    Some(f) => {
                        let differs = !bytes_equal(&response.payload, &self.responses[f].payload);
                        assert(views[f as int] == self.responses@[f as int]@);
                        let ghost old_payloads = prefix.filter(pred).map_values(map);
                        let ghost new_payloads = next.filter(pred).map_values(map);
                        if differs {
                            assert(new_payloads[new_payloads.len() - 1] != new_payloads[0]);
                            conflict = true;
                        } else {
                            if !conflict {
                                proof {
                                    assert forall|j: int| 0 <= j < new_payloads.len() implies #[trigger] new_payloads[j]
                                        == new_payloads[0] by {
                                        if j < old_payloads.len() {
                                            assert(new_payloads[j] == old_payloads[j]);
                                        }
                                    }
                                }
                            } else {
                                proof {
                                    let j = choose|j: int|
                                        0 <= j < old_payloads.len() && #[trigger] old_payloads[j] != old_payloads[0];
                                    assert(new_payloads[j] == old_payloads[j]);
                                }
                            }
                        }
                    },
                }
            } else {
                assert(!pred(views[i as int]));
                assert(next.filter(pred) == prefix.filter(pred));
            }
            i += 1;
        }
        assert(views.take(views.len() as int) =~= views);
        assert(views.filter(pred).map_values(map) =~= payloads_from(views, target@));
        match first {
            None => {
                let head = concat("responder ", target.as_str());
                Err(concat(head.as_str(), " did not answer"))
            },
            Some(f) => {
                if conflict {
                    Err(concat("conflicting responses from responder ", target.as_str()))
                } else {
                    assert(views[f as int] == self.responses@[f as int]@);
                    Ok(self.responses[f].payload.clone())
                }
            },
        }
    }

    /// The evidence of every response, for capture.
    pub fn capture_evidence(&self) -> (r: Vec<crate::capture_events::ResponderEvidence>)
        ensures
            r@.len() == self@.responses.len(),
            forall|i: int|
                0 <= i < r@.len() ==> (#[trigger] r@[i])@.responder == self@.responses[i].responder
                    && r@[i]@.payload == self@.responses[i].payload,
    {
        let mut r: Vec<crate::capture_events::ResponderEvidence> = Vec::new();
        let mut i: usize = 0;
        while i < self.responses.len()
            invariant
                i <= self.responses@.len(),
                r@.len() == i,
                forall|j: int|
                    0 <= j < i ==> (#[trigger] r@[j])@.responder == self@.responses[j].responder
                        && r@[j]@.payload == self@.responses[j].payload,
            decreases self.responses@.len() - i,
        {
            let response = &self.responses[i];
            assert(self@.responses[i as int] == response@);
            let responder = match &response.responder {
                Some(identity) => Some(owned(identity.as_str())),
                None => None,
            };
            r.push(crate::capture_events::ResponderEvidence { responder, payload: response.payload.clone() });
            i += 1;
        }
        r
    }
}


/// The payloads of all responses.
pub open spec fn all_payloads(responses: Seq<ResponseView>) -> Seq<Seq<u8>> {
    responses.map_values(|r: ResponseView| r.payload)
}

impl DiagnosticResponses {
    /// The one payload every responder agreed on, which must answer
    /// `01 <pid>`. Disagreeing responders are a conflict, never a choice.
    pub fn unambiguous_payload(&self, pid: u8) -> (r: Result<Vec<u8>, String>)
        ensures
            ({
                let payloads = all_payloads(self@.responses);
                let answers = payloads.len() > 0 && payloads[0].len() >= 2 && payloads[0][0]
                    == 0x41 && payloads[0][1] == pid;
                &&& !answers ==> (r matches Err(message) && message@ == "01"@ + hex2(pid)
                    + " response not found"@)
                &&& answers && !all_equal(payloads) ==> (r matches Err(message) && message@
                    == conflict_text(self@.responses, pid))
                &&& answers && all_equal(payloads) ==> (r matches Ok(payload) && payload@
                    == payloads[0])
            }),
    {
        let ghost payloads = all_payloads(self@.responses);
        if self.responses.len() == 0 || self.responses[0].payload.len() < 2
            || self.responses[0].payload[0] != 0x41 || self.responses[0].payload[1] != pid {
            let head = string_from_chars(with_hex2("01", pid).as_slice());
            return Err(concat(head.as_str(), " response not found"));
        }
        assert(payloads[0] == self.responses@[0].payload@);
        let first = &self.responses[0].payload;
        let mut i: usize = 1;
        while i < self.responses.len()
            invariant
                1 <= i <= self.responses@.len(),
                payloads == all_payloads(self@.responses),
                self@.responses == response_views(self.responses@),
                payloads.len() == self.responses@.len(),
                first@ == payloads[0],
                payloads[0].len() >= 2 && payloads[0][0] == 0x41 && payloads[0][1] == pid,
                forall|j: int| 0 <= j < i ==> #[trigger] payloads[j] == payloads[0],
            decreases self.responses@.len() - i,
        {
            assert(payloads[i as int] == self.responses@[i as int].payload@);
            if !bytes_equal(&self.responses[i].payload, first) {
                assert(payloads[i as int] != payloads[0]);
                let message = self.conflict_message(pid);
                return Err(message);
            }
            i += 1;
        }
        Ok(first.clone())
    }
}

/// Normalize a Mode 01 answer and return its one agreed payload.
pub fn normalize_mode01(response: &str, pid: u8, data_len: usize) -> (r: Result<Vec<u8>, String>)
    requires
        data_len + 2 <= usize::MAX,
        !(mode01_outcome(response@, pid, data_len as int) is Overrun),
    ensures
        match mode01_outcome(response@, pid, data_len as int) {
            Mode01Line::Frames(frames) => {
                let payloads = all_payloads(frames);
                let answers = payloads[0].len() >= 2 && payloads[0][0] == 0x41 && payloads[0][1]
                    == pid;
                &&& answers && all_equal(payloads) ==> (r matches Ok(payload) && payload@
                    == payloads[0])
                &&& !answers ==> (r matches Err(message) && message@ == "01"@ + hex2(pid)
                    + " response not found"@)
                &&& answers && !all_equal(payloads) ==> (r matches Err(message) && message@
                    == conflict_text(frames, pid))
            },
            _ => (r matches Err(message) && message@ == mode01_error(response@, pid, data_len as int)),
        },
{
    match normalize_mode01_responses(response, pid, data_len) {
        Ok(responses) => responses.unambiguous_payload(pid),
        Err(error) => Err(error),
    }
}


/// How a responder is named in a message.
pub open spec fn responder_name(responder: Option<Seq<char>>) -> Seq<char> {
    match responder {
        Some(name) => name,
        None => "unknown"@,
    }
}

/// The responders of the responses, named and separated by `, `.
pub open spec fn responder_list(responses: Seq<ResponseView>) -> Seq<char>
    decreases responses.len(),
{
    if responses.len() == 0 {
        Seq::empty()
    } else if responses.len() == 1 {
        responder_name(responses[0].responder)
    } else {
        responder_list(responses.drop_last()) + seq![',', ' '] + responder_name(
            responses.last().responder,
        )
    }
}

/// The message for responders that disagree on the answer to `01 <pid>`.
pub open spec fn conflict_text(responses: Seq<ResponseView>, pid: u8) -> Seq<char> {
    "conflicting 01"@ + hex2(pid) + " responses (responders: "@ + responder_list(responses) + seq![')']
}

/// The message for responders that disagree begins with this text.
pub proof fn lemma_conflict_prefix(responses: Seq<ResponseView>, pid: u8)
    ensures
        occurs_at(conflict_text(responses, pid), "conflicting 01"@ + hex2(pid) + " responses"@, 0),
{
    reveal_strlit(" responses (responders: ");
    reveal_strlit(" responses");
    reveal_strlit(" (responders: ");
    let p = "conflicting 01"@ + hex2(pid) + " responses"@;
    let text = conflict_text(responses, pid);
    assert(" responses (responders: "@ =~= " responses"@ + " (responders: "@);
    assert(text.subrange(0, p.len() as int) =~= p);
}

impl DiagnosticResponses {
    fn conflict_message(&self, pid: u8) -> (message: String)
        ensures
            message@ == conflict_text(self@.responses, pid),
    {
        let ghost views = self@.responses;
        let mut names: Vec<char> = Vec::new();
        let mut k: usize = 0;
        while k < self.responses.len()
            invariant
                k <= self.responses@.len(),
                views == self@.responses,
                views.len() == self.responses@.len(),
                names@ == responder_list(views.take(k as int)),
            decreases self.responses@.len() - k,
        {
            let ghost before = names@;
            if k > 0 {
                names.push(',');
                names.push(' ');
            }
            let name = match &self.responses[k].responder {
                Some(identity) => crate::text::chars_of(identity.as_str()),
                None => crate::text::chars_of("unknown"),
            };
            assert(name@ == responder_name(views[k as int].responder));
            let ghost separated = names@;
            let mut c: usize = 0;
            while c < name.len()
                invariant
                    c <= name@.len(),
                    names@ == separated + name@.take(c as int),
                decreases name@.len() - c,
            {
                names.push(name[c]);
                assert(name@.take(c + 1) =~= name@.take(c as int).push(name@[c as int]));
                c += 1;
            }
            assert(name@.take(name@.len() as int) =~= name@);
            proof {
                let taken = views.take(k + 1);
                assert(taken.drop_last() =~= views.take(k as int));
                assert(taken.last() == views[k as int]);
                if k == 0 {
                    assert(before =~= Seq::<char>::empty());
                    assert(names@ =~= name@);
                } else {
                    assert(names@ =~= before + seq![',', ' '] + name@);
                }
            }
            k += 1;
        }
        assert(views.take(views.len() as int) =~= views);
        let mut prefix = with_hex2("conflicting 01", pid);
        let tail = crate::text::chars_of(" responses (responders: ");
        let ghost before = prefix@;
        let mut t: usize = 0;
        while t < tail.len()
            invariant
                t <= tail@.len(),
                prefix@ == before + tail@.take(t as int),
            decreases tail@.len() - t,
        {
            prefix.push(tail[t]);
            assert(tail@.take(t + 1) =~= tail@.take(t as int).push(tail@[t as int]));
            t += 1;
        }
        assert(tail@.take(tail@.len() as int) =~= tail@);
        let ghost listed = names@;
        names.push(')');
        let rest = string_from_chars(names.as_slice());
        let message = prefixed_message(prefix, rest.as_str());
        assert(message@ =~= conflict_text(views, pid));
        message
    }
}

// ---------------------------------------------------------------------------
// Mode 01 support pages.
// ---------------------------------------------------------------------------

/// One responder's answer to a Mode 01 support-page request.
#[derive(Clone, Debug, PartialEq, Eq)]
pub struct SupportDiscovery {
    pub request: [u8; 2],
    pub responder: Option<ResponderIdentity>,
    pub response: [u8; 6],
}

/// The model of a support-page answer.
pub struct SupportDiscoveryView {
    pub request: Seq<u8>,
    pub responder: Option<Seq<char>>,
    pub response: Seq<u8>,
}

impl View for SupportDiscovery {
    type V = SupportDiscoveryView;

    open spec fn view(&self) -> SupportDiscoveryView {
        SupportDiscoveryView {
            request: self.request@,
            responder: responder_text(self.responder),
            response: self.response@,
        }
    }
}

/// Answers are ordered by responder (unknown first), then by response bytes,
/// then by request (which the answers of one page share).
pub open spec fn discovery_key(d: SupportDiscoveryView) -> (Seq<int>, (Seq<int>, Seq<int>)) {
    (optional_text_key(d.responder), (byte_key(d.response), byte_key(d.request)))
}

pub open spec fn bytes_pair_le(p: (Seq<int>, Seq<int>), q: (Seq<int>, Seq<int>)) -> bool {
    pair_le(p, q, |x: Seq<int>, y: Seq<int>| ints_le(x, y), |x: Seq<int>, y: Seq<int>| ints_le(x, y))
}

proof fn lemma_discovery_key_injective(a: SupportDiscoveryView, b: SupportDiscoveryView)
    requires
        discovery_key(a) == discovery_key(b),
    ensures
        a == b,
{
    lemma_optional_text_key_injective(a.responder, b.responder);
    lemma_byte_key_injective(a.response, b.response);
    lemma_byte_key_injective(a.request, b.request);
}

impl Ordered for SupportDiscovery {
    open spec fn model_le(a: SupportDiscoveryView, b: SupportDiscoveryView) -> bool {
        pair_le(
            discovery_key(a),
            discovery_key(b),
            |x: Seq<int>, y: Seq<int>| ints_le(x, y),
            |p: (Seq<int>, Seq<int>), q: (Seq<int>, Seq<int>)| bytes_pair_le(p, q),
        )
    }

    proof fn lemma_model_le_total_ordering() {
        let ile = |x: Seq<int>, y: Seq<int>| ints_le(x, y);
        lemma_ints_le_total_ordering();
        lemma_pair_le_total_ordering(ile, ile);
        let inner = |p: (Seq<int>, Seq<int>), q: (Seq<int>, Seq<int>)| bytes_pair_le(p, q);
        let inner2 = |p: (Seq<int>, Seq<int>), q: (Seq<int>, Seq<int>)| pair_le(p, q, ile, ile);
        assert(inner =~= inner2);
        lemma_pair_le_total_ordering(ile, inner);
        let ple = |p: (Seq<int>, (Seq<int>, Seq<int>)), q: (Seq<int>, (Seq<int>, Seq<int>))| pair_le(p, q, ile, inner);
        let key = |d: SupportDiscoveryView| discovery_key(d);
        assert forall|a: SupportDiscoveryView, b: SupportDiscoveryView| #[trigger] key(a) == #[trigger] key(b)
            implies a == b by {
            lemma_discovery_key_injective(a, b);
        }
        lemma_mapped_total_ordering(key, ple);
        let le = |a: SupportDiscoveryView, b: SupportDiscoveryView| Self::model_le(a, b);
        let mapped = |a: SupportDiscoveryView, b: SupportDiscoveryView| ple(key(a), key(b));
        assert forall|a: SupportDiscoveryView, b: SupportDiscoveryView| #[trigger] le(a, b) == mapped(a, b) by {}
        assert(le =~= mapped);
    }

    fn le(&self, other: &Self) -> (r: bool) {
        let sa = optional_text_key_exec(match &self.responder {
            Some(identity) => Some(identity.as_str()),
            None => None,
        });
        let sb = optional_text_key_exec(match &other.responder {
            Some(identity) => Some(identity.as_str()),
            None => None,
        });
        let ra = byte_key_exec(&self.response);
        let rb = byte_key_exec(&other.response);
        let qa = byte_key_exec(&self.request);
        let qb = byte_key_exec(&other.request);
        let s_le = ints_le_exec(&sa, &sb);
        let s_ge = ints_le_exec(&sb, &sa);
        proof {
            let ka = optional_text_key(self@.responder);
            let kb = optional_text_key(other@.responder);
            if s_le && s_ge {
                lemma_ints_le_antisymmetric(ka, kb);
            }
            if ka == kb {
                lemma_ints_le_reflexive(ka);
            }
        }
        let r_le = ints_le_exec(&ra, &rb);
        let r_ge = ints_le_exec(&rb, &ra);
        proof {
            let ka = byte_key(self@.response);
            let kb = byte_key(other@.response);
            if r_le && r_ge {
                lemma_ints_le_antisymmetric(ka, kb);
            }
            if ka == kb {
                lemma_ints_le_reflexive(ka);
            }
        }
        (s_le && !s_ge) || (s_le && s_ge && ((r_le && !r_ge) || (r_le && r_ge && ints_le_exec(&qa, &qb))))
    }
}


proof fn lemma_scan_frames_len(
    bytes: Seq<u8>,
    pid: u8,
    expected_len: int,
    from: int,
    header: Option<Seq<char>>,
    upper_tokens: Seq<Seq<char>>,
    has_separators: bool,
)
    requires
        0 <= from,
        expected_len >= 2,
    ensures
        scan_frames(bytes, pid, expected_len, from, header, upper_tokens, has_separators) matches Mode01Line::Frames(frames)
            ==> forall|i: int| 0 <= i < frames.len() ==> (#[trigger] frames[i]).payload.len() == expected_len,
    decreases bytes.len() - from,
{
    let start = next_frame(bytes, pid, from);
    lemma_next_frame_bounds(bytes, pid, from);
    if start >= from && start + expected_len <= bytes.len() {
        lemma_scan_frames_len(bytes, pid, expected_len, start + expected_len, header, upper_tokens, has_separators);
        let end = start + expected_len;
        match scan_frames(bytes, pid, expected_len, end, header, upper_tokens, has_separators) {
            Mode01Line::Frames(rest) => {
                let prefixed = start > 0 && bytes[start - 1] == (expected_len % 256) as u8;
                let frame_start = if prefixed { start - 1 } else { start };
                match frame_responder(header, upper_tokens, has_separators, frame_start) {
                    Some(responder) => {
                        let all = seq![ResponseView { responder, payload: bytes.subrange(start, end) }] + rest;
                        assert forall|i: int| 0 <= i < all.len() implies (#[trigger] all[i]).payload.len() == expected_len by {
                            if i > 0 {
                                assert(all[i] == rest[i - 1]);
                            }
                        }
                    },
                    None => {},
                }
            },
            _ => {},
        }
    }
}

proof fn lemma_mode01_lines_len(lines: Seq<Seq<char>>, pid: u8, data_len: int)
    requires
        data_len >= 0,
    ensures
        mode01_lines(lines, pid, data_len) matches Mode01Line::Frames(frames) ==> forall|i: int|
            0 <= i < frames.len() ==> (#[trigger] frames[i]).payload.len() == data_len + 2,
    decreases lines.len(),
{
    if lines.len() > 0 {
        lemma_mode01_lines_len(lines.drop_first(), pid, data_len);
        let line = clean_line(lines[0]);
        let upper = ascii_upper(line);
        let tokens = ascii_tokens(line);
        let header = header_of(tokens);
        let start = if header is Some { 1int } else { 0int };
        let bytes = token_bytes(tokens.skip(start));
        lemma_scan_frames_len(bytes, pid, data_len + 2, 0, header, ascii_tokens(upper), tokens.len() > 1);
        match mode01_line(line, pid, data_len) {
            Mode01Line::Frames(frames) => match mode01_lines(lines.drop_first(), pid, data_len) {
                Mode01Line::Frames(rest) => {
                    let all = frames + rest;
                    assert forall|i: int| 0 <= i < all.len() implies (#[trigger] all[i]).payload.len() == data_len + 2 by {
                        if i >= frames.len() {
                            assert(all[i] == rest[i - frames.len()]);
                        } else {
                            assert(all[i] == frames[i]);
                        }
                    }
                },
                _ => {},
            },
            _ => {},
        }
    }
}

/// The big-endian value of four bytes.
pub open spec fn be_u32(b0: u8, b1: u8, b2: u8, b3: u8) -> u32 {
    ((b0 as int) * 0x1000000 + (b1 as int) * 0x10000 + (b2 as int) * 0x100 + b3 as int) as u32
}

/// The union of the support bitmaps of Mode 01 support-page answers.
pub open spec fn combined_bitmap(frames: Seq<ResponseView>) -> u32
    decreases frames.len(),
{
    if frames.len() == 0 {
        0
    } else {
        let p = frames.last().payload;
        combined_bitmap(frames.drop_last()) | be_u32(p[2], p[3], p[4], p[5])
    }
}

/// The support-page answers of responders, as observations of `01 <page>`.
pub open spec fn page_observations(frames: Seq<ResponseView>, page: u8) -> Seq<SupportDiscoveryView> {
    frames.map_values(
        |f: ResponseView| SupportDiscoveryView { request: seq![0x01u8, page], responder: f.responder, response: f.payload },
    )
}

fn be_u32_exec(b0: u8, b1: u8, b2: u8, b3: u8) -> (r: u32)
    ensures
        r == be_u32(b0, b1, b2, b3),
{
    (b0 as u32) * 0x1000000 + (b1 as u32) * 0x10000 + (b2 as u32) * 0x100 + b3 as u32
}

/// Normalize the answers to one Mode 01 support page: the union of every
/// responder's bitmap as one normalized page, and each responder's answer,
/// ordered by responder and response.
pub fn normalize_pid_support_page_with_evidence(response: &str, page: u8) -> (r: Result<
    ([u8; 6], Vec<SupportDiscovery>),
    String,
>)
    requires
        !(mode01_outcome(response@, page, 4) is Overrun),
    ensures
        match mode01_outcome(response@, page, 4) {
            Mode01Line::Frames(frames) => (r matches Ok((normalized, observations)) && ({
                let bitmap = combined_bitmap(frames);
                &&& normalized@ == seq![
                    0x41u8,
                    page,
                    (bitmap / 0x1000000) as u8,
                    (bitmap / 0x10000 % 0x100) as u8,
                    (bitmap / 0x100 % 0x100) as u8,
                    (bitmap % 0x100) as u8,
                ]
                &&& observations@.map_values(|d: SupportDiscovery| d@) == page_observations(frames, page).sort_by(
                    crate::order::model_leq::<SupportDiscovery>(),
                )
            })),
            _ => (r matches Err(message) && message@ == mode01_error(response@, page, 4)),
        },
{
    let matches = match normalize_mode01_responses(response, page, 4) {
        Ok(matches) => matches,
        Err(error) => {
            return Err(error);
        },
    };
    let ghost frames = matches@.responses;
    proof {
        lemma_mode01_lines_len(split_lines(response@), page, 4);
    }
    let mut bitmap: u32 = 0;
    let mut observations: Vec<SupportDiscovery> = Vec::new();
    let mut i: usize = 0;
    while i < matches.responses.len()
        invariant
            i <= matches.responses@.len(),
            frames == matches@.responses,
            frames == response_views(matches.responses@),
            forall|j: int| 0 <= j < frames.len() ==> (#[trigger] frames[j]).payload.len() == 6,
            bitmap == combined_bitmap(frames.take(i as int)),
            observations@.map_values(|d: SupportDiscovery| d@) == page_observations(frames.take(i as int), page),
        decreases matches.responses@.len() - i,
    {
        let value = &matches.responses[i];
        assert(frames[i as int] == value@);
        assert(value.payload@.len() == 6);
        let page_bits = be_u32_exec(value.payload[2], value.payload[3], value.payload[4], value.payload[5]);
        assert(frames.take(i + 1).drop_last() =~= frames.take(i as int));
        bitmap = bitmap | page_bits;
        let responder = match &value.responder {
            Some(identity) => Some(identity.duplicate()),
            None => None,
        };
        let response_bytes: [u8; 6] = [
            value.payload[0],
            value.payload[1],
            value.payload[2],
            value.payload[3],
            value.payload[4],
            value.payload[5],
        ];
        assert(response_bytes@ =~= value.payload@);
        let request: [u8; 2] = [0x01, page];
        assert(request@ =~= seq![0x01u8, page]);
        let ghost before = observations@.map_values(|d: SupportDiscovery| d@);
        let observation = SupportDiscovery { request, responder, response: response_bytes };
        observations.push(observation);
        assert(observations@.map_values(|d: SupportDiscovery| d@) =~= before.push(observation@));
        assert(page_observations(frames.take(i + 1), page) =~= page_observations(frames.take(i as int), page).push(observation@));
        i += 1;
    }
    assert(frames.take(frames.len() as int) =~= frames);
    let sorted = sort_by_model(observations);
    let normalized: [u8; 6] = [
        0x41,
        page,
        (bitmap / 0x1000000) as u8,
        (bitmap / 0x10000 % 0x100) as u8,
        (bitmap / 0x100 % 0x100) as u8,
        (bitmap % 0x100) as u8,
    ];
    assert(normalized@ =~= seq![
        0x41u8,
        page,
        (bitmap / 0x1000000) as u8,
        (bitmap / 0x10000 % 0x100) as u8,
        (bitmap / 0x100 % 0x100) as u8,
        (bitmap % 0x100) as u8,
    ]);
    Ok((normalized, sorted))
}

/// The normalized support page alone.
pub fn normalize_pid_support_page(response: &str, page: u8) -> (r: Result<[u8; 6], String>)
    requires
        !(mode01_outcome(response@, page, 4) is Overrun),
    ensures
        match mode01_outcome(response@, page, 4) {
            Mode01Line::Frames(frames) => (r matches Ok(normalized) && ({
                let bitmap = combined_bitmap(frames);
                normalized@ == seq![
                    0x41u8,
                    page,
                    (bitmap / 0x1000000) as u8,
                    (bitmap / 0x10000 % 0x100) as u8,
                    (bitmap / 0x100 % 0x100) as u8,
                    (bitmap % 0x100) as u8,
                ]
            })),
            _ => (r matches Err(message) && message@ == mode01_error(response@, page, 4)),
        },
{
    match normalize_pid_support_page_with_evidence(response, page) {
        Ok((normalized, _)) => Ok(normalized),
        Err(error) => Err(error),
    }
}

/// Bounded read-only evidence produced while the adapter establishes the
/// vehicle protocol: the answers to the fixed `01 00` support request.
#[derive(Clone, Debug, PartialEq, Eq)]
pub struct ProtocolNegotiation {
    observations: Vec<SupportDiscovery>,
}

impl ProtocolNegotiation {
    /// The negotiation evidence of the answer to `01 00`.
    pub fn from_support_answer(response: &str) -> (r: Result<Self, String>)
        requires
            !(mode01_outcome(response@, 0, 4) is Overrun),
        ensures
            match mode01_outcome(response@, 0, 4) {
                Mode01Line::Frames(frames) => (r matches Ok(negotiation)
                    && negotiation.observations_view() == page_observations(frames, 0).sort_by(
                    crate::order::model_leq::<SupportDiscovery>(),
                )),
                _ => (r matches Err(message) && message@ == mode01_error(response@, 0, 4)),
            },
    {
        match normalize_pid_support_page_with_evidence(response, 0) {
            Ok((_, observations)) => Ok(ProtocolNegotiation { observations }),
            Err(error) => Err(error),
        }
    }

    pub closed spec fn observations_view(&self) -> Seq<SupportDiscoveryView> {
        self.observations@.map_values(|d: SupportDiscovery| d@)
    }

    pub fn observations(&self) -> (r: &[SupportDiscovery])
        ensures
            r@.map_values(|d: SupportDiscovery| d@) == self.observations_view(),
    {
        self.observations.as_slice()
    }
}

/// The advertised support of a PID in support bitmaps, one per page.
pub open spec fn pid_status(pages: Seq<u32>, pid: u8) -> SignalSupportStatus {
    if pid == 0 {
        SignalSupportStatus::Unknown
    } else {
        let index = (pid - 1) / 32;
        let offset = (pid - 1) % 32 + 1;
        if index >= pages.len() {
            SignalSupportStatus::Unknown
        } else if pages[index] & (1u32 << ((32 - offset) as u32)) != 0 {
            SignalSupportStatus::Supported
        } else {
            SignalSupportStatus::Unsupported
        }
    }
}

/// Support bitmaps read from the vehicle, with the answers they came from.
#[derive(Clone, Debug, Default, PartialEq, Eq)]
pub struct PidSupport {
    pub pages: Vec<u32>,
    pub discovery: Vec<SupportDiscovery>,
}

impl PidSupport {
    pub fn status(&self, pid: u8) -> (r: SignalSupportStatus)
        ensures
            r == pid_status(self.pages@, pid),
    {
        if pid == 0 {
            return SignalSupportStatus::Unknown;
        }
        let index = ((pid - 1) / 32) as usize;
        let offset: u32 = ((pid - 1) % 32 + 1) as u32;
        if index >= self.pages.len() {
            return SignalSupportStatus::Unknown;
        }
        let bitmap = self.pages[index];
        if bitmap & (1u32 << (32 - offset)) != 0 {
            SignalSupportStatus::Supported
        } else {
            SignalSupportStatus::Unsupported
        }
    }

    pub fn supports_pid(&self, pid: u8) -> (r: bool)
        ensures
            r == (pid_status(self.pages@, pid) == SignalSupportStatus::Supported),
    {
        self.status(pid) == SignalSupportStatus::Supported
    }
}

/// Whether a support bitmap advertises a PID of its page (the page's own
/// continuation bit for a multiple of 32).
pub open spec fn bitmap_advertises(bitmap: u32, pid: u8) -> bool {
    let offset = pid & 0x1f;
    let shift: u32 = if offset == 0 {
        0
    } else {
        (32 - offset) as u32
    };
    bitmap & (1u32 << shift) != 0
}

pub fn bitmap_supports_pid(bitmap: u32, pid: u8) -> (r: bool)
    ensures
        r == bitmap_advertises(bitmap, pid),
{
    let offset = pid & 0x1f;
    assert(offset <= 0x1f) by (bit_vector)
        requires
            offset == pid & 0x1f,
    ;
    let shift: u32 = if offset == 0 {
        0
    } else {
        (32 - offset) as u32
    };
    bitmap & (1u32 << shift) != 0
}


/// The cleaned lines of an adapter answer, in upper case.
pub open spec fn upper_lines(response: Seq<char>) -> Seq<Seq<char>> {
    split_lines(ascii_upper(response)).map_values(|l: Seq<char>| clean_line(l))
}

/// Some line reports an adapter status that rejects the command.
pub open spec fn answer_rejected(lines: Seq<Seq<char>>) -> bool {
    exists|i: int| 0 <= i < lines.len() && #[trigger] is_status_line(lines[i])
}

/// Some line is, or starts with, the expected text.
pub open spec fn answer_expected(lines: Seq<Seq<char>>, expected: Seq<char>, exact: bool) -> bool {
    exists|i: int|
        0 <= i < lines.len() && if exact {
            #[trigger] lines[i] == expected
        } else {
            occurs_at(lines[i], expected, 0)
        }
}

/// Require an adapter answer to hold the expected line and no rejecting
/// status; otherwise the given error, followed by the quoted answer.
pub fn require_response(response: &str, expected: &str, exact: bool, error: &str) -> (r: Result<(), String>)
    ensures
        ({
            let lines = upper_lines(response@);
            &&& (!answer_rejected(lines) && answer_expected(lines, expected@, exact)) ==> r is Ok
            &&& !(!answer_rejected(lines) && answer_expected(lines, expected@, exact)) ==> (r matches Err(
                message,
            ) && message@ == error@ + ": "@ + debug_text(response@))
        }),
{
    let chars = crate::text::chars_of(response);
    let upper = to_upper(&chars);
    let upper_text = string_from_chars(upper.as_slice());
    let raw_lines = split_response_lines(upper_text.as_str());
    let ghost raw_views = raw_lines@.map_values(|l: Vec<char>| l@);
    let ghost lines = upper_lines(response@);
    assert(lines =~= raw_views.map_values(|l: Seq<char>| clean_line(l)));
    let expected_chars = crate::text::chars_of(expected);
    let mut rejected = false;
    let mut found = false;
    let mut i: usize = 0;
    while i < raw_lines.len()
        invariant
            i <= raw_lines@.len(),
            raw_views == raw_lines@.map_values(|l: Vec<char>| l@),
            lines == raw_views.map_values(|l: Seq<char>| clean_line(l)),
            expected_chars@ == expected@,
            rejected == exists|j: int| 0 <= j < i && #[trigger] is_status_line(lines[j]),
            found == exists|j: int|
                0 <= j < i && if exact {
                    #[trigger] lines[j] == expected@
                } else {
                    occurs_at(lines[j], expected@, 0)
                },
        decreases raw_lines@.len() - i,
    {
        let line = clean(&raw_lines[i]);
        assert(lines[i as int] == line@);
        if status_line(&line) {
            rejected = true;
        }
        let matched = if exact {
            crate::text::chars_eq(line.as_slice(), expected_chars.as_slice())
        } else {
            let text = string_from_chars(line.as_slice());
            starts_with_str(text.as_str(), expected)
        };
        if matched {
            found = true;
        }
        i += 1;
    }
    if !rejected && found {
        return Ok(());
    }
    let quoted = debug_quoted(response);
    let head = concat(error, ": ");
    let message = concat(head.as_str(), quoted.as_str());
    Err(message)
}

/// A valid ELM header: exactly three hexadecimal characters.
pub open spec fn is_elm_header(value: Seq<char>) -> bool {
    value.len() == 3 && all_hex(value)
}

fn validate_header_value(value: &str, label: &str) -> (r: Result<(), String>)
    ensures
        is_elm_header(value@) ==> r is Ok,
        !is_elm_header(value@) ==> (r matches Err(message) && message@ == label@
            + " must be exactly three hexadecimal characters"@),
{
    let chars = crate::text::chars_of(value);
    if chars.len() != 3 || !all_hex_exec(&chars) {
        return Err(concat(label, " must be exactly three hexadecimal characters"));
    }
    Ok(())
}

/// Why a request target cannot carry a targeted read, or `None`.
pub open spec fn target_rejection(target: RequestTargetView) -> Option<Seq<char>> {
    if target.context.spec_protocol() != Protocol::Obd2 || target.context.spec_addressing()
        != AddressingContext::Physical {
        Some("targeted reads require physical OBD-II addressing"@)
    } else if target.address is None {
        Some("targeted reads require a concrete request address"@)
    } else if target.address.unwrap().namespace != "elm-header"@ {
        Some("targeted reads require an elm-header request address"@)
    } else if !is_elm_header(target.address.unwrap().value) {
        Some("request address must be exactly three hexadecimal characters"@)
    } else {
        None
    }
}

pub fn validate_request_target(target: &RequestTarget) -> (r: Result<(), String>)
    ensures
        match target_rejection(target@) {
            None => r is Ok,
            Some(reason) => (r matches Err(message) && message@ == reason),
        },
{
    let context = target.context();
    if *context.protocol() != Protocol::Obd2 || *context.addressing() != AddressingContext::Physical {
        return Err(owned("targeted reads require physical OBD-II addressing"));
    }
    let address = match target.address() {
        Some(address) => address,
        None => {
            return Err(owned("targeted reads require a concrete request address"));
        },
    };
    if !crate::text::str_eq(address.namespace(), "elm-header") {
        return Err(owned("targeted reads require an elm-header request address"));
    }
    proof {
        reveal_strlit("request address");
        reveal_strlit(" must be exactly three hexadecimal characters");
        reveal_strlit("request address must be exactly three hexadecimal characters");
        assert("request address"@ + " must be exactly three hexadecimal characters"@
            =~= "request address must be exactly three hexadecimal characters"@);
    }
    validate_header_value(address.value(), "request address")
}

pub fn validate_elm_header(identity: &ResponderIdentity, label: &str) -> (r: Result<(), String>)
    ensures
        is_elm_header(identity@) ==> r is Ok,
        !is_elm_header(identity@) ==> (r matches Err(message) && message@ == label@
            + " must be exactly three hexadecimal characters"@),
{
    validate_header_value(identity.as_str(), label)
}

fn upper_identity(identity: &ResponderIdentity) -> (r: ResponderIdentity)
    ensures
        r@ == ascii_upper(identity@),
{
    let chars = crate::text::chars_of(identity.as_str());
    let upper = to_upper(&chars);
    ResponderIdentity::ElmHeader(string_from_chars(upper.as_slice()))
}

/// The outcome of building a targeted request: the reason it is refused, or
/// `None`.
pub open spec fn targeted_rejection(target: RequestTargetView, expected: Seq<char>) -> Option<Seq<char>> {
    if target_rejection(target) is Some {
        target_rejection(target)
    } else if !is_elm_header(expected) {
        Some("expected responder must be exactly three hexadecimal characters"@)
    } else {
        None
    }
}

fn validate_targeted(target: &RequestTarget, expected: &ResponderIdentity) -> (r: Result<(), String>)
    ensures
        match targeted_rejection(target@, expected@) {
            None => r is Ok,
            Some(reason) => (r matches Err(message) && message@ == reason),
        },
{
    match validate_request_target(target) {
        Ok(()) => {},
        Err(error) => {
            return Err(error);
        },
    }
    proof {
        reveal_strlit("expected responder");
        reveal_strlit(" must be exactly three hexadecimal characters");
        reveal_strlit("expected responder must be exactly three hexadecimal characters");
        assert("expected responder"@ + " must be exactly three hexadecimal characters"@
            =~= "expected responder must be exactly three hexadecimal characters"@);
    }
    validate_elm_header(expected, "expected responder")
}

/// A read-only request with an explicitly targeted physical OBD-II address.
/// The request remains the closed catalog vocabulary; no arbitrary payload
/// can be injected through this type.
#[derive(Clone, Debug, PartialEq, Eq)]
pub struct TargetedReadRequest {
    request: crate::signals::ReadRequest,
    target: RequestTarget,
    expected_responder: ResponderIdentity,
}

/// The model of a targeted read.
pub struct TargetedReadView {
    pub request: crate::signals::ReadRequest,
    pub target: RequestTargetView,
    pub expected_responder: Seq<char>,
}

impl View for TargetedReadRequest {
    type V = TargetedReadView;

    closed spec fn view(&self) -> TargetedReadView {
        TargetedReadView {
            request: self.request,
            target: self.target@,
            expected_responder: self.expected_responder@,
        }
    }
}

impl TargetedReadRequest {
    pub fn new(
        request: crate::signals::ReadRequest,
        target: RequestTarget,
        expected_responder: ResponderIdentity,
    ) -> (r: Result<Self, String>)
        ensures
            match targeted_rejection(target@, expected_responder@) {
                Some(reason) => (r matches Err(message) && message@ == reason),
                None => (r matches Ok(targeted) && targeted@ == (TargetedReadView {
                    request,
                    target: target@,
                    expected_responder: ascii_upper(expected_responder@),
                })),
            },
    {
        match validate_targeted(&target, &expected_responder) {
            Ok(()) => {},
            Err(error) => {
                return Err(error);
            },
        }
        let expected = upper_identity(&expected_responder);
        Ok(Self { request, target, expected_responder: expected })
    }

    pub fn request(&self) -> (r: crate::signals::ReadRequest)
        ensures
            r == self@.request,
    {
        self.request
    }

    pub fn target(&self) -> (r: &RequestTarget)
        ensures
            r@ == self@.target,
    {
        &self.target
    }

    pub fn expected_responder(&self) -> (r: &ResponderIdentity)
        ensures
            r@ == self@.expected_responder,
    {
        &self.expected_responder
    }
}

/// The closed EA189 DPF probe, bound to physical routing evidence. The
/// profile fixes the data identifier; callers provide only the target.
#[derive(Clone, Debug, PartialEq, Eq)]
pub struct TargetedDpfProbeRequest {
    probe: crate::ea189::Ea189DpfProbe,
    target: RequestTarget,
    expected_responder: ResponderIdentity,
}

/// The model of a targeted probe.
pub struct TargetedProbeView {
    pub probe: crate::ea189::Ea189DpfProbe,
    pub target: RequestTargetView,
    pub expected_responder: Seq<char>,
}

impl View for TargetedDpfProbeRequest {
    type V = TargetedProbeView;

    closed spec fn view(&self) -> TargetedProbeView {
        TargetedProbeView {
            probe: self.probe,
            target: self.target@,
            expected_responder: self.expected_responder@,
        }
    }
}

/// Why a mapping cannot route the probe, or `None`.
pub open spec fn probe_mapping_rejection(mapping: crate::topology::EcuTargetMappingView) -> Option<Seq<char>> {
    if mapping.role.role != EcuRole::Engine {
        Some("EA189 DPF probes require validated engine target evidence"@)
    } else if mapping.expected_responder.context != mapping.target.target.context {
        Some("EA189 DPF probe target and responder contexts differ"@)
    } else if mapping.expected_responder.value is None {
        Some("EA189 DPF probes require an expected responder"@)
    } else {
        targeted_rejection(mapping.target.target, mapping.expected_responder.value.unwrap())
    }
}

impl TargetedDpfProbeRequest {
    /// Construct the closed probe from validated engine target evidence.
    pub fn from_mapping(probe: crate::ea189::Ea189DpfProbe, mapping: &EcuTargetMapping) -> (r: Result<Self, String>)
        ensures
            match probe_mapping_rejection(mapping@) {
                Some(reason) => (r matches Err(message) && message@ == reason),
                None => (r matches Ok(request) && request@ == (TargetedProbeView {
                    probe,
                    target: mapping@.target.target,
                    expected_responder: ascii_upper(mapping@.expected_responder.value.unwrap()),
                })),
            },
    {
        if *mapping.role().role() != EcuRole::Engine {
            return Err(owned("EA189 DPF probes require validated engine target evidence"));
        }
        let target = mapping.target().target().duplicate();
        if *mapping.expected_responder().context() != *target.context() {
            return Err(owned("EA189 DPF probe target and responder contexts differ"));
        }
        let expected = match mapping.expected_responder().value() {
            Some(value) => ResponderIdentity::ElmHeader(owned(value)),
            None => {
                return Err(owned("EA189 DPF probes require an expected responder"));
            },
        };
        match validate_targeted(&target, &expected) {
            Ok(()) => {},
            Err(error) => {
                return Err(error);
            },
        }
        let expected_responder = upper_identity(&expected);
        Ok(Self { probe, target, expected_responder })
    }

    pub fn did(&self) -> (r: u16)
        ensures
            r == crate::ea189::probe_did(self@.probe),
    {
        self.probe.id()
    }

    pub fn request_bytes(&self) -> (r: [u8; 3])
        ensures
            r@ == crate::ea189::probe_request(self@.probe),
    {
        self.probe.request_bytes()
    }

    pub fn target(&self) -> (r: &RequestTarget)
        ensures
            r@ == self@.target,
    {
        &self.target
    }

    pub fn expected_responder(&self) -> (r: &ResponderIdentity)
        ensures
            r@ == self@.expected_responder,
    {
        &self.expected_responder
    }
}


/// Two different answers from the target responder leave nothing to
/// select: no payload is ever chosen because it looks more plausible.
pub proof fn law_conflicting_answers_are_never_selected(
    responses: Seq<ResponseView>,
    target: Seq<char>,
    i: int,
    j: int,
)
    requires
        0 <= i < responses.len(),
        0 <= j < responses.len(),
        responses[i].responder == Some(target),
        responses[j].responder == Some(target),
        responses[i].payload != responses[j].payload,
    ensures
        payloads_from(responses, target).len() > 0,
        !all_equal(payloads_from(responses, target)),
{
    let pred = |r: ResponseView| r.responder == Some(target);
    let from_target = responses.filter(pred);
    responses.lemma_filter_contains(pred, i);
    responses.lemma_filter_contains(pred, j);
    let a = choose|a: int| 0 <= a < from_target.len() && from_target[a] == responses[i];
    let b = choose|b: int| 0 <= b < from_target.len() && from_target[b] == responses[j];
    let payloads = payloads_from(responses, target);
    assert(payloads[a] == responses[i].payload);
    assert(payloads[b] == responses[j].payload);
    if all_equal(payloads) {
        assert(payloads[a] == payloads[0]);
        assert(payloads[b] == payloads[0]);
    }
}

/// A payload selected for a responder is the payload of every answer that
/// responder gave.
pub proof fn law_selected_payload_is_every_answer(responses: Seq<ResponseView>, target: Seq<char>, i: int)
    requires
        payloads_from(responses, target).len() > 0,
        all_equal(payloads_from(responses, target)),
        0 <= i < responses.len(),
        responses[i].responder == Some(target),
    ensures
        responses[i].payload == payloads_from(responses, target)[0],
{
    let pred = |r: ResponseView| r.responder == Some(target);
    let from_target = responses.filter(pred);
    responses.lemma_filter_contains(pred, i);
    let a = choose|a: int| 0 <= a < from_target.len() && from_target[a] == responses[i];
    let payloads = payloads_from(responses, target);
    assert(payloads[a] == responses[i].payload);
    assert(payloads[a] == payloads[0]);
}

/// What one answer of a read records: every responder's payload, the one
/// responder all answers came from if there is one, and why no payload was
/// selected, if none was.
pub struct ResponseObservation {
    pub responses: Vec<crate::capture_events::ResponderEvidence>,
    pub selected_responder: Option<String>,
    pub selection_error: Option<String>,
}

pub struct ResponseObservationView {
    pub responses: Seq<crate::capture_events::ResponderEvidenceView>,
    pub selected_responder: Option<Seq<char>>,
    pub selection_error: Option<Seq<char>>,
}

pub open spec fn opt_view(text: Option<String>) -> Option<Seq<char>> {
    match text {
        Some(t) => Some(t@),
        None => None,
    }
}

pub open spec fn observation_view(o: ResponseObservation) -> ResponseObservationView {
    ResponseObservationView {
        responses: o.responses@.map_values(|e: crate::capture_events::ResponderEvidence| e@),
        selected_responder: opt_view(o.selected_responder),
        selection_error: opt_view(o.selection_error),
    }
}

pub open spec fn observations_view(os: Seq<ResponseObservation>) -> Seq<ResponseObservationView> {
    os.map_values(|o: ResponseObservation| observation_view(o))
}

/// The responder every answer came from, when the first names one and all
/// the others name the same.
pub open spec fn sole_responder(responses: Seq<ResponseView>) -> Option<Seq<char>> {
    if responses.len() > 0 && responses[0].responder is Some && (forall|i: int|
        0 <= i < responses.len() ==> (#[trigger] responses[i]).responder == responses[0].responder) {
        responses[0].responder
    } else {
        None
    }
}

/// The observation of an answer.
pub open spec fn observation_of(r: ResponsesView, selection_error: Option<Seq<char>>) -> ResponseObservationView {
    ResponseObservationView {
        responses: r.responses.map_values(
            |v: ResponseView| crate::capture_events::ResponderEvidenceView { responder: v.responder, payload: v.payload },
        ),
        selected_responder: sole_responder(r.responses),
        selection_error,
    }
}

impl DiagnosticResponses {
    /// What this answer records, with why no payload was selected.
    pub fn observation(&self, selection_error: Option<String>) -> (r: ResponseObservation)
        ensures
            observation_view(r) == observation_of(self@, opt_view(selection_error)),
    {
        let evidence = self.capture_evidence();
        let responses = &self.responses;
        let ghost rv = self@.responses;
        let mut selected: Option<String> = None;
        if responses.len() > 0 {
            match &responses[0].responder {
                Some(first) => {
                    let mut all_same = true;
                    let mut i: usize = 0;
                    while i < responses.len()
                        invariant
                            i <= responses@.len(),
                            response_views(responses@) == rv,
                            rv.len() == responses@.len(),
                            responses@.len() > 0,
                            rv[0].responder == Some(first@),
                            all_same <==> (forall|j: int| 0 <= j < i ==> (#[trigger] rv[j]).responder == rv[0].responder),
                        decreases responses@.len() - i,
                    {
                        assert(rv[i as int] == responses@[i as int]@);
                        let same = match &responses[i].responder {
                            Some(other) => crate::text::str_eq(other.as_str(), first.as_str()),
                            None => false,
                        };
                        if !same {
                            all_same = false;
                        }
                        i += 1;
                    }
                    if all_same {
                        selected = Some(owned(first.as_str()));
                    }
                },
                None => {},
            }
        }
        let r = ResponseObservation { responses: evidence, selected_responder: selected, selection_error };
        proof {
            assert(observation_view(r).responses =~= observation_of(self@, opt_view(selection_error)).responses);
        }
        r
    }
}


/// Whether bit `bit` (0 the least significant) of a word is set.
pub open spec fn bit_is_set(word: u32, bit: u32) -> bool {
    (word >> bit) & 1u32 == 1u32
}

/// A PID of a stored page is supported exactly when the page's bitmap sets
/// the PID's bit: PID `p` is bit `31 - (p - 1) % 32` of page `(p - 1) / 32`.
/// Page and bit come from the PID alone.
pub proof fn law_pid_status_reads_its_own_page_bit(pages: Seq<u32>, pid: u8)
    requires
        0 < pid,
        (pid - 1) / 32 < pages.len(),
    ensures
        pid_status(pages, pid) != SignalSupportStatus::Unknown,
        (pid_status(pages, pid) == SignalSupportStatus::Supported) <==> bit_is_set(
            pages[(pid - 1) / 32],
            (31 - (pid - 1) % 32) as u32,
        ),
{
    let word = pages[(pid - 1) / 32];
    let shift: u32 = (31 - (pid - 1) % 32) as u32;
    assert(shift == (32 - ((pid - 1) % 32 + 1)) as u32);
    assert(shift < 32);
    assert((word & (1u32 << shift) != 0) <==> ((word >> shift) & 1u32 == 1u32)) by (bit_vector)
        requires
            shift < 32,
    ;
}

/// A PID's status depends only on its own page: bitmaps that agree on that
/// page give it the same status, whatever the other pages hold.
pub proof fn law_pid_status_depends_only_on_its_page(pages: Seq<u32>, other: Seq<u32>, pid: u8)
    requires
        0 < pid,
        (pid - 1) / 32 < pages.len(),
        (pid - 1) / 32 < other.len(),
        pages[(pid - 1) / 32] == other[(pid - 1) / 32],
    ensures
        pid_status(pages, pid) == pid_status(other, pid),
{
    law_pid_status_reads_its_own_page_bit(pages, pid);
    law_pid_status_reads_its_own_page_bit(other, pid);
}

} // verus!
