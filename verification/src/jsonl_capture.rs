//! A capture read back from its JSONL text: one header line, then one event
//! record per line, numbered from zero and ended by at most one
//! `session_stopped` record.

use vstd::prelude::*;

use crate::capture::{all_digits, all_digits_exec, decimal_value, parse_decimal};
use crate::capture_events::{
    CaptureEvent, CaptureValue, ReadTiming, SubscriptionFilterOutcome,
};
use crate::json::{
    fields_view, json_error_text, json_record, json_view, lemma_fields_view, lemma_fields_view_push,
    number_end, number_exec, read_record, width_sum_fits, Json, JsonView,
};
use crate::text::{
    char_code, chars_of, concat, contains_char, debug_quoted, debug_text, decimal, decimal_text, is_blank,
    is_blank_spec, owned, str_eq, string_from_chars,
};

verus! {

/// Whether the capture ended with its `session_stopped` record.
#[derive(Clone, Copy, Debug, PartialEq, Eq, Structural)]
pub enum CaptureStatus {
    Complete,
    Partial,
}

/// The events of a capture, in recorded order, and whether it is complete.
#[derive(Debug, PartialEq, Eq)]
pub struct ParsedCapture {
    pub events: Vec<CaptureEvent>,
    pub status: CaptureStatus,
}

// ---------------------------------------------------------------------------
// The model of a capture event.
// ---------------------------------------------------------------------------

pub enum ValueView {
    Number(Seq<char>),
    Boolean(bool),
    Enum(Seq<char>),
    Text(Seq<char>),
    Unavailable(Seq<char>),
}

pub open spec fn value_view(value: CaptureValue) -> ValueView {
    match value {
        CaptureValue::Number { numeral } => ValueView::Number(numeral@),
        CaptureValue::Boolean(b) => ValueView::Boolean(b),
        CaptureValue::Enum(e) => ValueView::Enum(e@),
        CaptureValue::Text(t) => ValueView::Text(t@),
        CaptureValue::Unavailable { reason } => ValueView::Unavailable(reason@),
    }
}

pub open spec fn opt_text(text: Option<String>) -> Option<Seq<char>> {
    match text {
        Some(t) => Some(t@),
        None => None,
    }
}

pub open spec fn opt_bytes(bytes: Option<Vec<u8>>) -> Option<Seq<u8>> {
    match bytes {
        Some(b) => Some(b@),
        None => None,
    }
}

/// The model of the events a capture file records.
pub enum EventView {
    CaptureStarted { wallclock_ms: Option<u64>, profile: Option<Seq<char>> },
    SessionInitialized,
    SubscriptionConfigured { semantic: Seq<char>, requested_interval_us: u64, filter: SubscriptionFilterOutcome },
    SupportDiscovery { request_payload: Seq<u8>, responder: Option<Seq<char>>, response_payload: Seq<u8> },
    ReadSucceeded {
        semantic: Seq<char>,
        requested_interval_us: u64,
        due_us: u64,
        started_us: u64,
        finished_us: u64,
        request_payload: Seq<u8>,
        response_payload: Seq<u8>,
        value: ValueView,
        unit: Seq<char>,
        source: Seq<char>,
        profile: Seq<char>,
        decoder: Seq<char>,
        provenance: Seq<char>,
    },
    ReadFailed {
        semantic: Seq<char>,
        requested_interval_us: u64,
        timing: Option<ReadTiming>,
        request_payload: Option<Seq<u8>>,
        error: Seq<char>,
    },
    SlotsSkipped { semantic: Seq<char>, count: u64, first_due_us: u64, last_due_us: u64 },
    SessionError { error: Seq<char> },
    ShutdownRequested,
    SessionStopped { offset_us: u64 },
    /// An event this file format does not record.
    Other,
}

pub open spec fn event_view(event: CaptureEvent) -> EventView {
    match event {
        CaptureEvent::CaptureStarted { wallclock_ms, profile } => EventView::CaptureStarted {
            wallclock_ms,
            profile: opt_text(profile),
        },
        CaptureEvent::SessionInitialized => EventView::SessionInitialized,
        CaptureEvent::SubscriptionConfigured { semantic, requested_interval_us, filter } =>
            EventView::SubscriptionConfigured { semantic: semantic@, requested_interval_us, filter },
        CaptureEvent::SupportDiscovery { request_payload, responder, response_payload } =>
            EventView::SupportDiscovery {
            request_payload: request_payload@,
            responder: opt_text(responder),
            response_payload: response_payload@,
        },
        CaptureEvent::ReadSucceeded {
            semantic,
            requested_interval_us,
            due_us,
            started_us,
            finished_us,
            request_payload,
            response_payload,
            value,
            unit,
            source,
            profile,
            decoder,
            provenance,
        } => EventView::ReadSucceeded {
            semantic: semantic@,
            requested_interval_us,
            due_us,
            started_us,
            finished_us,
            request_payload: request_payload@,
            response_payload: response_payload@,
            value: value_view(value),
            unit: unit@,
            source: source@,
            profile: profile@,
            decoder: decoder@,
            provenance: provenance@,
        },
        CaptureEvent::ReadFailed { semantic, requested_interval_us, timing, request_payload, error } =>
            EventView::ReadFailed {
            semantic: semantic@,
            requested_interval_us,
            timing,
            request_payload: opt_bytes(request_payload),
            error: error@,
        },
        CaptureEvent::SlotsSkipped { semantic, count, first_due_us, last_due_us } => EventView::SlotsSkipped {
            semantic: semantic@,
            count,
            first_due_us,
            last_due_us,
        },
        CaptureEvent::SessionError { error } => EventView::SessionError { error: error@ },
        CaptureEvent::ShutdownRequested => EventView::ShutdownRequested,
        CaptureEvent::SessionStopped { offset_us } => EventView::SessionStopped { offset_us },
        _ => EventView::Other,
    }
}

// ---------------------------------------------------------------------------
// Reading the fields of a record.
// ---------------------------------------------------------------------------

pub type Fields = Seq<(Seq<char>, JsonView)>;

/// The message of a failure on a line.
pub open spec fn on_line(line: nat, text: Seq<char>) -> Seq<char> {
    "line "@ + decimal(line) + ": "@ + text
}

/// The value of the first field of the name at `k` or after.
pub open spec fn field_from(fields: Fields, name: Seq<char>, k: int) -> Option<JsonView>
    decreases fields.len() - k,
{
    if k < 0 || k >= fields.len() {
        None
    } else if fields[k].0 == name {
        Some(fields[k].1)
    } else {
        field_from(fields, name, k + 1)
    }
}

/// The value of the first field of the name.
pub open spec fn field(fields: Fields, name: Seq<char>) -> Option<JsonView> {
    field_from(fields, name, 0)
}

pub open spec fn text_field(fields: Fields, name: Seq<char>, line: nat) -> Result<Seq<char>, Seq<char>> {
    match field(fields, name) {
        Some(JsonView::Text(t)) => Ok(t),
        _ => Err(on_line(line, "field "@ + name + " must be a string"@)),
    }
}

pub open spec fn optional_text_field(fields: Fields, name: Seq<char>, line: nat) -> Result<Option<Seq<char>>, Seq<char>> {
    match field(fields, name) {
        Some(JsonView::Text(t)) => Ok(Some(t)),
        Some(JsonView::Null) => Ok(None),
        _ => Err(on_line(line, "field "@ + name + " must be a string or null"@)),
    }
}

/// A numeral of digits only: no fraction, exponent or sign.
pub open spec fn plain_numeral(numeral: Seq<char>) -> bool {
    !numeral.contains('.') && !numeral.contains('e') && !numeral.contains('E') && !numeral.contains('-')
}

pub open spec fn integer_field(fields: Fields, name: Seq<char>, line: nat) -> Result<u64, Seq<char>> {
    match field(fields, name) {
        Some(JsonView::Number(n)) => if !plain_numeral(n) {
            Err(on_line(line, "field "@ + name + " must be an integer"@))
        } else if !all_digits(n) || n.len() == 0 || decimal_value(n) > u64::MAX {
            Err(on_line(line, "field "@ + name + " is out of range"@))
        } else {
            Ok(decimal_value(n) as u64)
        },
        _ => Err(on_line(line, "field "@ + name + " must be an integer"@)),
    }
}

pub open spec fn optional_integer_field(fields: Fields, name: Seq<char>, line: nat) -> Result<Option<u64>, Seq<char>> {
    match field(fields, name) {
        Some(JsonView::Null) => Ok(None),
        Some(JsonView::Number(_)) => match integer_field(fields, name, line) {
            Ok(v) => Ok(Some(v)),
            Err(e) => Err(e),
        },
        _ => Err(on_line(line, "field "@ + name + " must be an integer or null"@)),
    }
}

/// The record has exactly the named fields.
pub open spec fn exact_fields(fields: Fields, names: Seq<Seq<char>>) -> bool {
    fields.len() == names.len() && forall|i: int| 0 <= i < names.len() ==> field(fields, #[trigger] names[i]) is Some
}

pub open spec fn fields_error(line: nat) -> Seq<char> {
    on_line(line, "malformed or unsupported capture fields"@)
}

/// Why a record does not carry this format's schema and version.
pub open spec fn schema_error(fields: Fields, line: nat) -> Option<Seq<char>> {
    match text_field(fields, "schema"@, line) {
        Err(e) => Some(e),
        Ok(schema) => if schema != "OBDENTIC-CAPTURE"@ {
            Some(on_line(line, "unsupported JSONL capture schema"@))
        } else {
            match integer_field(fields, "version"@, line) {
                Err(e) => Some(e),
                Ok(version) => if version != 1 {
                    Some(on_line(line, "unsupported JSONL capture version"@))
                } else {
                    None
                },
            }
        },
    }
}

/// The pieces of a text between single separators, as `str::split` gives:
/// one more piece than there are separators.
pub open spec fn pieces_split(text: Seq<char>, sep: char) -> Seq<Seq<char>>
    decreases text.len(),
{
    if text.len() == 0 {
        seq![Seq::empty()]
    } else {
        let rest = pieces_split(text.drop_last(), sep);
        if text.last() == sep {
            rest.push(Seq::empty())
        } else {
            rest.update(rest.len() - 1, rest.last().push(text.last()))
        }
    }
}

pub open spec fn is_upper_hex(c: char) -> bool {
    ('0' <= c && c <= '9') || ('A' <= c && c <= 'F')
}

pub open spec fn is_any_hex(c: char) -> bool {
    is_upper_hex(c) || ('a' <= c && c <= 'f')
}

pub open spec fn nibble(c: char) -> int {
    if '0' <= c && c <= '9' {
        c as int - '0' as int
    } else if 'A' <= c && c <= 'F' {
        c as int - 'A' as int + 10
    } else {
        c as int - 'a' as int + 10
    }
}

/// The bytes of the pieces from `k` on, or why one is not a byte.
pub open spec fn hex_pieces(pieces: Seq<Seq<char>>, line: nat) -> Result<Seq<u8>, Seq<char>>
    decreases pieces.len(),
{
    if pieces.len() == 0 {
        Ok(Seq::empty())
    } else {
        match hex_pieces(pieces.drop_last(), line) {
            Err(e) => Err(e),
            Ok(bytes) => {
                let piece = pieces.last();
                if piece.len() != 2 || !is_any_hex(piece[0]) || !is_any_hex(piece[1]) {
                    Err(on_line(line, "invalid uppercase-space-separated hex"@))
                } else if !is_upper_hex(piece[0]) || !is_upper_hex(piece[1]) {
                    Err(on_line(line, "hex payload must use uppercase digits"@))
                } else {
                    Ok(bytes.push((nibble(piece[0]) * 16 + nibble(piece[1])) as u8))
                }
            },
        }
    }
}

/// The bytes of an uppercase, space-separated hex text.
pub open spec fn hex_bytes(text: Seq<char>, line: nat) -> Result<Seq<u8>, Seq<char>> {
    if text.len() == 0 {
        Ok(Seq::empty())
    } else {
        hex_pieces(pieces_split(text, ' '), line)
    }
}

pub open spec fn hex_field(fields: Fields, name: Seq<char>, line: nat) -> Result<Seq<u8>, Seq<char>> {
    match text_field(fields, name, line) {
        Err(e) => Err(e),
        Ok(text) => hex_bytes(text, line),
    }
}

/// The value object of a successful read.
pub open spec fn value_of(value: JsonView, line: nat) -> Result<ValueView, Seq<char>> {
    match value {
        JsonView::Object(fields) => match text_field(fields, "type"@, line) {
            Err(e) => Err(e),
            Ok(kind) => if kind == "number"@ || kind == "boolean"@ || kind == "enum"@ || kind == "text"@ {
                if !exact_fields(fields, seq!["type"@, "value"@]) {
                    Err(fields_error(line))
                } else if kind == "number"@ {
                    match field(fields, "value"@) {
                        Some(JsonView::Number(n)) => Ok(ValueView::Number(n)),
                        _ => Err(on_line(line, "number value must be numeric"@)),
                    }
                } else if kind == "boolean"@ {
                    match field(fields, "value"@) {
                        Some(JsonView::Bool(b)) => Ok(ValueView::Boolean(b)),
                        _ => Err(on_line(line, "boolean value must be true or false"@)),
                    }
                } else {
                    match text_field(fields, "value"@, line) {
                        Err(e) => Err(e),
                        Ok(t) => Ok(if kind == "enum"@ { ValueView::Enum(t) } else { ValueView::Text(t) }),
                    }
                }
            } else if kind == "unavailable"@ {
                if !exact_fields(fields, seq!["type"@, "reason"@]) {
                    Err(fields_error(line))
                } else {
                    match text_field(fields, "reason"@, line) {
                        Err(e) => Err(e),
                        Ok(t) => Ok(ValueView::Unavailable(t)),
                    }
                }
            } else {
                Err(on_line(line, "unknown capture value type "@ + debug_text(kind)))
            },
        },
        _ => Err(on_line(line, "capture value must be an object"@)),
    }
}

pub open spec fn base_fields() -> Seq<Seq<char>> {
    seq!["schema"@, "version"@, "type"@, "sequence"@]
}

pub open spec fn filter_of(fields: Fields, line: nat) -> Result<SubscriptionFilterOutcome, Seq<char>> {
    match text_field(fields, "filter_outcome"@, line) {
        Err(e) => Err(e),
        Ok(name) => if name == "scheduled"@ {
            Ok(SubscriptionFilterOutcome::Scheduled)
        } else if name == "unsupported"@ {
            Ok(SubscriptionFilterOutcome::Unsupported)
        } else if name == "unknown"@ {
            Ok(SubscriptionFilterOutcome::Unknown)
        } else {
            Err(on_line(line, "unknown subscription filter outcome "@ + debug_text(name)))
        },
    }
}

pub open spec fn started_event(fields: Fields, line: nat) -> Result<EventView, Seq<char>> {
    if !exact_fields(fields, base_fields() + seq!["wallclock_ms"@, "profile"@]) {
        Err(fields_error(line))
    } else {
        match optional_integer_field(fields, "wallclock_ms"@, line) {
            Err(e) => Err(e),
            Ok(wallclock_ms) => match optional_text_field(fields, "profile"@, line) {
                Err(e) => Err(e),
                Ok(profile) => Ok(EventView::CaptureStarted { wallclock_ms, profile }),
            },
        }
    }
}

pub open spec fn subscription_event(fields: Fields, line: nat) -> Result<EventView, Seq<char>> {
    if !exact_fields(fields, base_fields() + seq!["semantic"@, "requested_interval_us"@, "filter_outcome"@]) {
        Err(fields_error(line))
    } else {
        match text_field(fields, "semantic"@, line) {
            Err(e) => Err(e),
            Ok(semantic) => match integer_field(fields, "requested_interval_us"@, line) {
                Err(e) => Err(e),
                Ok(requested_interval_us) => match filter_of(fields, line) {
                    Err(e) => Err(e),
                    Ok(filter) => Ok(EventView::SubscriptionConfigured { semantic, requested_interval_us, filter }),
                },
            },
        }
    }
}

pub open spec fn discovery_event(fields: Fields, line: nat) -> Result<EventView, Seq<char>> {
    if !exact_fields(fields, base_fields() + seq!["request_payload"@, "response_payload"@]) {
        Err(fields_error(line))
    } else {
        match hex_field(fields, "request_payload"@, line) {
            Err(e) => Err(e),
            Ok(request_payload) => match hex_field(fields, "response_payload"@, line) {
                Err(e) => Err(e),
                Ok(response_payload) => Ok(
                    EventView::SupportDiscovery { request_payload, responder: None, response_payload },
                ),
            },
        }
    }
}

pub open spec fn succeeded_names() -> Seq<Seq<char>> {
    base_fields() + seq![
        "semantic"@,
        "requested_interval_us"@,
        "due_us"@,
        "started_us"@,
        "finished_us"@,
        "request_payload"@,
        "response_payload"@,
        "value"@,
        "unit"@,
        "source"@,
        "profile"@,
        "decoder"@,
        "provenance"@,
    ]
}

/// The text fields of a successful read after its value, in order.
pub open spec fn read_texts(fields: Fields, line: nat) -> Result<Seq<Seq<char>>, Seq<char>> {
    match text_field(fields, "unit"@, line) {
        Err(e) => Err(e),
        Ok(unit) => match text_field(fields, "source"@, line) {
            Err(e) => Err(e),
            Ok(source) => match text_field(fields, "profile"@, line) {
                Err(e) => Err(e),
                Ok(profile) => match text_field(fields, "decoder"@, line) {
                    Err(e) => Err(e),
                    Ok(decoder) => match text_field(fields, "provenance"@, line) {
                        Err(e) => Err(e),
                        Ok(provenance) => Ok(seq![unit, source, profile, decoder, provenance]),
                    },
                },
            },
        },
    }
}

pub open spec fn succeeded_event(fields: Fields, line: nat) -> Result<EventView, Seq<char>> {
    if !exact_fields(fields, succeeded_names()) {
        Err(fields_error(line))
    } else {
        match (integer_field(fields, "due_us"@, line), integer_field(fields, "started_us"@, line), integer_field(fields, "finished_us"@, line)) {
            (Err(e), _, _) => Err(e),
            (Ok(_), Err(e), _) => Err(e),
            (Ok(_), Ok(_), Err(e)) => Err(e),
            (Ok(due_us), Ok(started_us), Ok(finished_us)) => if !(due_us <= started_us && started_us <= finished_us) {
                Err(on_line(line, "non-monotonic read timing"@))
            } else {
                match (text_field(fields, "semantic"@, line), integer_field(fields, "requested_interval_us"@, line)) {
                    (Err(e), _) => Err(e),
                    (Ok(_), Err(e)) => Err(e),
                    (Ok(semantic), Ok(requested_interval_us)) => match hex_field(fields, "request_payload"@, line) {
                        Err(e) => Err(e),
                        Ok(request_payload) => match hex_field(fields, "response_payload"@, line) {
                            Err(e) => Err(e),
                            Ok(response_payload) => match value_of(field(fields, "value"@).unwrap(), line) {
                                Err(e) => Err(e),
                                Ok(value) => match read_texts(fields, line) {
                                    Err(e) => Err(e),
                                    Ok(texts) => Ok(
                                        EventView::ReadSucceeded {
                                            semantic,
                                            requested_interval_us,
                                            due_us,
                                            started_us,
                                            finished_us,
                                            request_payload,
                                            response_payload,
                                            value,
                                            unit: texts[0],
                                            source: texts[1],
                                            profile: texts[2],
                                            decoder: texts[3],
                                            provenance: texts[4],
                                        },
                                    ),
                                },
                            },
                        },
                    },
                }
            },
        }
    }
}

pub open spec fn failed_names() -> Seq<Seq<char>> {
    base_fields() + seq![
        "semantic"@,
        "requested_interval_us"@,
        "due_us"@,
        "started_us"@,
        "finished_us"@,
        "request_payload"@,
        "error"@,
    ]
}

pub open spec fn failed_timing(fields: Fields, line: nat) -> Result<Option<ReadTiming>, Seq<char>> {
    match (optional_integer_field(fields, "due_us"@, line), optional_integer_field(fields, "started_us"@, line), optional_integer_field(fields, "finished_us"@, line)) {
        (Err(e), _, _) => Err(e),
        (Ok(_), Err(e), _) => Err(e),
        (Ok(_), Ok(_), Err(e)) => Err(e),
        (Ok(Some(due_us)), Ok(Some(started_us)), Ok(Some(finished_us))) => if !(due_us <= started_us && started_us <= finished_us) {
            Err(on_line(line, "non-monotonic failed-read timing"@))
        } else {
            Ok(Some(ReadTiming { due_us, started_us, finished_us }))
        },
        (Ok(None), Ok(None), Ok(None)) => Ok(None),
        _ => Err(on_line(line, "incomplete failed-read timing"@)),
    }
}

pub open spec fn failed_request(fields: Fields, line: nat) -> Result<Option<Seq<u8>>, Seq<char>> {
    match field(fields, "request_payload"@) {
        Some(JsonView::Null) => Ok(None),
        Some(JsonView::Text(text)) => match hex_bytes(text, line) {
            Err(e) => Err(e),
            Ok(bytes) => Ok(Some(bytes)),
        },
        _ => Err(on_line(line, "request_payload must be a hex string or null"@)),
    }
}

pub open spec fn failed_event(fields: Fields, line: nat) -> Result<EventView, Seq<char>> {
    if !exact_fields(fields, failed_names()) {
        Err(fields_error(line))
    } else {
        match failed_timing(fields, line) {
            Err(e) => Err(e),
            Ok(timing) => match failed_request(fields, line) {
                Err(e) => Err(e),
                Ok(request_payload) => match text_field(fields, "semantic"@, line) {
                    Err(e) => Err(e),
                    Ok(semantic) => match integer_field(fields, "requested_interval_us"@, line) {
                        Err(e) => Err(e),
                        Ok(requested_interval_us) => match text_field(fields, "error"@, line) {
                            Err(e) => Err(e),
                            Ok(error) => Ok(
                                EventView::ReadFailed { semantic, requested_interval_us, timing, request_payload, error },
                            ),
                        },
                    },
                },
            },
        }
    }
}

pub open spec fn skipped_event(fields: Fields, line: nat) -> Result<EventView, Seq<char>> {
    if !exact_fields(fields, base_fields() + seq!["semantic"@, "count"@, "first_due_us"@, "last_due_us"@]) {
        Err(fields_error(line))
    } else {
        match text_field(fields, "semantic"@, line) {
            Err(e) => Err(e),
            Ok(semantic) => match integer_field(fields, "count"@, line) {
                Err(e) => Err(e),
                Ok(count) => match integer_field(fields, "first_due_us"@, line) {
                    Err(e) => Err(e),
                    Ok(first_due_us) => match integer_field(fields, "last_due_us"@, line) {
                        Err(e) => Err(e),
                        Ok(last_due_us) => Ok(EventView::SlotsSkipped { semantic, count, first_due_us, last_due_us }),
                    },
                },
            },
        }
    }
}

/// The event of a record, or why it is refused.
pub open spec fn decode_event(fields: Fields, line: nat) -> Result<EventView, Seq<char>> {
    match text_field(fields, "type"@, line) {
        Err(e) => Err(e),
        Ok(kind) => if kind == "capture_started"@ {
            started_event(fields, line)
        } else if kind == "session_initialized"@ {
            if exact_fields(fields, base_fields()) { Ok(EventView::SessionInitialized) } else { Err(fields_error(line)) }
        } else if kind == "subscription_configured"@ {
            subscription_event(fields, line)
        } else if kind == "support_discovery"@ {
            discovery_event(fields, line)
        } else if kind == "read_succeeded"@ {
            succeeded_event(fields, line)
        } else if kind == "read_failed"@ {
            failed_event(fields, line)
        } else if kind == "slots_skipped"@ {
            skipped_event(fields, line)
        } else if kind == "session_error"@ {
            if !exact_fields(fields, base_fields() + seq!["error"@]) {
                Err(fields_error(line))
            } else {
                match text_field(fields, "error"@, line) {
                    Err(e) => Err(e),
                    Ok(error) => Ok(EventView::SessionError { error }),
                }
            }
        } else if kind == "shutdown_requested"@ {
            if exact_fields(fields, base_fields()) { Ok(EventView::ShutdownRequested) } else { Err(fields_error(line)) }
        } else if kind == "session_stopped"@ {
            if !exact_fields(fields, base_fields() + seq!["offset_us"@]) {
                Err(fields_error(line))
            } else {
                match integer_field(fields, "offset_us"@, line) {
                    Err(e) => Err(e),
                    Ok(offset_us) => Ok(EventView::SessionStopped { offset_us }),
                }
            }
        } else {
            Err(on_line(line, "unknown capture event type "@ + debug_text(kind)))
        },
    }
}

// ---------------------------------------------------------------------------
// Reading the fields of a record, as computed.
// ---------------------------------------------------------------------------

pub open spec fn text_result(r: Result<String, String>) -> Result<Seq<char>, Seq<char>> {
    match r {
        Ok(s) => Ok(s@),
        Err(e) => Err(e@),
    }
}

pub open spec fn message_result<T>(r: Result<T, String>) -> Result<T, Seq<char>> {
    match r {
        Ok(v) => Ok(v),
        Err(e) => Err(e@),
    }
}

fn find_field<'a>(fields: &'a Vec<(String, Json)>, name: &str) -> (r: Option<&'a Json>)
    ensures
        match field(fields_view(fields@), name@) {
            None => r is None,
            Some(v) => (r matches Some(j) && json_view(*j) == v),
        },
{
    proof {
        lemma_fields_view(fields@);
    }
    let ghost fv = fields_view(fields@);
    let mut i: usize = 0;
    while i < fields.len()
        invariant
            i <= fields@.len(),
            fv == fields_view(fields@),
            fv.len() == fields@.len(),
            forall|j: int| 0 <= j < fields@.len() ==> (#[trigger] fv[j]).0 == fields@[j].0@
                && fv[j].1 == json_view(fields@[j].1),
            field(fv, name@) == field_from(fv, name@, i as int),
        decreases fields@.len() - i,
    {
        if str_eq(fields[i].0.as_str(), name) {
            return Some(&fields[i].1);
        }
        i += 1;
    }
    None
}

fn on_line_exec(line: usize, text: &str) -> (r: String)
    ensures
        r@ == on_line(line as nat, text@),
{
    let number = decimal_text(line as u64);
    let head = concat("line ", number.as_str());
    let head = concat(head.as_str(), ": ");
    concat(head.as_str(), text)
}

/// `line N: field NAME` followed by the rest of the message.
fn field_message(line: usize, name: &str, rest: &str) -> (r: String)
    ensures
        r@ == on_line(line as nat, "field "@ + name@ + rest@),
{
    let text = concat("field ", name);
    let text = concat(text.as_str(), rest);
    on_line_exec(line, text.as_str())
}

fn text_field_exec(fields: &Vec<(String, Json)>, name: &str, line: usize) -> (r: Result<String, String>)
    ensures
        text_result(r) == text_field(fields_view(fields@), name@, line as nat),
{
    match find_field(fields, name) {
        Some(Json::Text(t)) => Ok(owned(t.as_str())),
        _ => Err(field_message(line, name, " must be a string")),
    }
}

fn optional_text_field_exec(fields: &Vec<(String, Json)>, name: &str, line: usize) -> (r: Result<
    Option<String>,
    String,
>)
    ensures
        match optional_text_field(fields_view(fields@), name@, line as nat) {
            Ok(t) => (r matches Ok(s) && opt_text(s) == t),
            Err(e) => (r matches Err(m) && m@ == e),
        },
{
    match find_field(fields, name) {
        Some(Json::Text(t)) => Ok(Some(owned(t.as_str()))),
        Some(Json::Null) => Ok(None),
        _ => Err(field_message(line, name, " must be a string or null")),
    }
}

fn integer_field_exec(fields: &Vec<(String, Json)>, name: &str, line: usize) -> (r: Result<u64, String>)
    ensures
        message_result(r) == integer_field(fields_view(fields@), name@, line as nat),
{
    match find_field(fields, name) {
        Some(Json::Number(n)) => {
            if contains_char(n.as_str(), '.') || contains_char(n.as_str(), 'e') || contains_char(
                n.as_str(),
                'E',
            ) || contains_char(n.as_str(), '-') {
                return Err(field_message(line, name, " must be an integer"));
            }
            let chars = chars_of(n.as_str());
            if chars.len() == 0 || !all_digits_exec(&chars) {
                return Err(field_message(line, name, " is out of range"));
            }
            match parse_decimal(&chars) {
                Some(v) => Ok(v),
                None => Err(field_message(line, name, " is out of range")),
            }
        },
        _ => Err(field_message(line, name, " must be an integer")),
    }
}

fn optional_integer_field_exec(fields: &Vec<(String, Json)>, name: &str, line: usize) -> (r: Result<
    Option<u64>,
    String,
>)
    ensures
        message_result(r) == optional_integer_field(fields_view(fields@), name@, line as nat),
{
    match find_field(fields, name) {
        Some(Json::Null) => Ok(None),
        Some(Json::Number(_)) => match integer_field_exec(fields, name, line) {
            Ok(v) => Ok(Some(v)),
            Err(e) => Err(e),
        },
        _ => Err(field_message(line, name, " must be an integer or null")),
    }
}

pub open spec fn names_view(names: Seq<&str>) -> Seq<Seq<char>> {
    names.map_values(|n: &str| n@)
}

fn push_name(names: &mut Vec<&'static str>, name: &'static str)
    ensures
        names_view(final(names)@) == names_view(old(names)@).push(name@),
{
    names.push(name);
    proof {
        assert(names_view(names@) =~= names_view(old(names)@).push(name@));
    }
}

/// The names every record carries.
fn base_names() -> (r: Vec<&'static str>)
    ensures
        names_view(r@) == base_fields(),
{
    let mut names: Vec<&'static str> = Vec::new();
    push_name(&mut names, "schema");
    push_name(&mut names, "version");
    push_name(&mut names, "type");
    push_name(&mut names, "sequence");
    proof {
        assert(names_view(names@) =~= base_fields());
    }
    names
}

fn exact_fields_exec(fields: &Vec<(String, Json)>, names: &Vec<&'static str>) -> (r: bool)
    ensures
        r == exact_fields(fields_view(fields@), names_view(names@)),
{
    proof {
        lemma_fields_view(fields@);
    }
    if fields.len() != names.len() {
        return false;
    }
    let mut i: usize = 0;
    while i < names.len()
        invariant
            i <= names@.len(),
            fields_view(fields@).len() == fields@.len(),
            fields@.len() == names@.len(),
            forall|j: int| 0 <= j < i ==> field(fields_view(fields@), #[trigger] names_view(names@)[j]) is Some,
        decreases names@.len() - i,
    {
        if find_field(fields, names[i]).is_none() {
            assert(field(fields_view(fields@), names_view(names@)[i as int]) is None);
            return false;
        }
        i += 1;
    }
    true
}

fn fields_error_exec(line: usize) -> (r: String)
    ensures
        r@ == fields_error(line as nat),
{
    on_line_exec(line, "malformed or unsupported capture fields")
}

fn schema_error_exec(fields: &Vec<(String, Json)>, line: usize) -> (r: Option<String>)
    ensures
        match schema_error(fields_view(fields@), line as nat) {
            None => r is None,
            Some(e) => (r matches Some(m) && m@ == e),
        },
{
    match text_field_exec(fields, "schema", line) {
        Err(e) => Some(e),
        Ok(schema) => if !str_eq(schema.as_str(), "OBDENTIC-CAPTURE") {
            Some(on_line_exec(line, "unsupported JSONL capture schema"))
        } else {
            match integer_field_exec(fields, "version", line) {
                Err(e) => Some(e),
                Ok(version) => if version != 1 {
                    Some(on_line_exec(line, "unsupported JSONL capture version"))
                } else {
                    None
                },
            }
        },
    }
}

// ---------------------------------------------------------------------------
// Hex payloads.
// ---------------------------------------------------------------------------

pub open spec fn pieces_view(pieces: Seq<Vec<char>>) -> Seq<Seq<char>> {
    pieces.map_values(|v: Vec<char>| v@)
}

fn split_on(text: &Vec<char>, sep: char) -> (r: Vec<Vec<char>>)
    ensures
        pieces_view(r@) == pieces_split(text@, sep),
        forall|j: int| 0 <= j < r@.len() ==> (#[trigger] r@[j])@.len() <= text@.len(),
{
    let mut pieces: Vec<Vec<char>> = Vec::new();
    pieces.push(Vec::new());
    proof {
        assert(text@.take(0) =~= Seq::<char>::empty());
        assert(pieces_view(pieces@) =~= seq![Seq::<char>::empty()]);
    }
    let mut i: usize = 0;
    while i < text.len()
        invariant
            i <= text@.len(),
            pieces@.len() >= 1,
            pieces_view(pieces@) == pieces_split(text@.take(i as int), sep),
            forall|j: int| 0 <= j < pieces@.len() ==> (#[trigger] pieces@[j])@.len() <= i,
        decreases text@.len() - i,
    {
        let c = text[i];
        let ghost before = pieces_view(pieces@);
        proof {
            assert(text@.take(i + 1).drop_last() =~= text@.take(i as int));
            assert(text@.take(i + 1).last() == c);
        }
        if c == sep {
            pieces.push(Vec::new());
            proof {
                assert(pieces_view(pieces@) =~= before.push(Seq::empty()));
            }
        } else {
            let mut last = pieces.pop().unwrap();
            last.push(c);
            pieces.push(last);
            proof {
                assert(pieces_view(pieces@) =~= before.update(before.len() - 1, before.last().push(c)));
            }
        }
        i += 1;
    }
    proof {
        assert(text@.take(text@.len() as int) =~= text@);
    }
    pieces
}

proof fn lemma_hex_error_stays(pieces: Seq<Seq<char>>, k: int, line: nat)
    requires
        0 <= k <= pieces.len(),
        hex_pieces(pieces.take(k), line) is Err,
    ensures
        hex_pieces(pieces, line) == hex_pieces(pieces.take(k), line),
    decreases pieces.len() - k,
{
    if k < pieces.len() {
        assert(pieces.take(k + 1).drop_last() =~= pieces.take(k));
        lemma_hex_error_stays(pieces, k + 1, line);
    } else {
        assert(pieces.take(k) =~= pieces);
    }
}

fn is_upper_hex_exec(c: char) -> (r: bool)
    ensures
        r == is_upper_hex(c),
{
    ('0' <= c && c <= '9') || ('A' <= c && c <= 'F')
}

fn is_any_hex_exec(c: char) -> (r: bool)
    ensures
        r == is_any_hex(c),
{
    is_upper_hex_exec(c) || ('a' <= c && c <= 'f')
}

fn nibble_exec(c: char) -> (r: u8)
    requires
        is_any_hex(c),
    ensures
        r as int == nibble(c),
{
    let code = char_code(c);
    if '0' <= c && c <= '9' {
        (code - 48) as u8
    } else if 'A' <= c && c <= 'F' {
        (code - 55) as u8
    } else {
        (code - 87) as u8
    }
}

fn hex_bytes_exec(text: &str, line: usize) -> (r: Result<Vec<u8>, String>)
    ensures
        match hex_bytes(text@, line as nat) {
            Ok(b) => (r matches Ok(v) && v@ == b),
            Err(e) => (r matches Err(m) && m@ == e),
        },
{
    let chars = chars_of(text);
    if chars.len() == 0 {
        return Ok(Vec::new());
    }
    let pieces = split_on(&chars, ' ');
    let ghost pv = pieces_view(pieces@);
    let mut bytes: Vec<u8> = Vec::new();
    let mut i: usize = 0;
    proof {
        assert(pv.take(0) =~= Seq::<Seq<char>>::empty());
    }
    while i < pieces.len()
        invariant
            i <= pieces@.len(),
            pv == pieces_view(pieces@),
            pv == pieces_split(chars@, ' '),
            chars@ == text@,
            text@.len() > 0,
            hex_pieces(pv.take(i as int), line as nat) == Ok::<Seq<u8>, Seq<char>>(bytes@),
        decreases pieces@.len() - i,
    {
        let piece = &pieces[i];
        proof {
            assert(pv.take(i + 1).drop_last() =~= pv.take(i as int));
            assert(pv.take(i + 1).last() == piece@);
        }
        if piece.len() != 2 || !is_any_hex_exec(piece[0]) || !is_any_hex_exec(piece[1]) {
            proof {
                lemma_hex_error_stays(pv, i + 1, line as nat);
            }
            return Err(on_line_exec(line, "invalid uppercase-space-separated hex"));
        }
        if !is_upper_hex_exec(piece[0]) || !is_upper_hex_exec(piece[1]) {
            proof {
                lemma_hex_error_stays(pv, i + 1, line as nat);
            }
            return Err(on_line_exec(line, "hex payload must use uppercase digits"));
        }
        let high = nibble_exec(piece[0]);
        let low = nibble_exec(piece[1]);
        bytes.push(high * 16 + low);
        i += 1;
    }
    proof {
        assert(pv.take(pieces@.len() as int) =~= pv);
    }
    Ok(bytes)
}

fn hex_field_exec(fields: &Vec<(String, Json)>, name: &str, line: usize) -> (r: Result<Vec<u8>, String>)
    ensures
        match hex_field(fields_view(fields@), name@, line as nat) {
            Ok(b) => (r matches Ok(v) && v@ == b),
            Err(e) => (r matches Err(m) && m@ == e),
        },
{
    match text_field_exec(fields, name, line) {
        Err(e) => Err(e),
        Ok(text) => hex_bytes_exec(text.as_str(), line),
    }
}

// ---------------------------------------------------------------------------
// Decoding the events, as computed.
// ---------------------------------------------------------------------------

pub open spec fn event_result(r: Result<CaptureEvent, String>) -> Result<EventView, Seq<char>> {
    match r {
        Ok(e) => Ok(event_view(e)),
        Err(m) => Err(m@),
    }
}

fn type_and_value_names() -> (r: Vec<&'static str>)
    ensures
        names_view(r@) == seq!["type"@, "value"@],
{
    let mut names: Vec<&'static str> = Vec::new();
    push_name(&mut names, "type");
    push_name(&mut names, "value");
    proof {
        assert(names_view(names@) =~= seq!["type"@, "value"@]);
    }
    names
}

fn value_of_exec(value: &Json, line: usize) -> (r: Result<CaptureValue, String>)
    ensures
        match value_of(json_view(*value), line as nat) {
            Ok(v) => (r matches Ok(c) && value_view(c) == v),
            Err(e) => (r matches Err(m) && m@ == e),
        },
{
    match value {
        Json::Object(fields) => {
            let kind = match text_field_exec(fields, "type", line) {
                Err(e) => {
                    return Err(e);
                },
                Ok(k) => k,
            };
            let is_number = str_eq(kind.as_str(), "number");
            let is_boolean = str_eq(kind.as_str(), "boolean");
            let is_enum = str_eq(kind.as_str(), "enum");
            let is_text = str_eq(kind.as_str(), "text");
            if is_number || is_boolean || is_enum || is_text {
                let names = type_and_value_names();
                if !exact_fields_exec(fields, &names) {
                    return Err(fields_error_exec(line));
                }
                if is_number {
                    match find_field(fields, "value") {
                        Some(Json::Number(n)) => Ok(CaptureValue::Number { numeral: owned(n.as_str()) }),
                        _ => Err(on_line_exec(line, "number value must be numeric")),
                    }
                } else if is_boolean {
                    match find_field(fields, "value") {
                        Some(Json::Bool(b)) => Ok(CaptureValue::Boolean(*b)),
                        _ => Err(on_line_exec(line, "boolean value must be true or false")),
                    }
                } else {
                    match text_field_exec(fields, "value", line) {
                        Err(e) => Err(e),
                        Ok(t) => Ok(
                            if is_enum {
                                CaptureValue::Enum(t)
                            } else {
                                CaptureValue::Text(t)
                            },
                        ),
                    }
                }
            } else if str_eq(kind.as_str(), "unavailable") {
                let mut names: Vec<&'static str> = Vec::new();
                push_name(&mut names, "type");
                push_name(&mut names, "reason");
                proof {
                    assert(names_view(names@) =~= seq!["type"@, "reason"@]);
                }
                if !exact_fields_exec(fields, &names) {
                    return Err(fields_error_exec(line));
                }
                match text_field_exec(fields, "reason", line) {
                    Err(e) => Err(e),
                    Ok(t) => Ok(CaptureValue::Unavailable { reason: t }),
                }
            } else {
                let quoted = debug_quoted(kind.as_str());
                let text = concat("unknown capture value type ", quoted.as_str());
                Err(on_line_exec(line, text.as_str()))
            }
        },
        _ => Err(on_line_exec(line, "capture value must be an object")),
    }
}

fn filter_of_exec(fields: &Vec<(String, Json)>, line: usize) -> (r: Result<SubscriptionFilterOutcome, String>)
    ensures
        message_result(r) == filter_of(fields_view(fields@), line as nat),
{
    match text_field_exec(fields, "filter_outcome", line) {
        Err(e) => Err(e),
        Ok(name) => if str_eq(name.as_str(), "scheduled") {
            Ok(SubscriptionFilterOutcome::Scheduled)
        } else if str_eq(name.as_str(), "unsupported") {
            Ok(SubscriptionFilterOutcome::Unsupported)
        } else if str_eq(name.as_str(), "unknown") {
            Ok(SubscriptionFilterOutcome::Unknown)
        } else {
            let quoted = debug_quoted(name.as_str());
            let text = concat("unknown subscription filter outcome ", quoted.as_str());
            Err(on_line_exec(line, text.as_str()))
        },
    }
}

fn started_event_exec(fields: &Vec<(String, Json)>, line: usize) -> (r: Result<CaptureEvent, String>)
    ensures
        event_result(r) == started_event(fields_view(fields@), line as nat),
{
    let mut names = base_names();
    push_name(&mut names, "wallclock_ms");
    push_name(&mut names, "profile");
    proof {
        assert(names_view(names@) =~= base_fields() + seq!["wallclock_ms"@, "profile"@]);
    }
    if !exact_fields_exec(fields, &names) {
        return Err(fields_error_exec(line));
    }
    let wallclock_ms = match optional_integer_field_exec(fields, "wallclock_ms", line) {
        Err(e) => {
            return Err(e);
        },
        Ok(v) => v,
    };
    match optional_text_field_exec(fields, "profile", line) {
        Err(e) => Err(e),
        Ok(profile) => Ok(CaptureEvent::CaptureStarted { wallclock_ms, profile }),
    }
}

fn subscription_event_exec(fields: &Vec<(String, Json)>, line: usize) -> (r: Result<CaptureEvent, String>)
    ensures
        event_result(r) == subscription_event(fields_view(fields@), line as nat),
{
    let mut names = base_names();
    push_name(&mut names, "semantic");
    push_name(&mut names, "requested_interval_us");
    push_name(&mut names, "filter_outcome");
    proof {
        assert(names_view(names@) =~= base_fields() + seq![
            "semantic"@,
            "requested_interval_us"@,
            "filter_outcome"@,
        ]);
    }
    if !exact_fields_exec(fields, &names) {
        return Err(fields_error_exec(line));
    }
    let semantic = match text_field_exec(fields, "semantic", line) {
        Err(e) => {
            return Err(e);
        },
        Ok(v) => v,
    };
    let requested_interval_us = match integer_field_exec(fields, "requested_interval_us", line) {
        Err(e) => {
            return Err(e);
        },
        Ok(v) => v,
    };
    match filter_of_exec(fields, line) {
        Err(e) => Err(e),
        Ok(filter) => Ok(CaptureEvent::SubscriptionConfigured { semantic, requested_interval_us, filter }),
    }
}

fn discovery_event_exec(fields: &Vec<(String, Json)>, line: usize) -> (r: Result<CaptureEvent, String>)
    ensures
        event_result(r) == discovery_event(fields_view(fields@), line as nat),
{
    let mut names = base_names();
    push_name(&mut names, "request_payload");
    push_name(&mut names, "response_payload");
    proof {
        assert(names_view(names@) =~= base_fields() + seq!["request_payload"@, "response_payload"@]);
    }
    if !exact_fields_exec(fields, &names) {
        return Err(fields_error_exec(line));
    }
    let request_payload = match hex_field_exec(fields, "request_payload", line) {
        Err(e) => {
            return Err(e);
        },
        Ok(v) => v,
    };
    match hex_field_exec(fields, "response_payload", line) {
        Err(e) => Err(e),
        Ok(response_payload) => Ok(
            CaptureEvent::SupportDiscovery { request_payload, responder: None, response_payload },
        ),
    }
}

fn succeeded_names_exec() -> (r: Vec<&'static str>)
    ensures
        names_view(r@) == succeeded_names(),
{
    let mut names = base_names();
    push_name(&mut names, "semantic");
    push_name(&mut names, "requested_interval_us");
    push_name(&mut names, "due_us");
    push_name(&mut names, "started_us");
    push_name(&mut names, "finished_us");
    push_name(&mut names, "request_payload");
    push_name(&mut names, "response_payload");
    push_name(&mut names, "value");
    push_name(&mut names, "unit");
    push_name(&mut names, "source");
    push_name(&mut names, "profile");
    push_name(&mut names, "decoder");
    push_name(&mut names, "provenance");
    proof {
        assert(names_view(names@) =~= succeeded_names());
    }
    names
}

fn succeeded_event_exec(fields: &Vec<(String, Json)>, line: usize) -> (r: Result<CaptureEvent, String>)
    ensures
        event_result(r) == succeeded_event(fields_view(fields@), line as nat),
{
    let names = succeeded_names_exec();
    if !exact_fields_exec(fields, &names) {
        return Err(fields_error_exec(line));
    }
    let due_us = match integer_field_exec(fields, "due_us", line) {
        Err(e) => {
            return Err(e);
        },
        Ok(v) => v,
    };
    let started_us = match integer_field_exec(fields, "started_us", line) {
        Err(e) => {
            return Err(e);
        },
        Ok(v) => v,
    };
    let finished_us = match integer_field_exec(fields, "finished_us", line) {
        Err(e) => {
            return Err(e);
        },
        Ok(v) => v,
    };
    if !(due_us <= started_us && started_us <= finished_us) {
        return Err(on_line_exec(line, "non-monotonic read timing"));
    }
    let semantic = match text_field_exec(fields, "semantic", line) {
        Err(e) => {
            return Err(e);
        },
        Ok(v) => v,
    };
    let requested_interval_us = match integer_field_exec(fields, "requested_interval_us", line) {
        Err(e) => {
            return Err(e);
        },
        Ok(v) => v,
    };
    let request_payload = match hex_field_exec(fields, "request_payload", line) {
        Err(e) => {
            return Err(e);
        },
        Ok(v) => v,
    };
    let response_payload = match hex_field_exec(fields, "response_payload", line) {
        Err(e) => {
            return Err(e);
        },
        Ok(v) => v,
    };
    let value = match find_field(fields, "value") {
        None => {
            proof {
                assert(succeeded_names()[11] == "value"@);
                assert(field(fields_view(fields@), succeeded_names()[11]) is Some);
            }
            return Err(fields_error_exec(line));
        },
        Some(v) => match value_of_exec(v, line) {
            Err(e) => {
                return Err(e);
            },
            Ok(v) => v,
        },
    };
    let unit = match text_field_exec(fields, "unit", line) {
        Err(e) => {
            return Err(e);
        },
        Ok(v) => v,
    };
    let source = match text_field_exec(fields, "source", line) {
        Err(e) => {
            return Err(e);
        },
        Ok(v) => v,
    };
    let profile = match text_field_exec(fields, "profile", line) {
        Err(e) => {
            return Err(e);
        },
        Ok(v) => v,
    };
    let decoder = match text_field_exec(fields, "decoder", line) {
        Err(e) => {
            return Err(e);
        },
        Ok(v) => v,
    };
    let provenance = match text_field_exec(fields, "provenance", line) {
        Err(e) => {
            return Err(e);
        },
        Ok(v) => v,
    };
    Ok(
        CaptureEvent::ReadSucceeded {
            semantic,
            requested_interval_us,
            due_us,
            started_us,
            finished_us,
            request_payload,
            response_payload,
            value,
            unit,
            source,
            profile,
            decoder,
            provenance,
        },
    )
}

fn failed_timing_exec(fields: &Vec<(String, Json)>, line: usize) -> (r: Result<Option<ReadTiming>, String>)
    ensures
        message_result(r) == failed_timing(fields_view(fields@), line as nat),
{
    let due = match optional_integer_field_exec(fields, "due_us", line) {
        Err(e) => {
            return Err(e);
        },
        Ok(v) => v,
    };
    let started = match optional_integer_field_exec(fields, "started_us", line) {
        Err(e) => {
            return Err(e);
        },
        Ok(v) => v,
    };
    let finished = match optional_integer_field_exec(fields, "finished_us", line) {
        Err(e) => {
            return Err(e);
        },
        Ok(v) => v,
    };
    match (due, started, finished) {
        (Some(due_us), Some(started_us), Some(finished_us)) => if !(due_us <= started_us && started_us
            <= finished_us) {
            Err(on_line_exec(line, "non-monotonic failed-read timing"))
        } else {
            Ok(Some(ReadTiming { due_us, started_us, finished_us }))
        },
        (None, None, None) => Ok(None),
        _ => Err(on_line_exec(line, "incomplete failed-read timing")),
    }
}

fn failed_request_exec(fields: &Vec<(String, Json)>, line: usize) -> (r: Result<Option<Vec<u8>>, String>)
    ensures
        match failed_request(fields_view(fields@), line as nat) {
            Ok(b) => (r matches Ok(v) && opt_bytes(v) == b),
            Err(e) => (r matches Err(m) && m@ == e),
        },
{
    match find_field(fields, "request_payload") {
        Some(Json::Null) => Ok(None),
        Some(Json::Text(text)) => match hex_bytes_exec(text.as_str(), line) {
            Err(e) => Err(e),
            Ok(bytes) => Ok(Some(bytes)),
        },
        _ => Err(on_line_exec(line, "request_payload must be a hex string or null")),
    }
}

fn failed_event_exec(fields: &Vec<(String, Json)>, line: usize) -> (r: Result<CaptureEvent, String>)
    ensures
        event_result(r) == failed_event(fields_view(fields@), line as nat),
{
    let mut names = base_names();
    push_name(&mut names, "semantic");
    push_name(&mut names, "requested_interval_us");
    push_name(&mut names, "due_us");
    push_name(&mut names, "started_us");
    push_name(&mut names, "finished_us");
    push_name(&mut names, "request_payload");
    push_name(&mut names, "error");
    proof {
        assert(names_view(names@) =~= failed_names());
    }
    if !exact_fields_exec(fields, &names) {
        return Err(fields_error_exec(line));
    }
    let timing = match failed_timing_exec(fields, line) {
        Err(e) => {
            return Err(e);
        },
        Ok(v) => v,
    };
    let request_payload = match failed_request_exec(fields, line) {
        Err(e) => {
            return Err(e);
        },
        Ok(v) => v,
    };
    let semantic = match text_field_exec(fields, "semantic", line) {
        Err(e) => {
            return Err(e);
        },
        Ok(v) => v,
    };
    let requested_interval_us = match integer_field_exec(fields, "requested_interval_us", line) {
        Err(e) => {
            return Err(e);
        },
        Ok(v) => v,
    };
    match text_field_exec(fields, "error", line) {
        Err(e) => Err(e),
        Ok(error) => Ok(
            CaptureEvent::ReadFailed { semantic, requested_interval_us, timing, request_payload, error },
        ),
    }
}

fn skipped_event_exec(fields: &Vec<(String, Json)>, line: usize) -> (r: Result<CaptureEvent, String>)
    ensures
        event_result(r) == skipped_event(fields_view(fields@), line as nat),
{
    let mut names = base_names();
    push_name(&mut names, "semantic");
    push_name(&mut names, "count");
    push_name(&mut names, "first_due_us");
    push_name(&mut names, "last_due_us");
    proof {
        assert(names_view(names@) =~= base_fields() + seq![
            "semantic"@,
            "count"@,
            "first_due_us"@,
            "last_due_us"@,
        ]);
    }
    if !exact_fields_exec(fields, &names) {
        return Err(fields_error_exec(line));
    }
    let semantic = match text_field_exec(fields, "semantic", line) {
        Err(e) => {
            return Err(e);
        },
        Ok(v) => v,
    };
    let count = match integer_field_exec(fields, "count", line) {
        Err(e) => {
            return Err(e);
        },
        Ok(v) => v,
    };
    let first_due_us = match integer_field_exec(fields, "first_due_us", line) {
        Err(e) => {
            return Err(e);
        },
        Ok(v) => v,
    };
    match integer_field_exec(fields, "last_due_us", line) {
        Err(e) => Err(e),
        Ok(last_due_us) => Ok(CaptureEvent::SlotsSkipped { semantic, count, first_due_us, last_due_us }),
    }
}

fn decode_event_exec(fields: &Vec<(String, Json)>, line: usize) -> (r: Result<CaptureEvent, String>)
    ensures
        event_result(r) == decode_event(fields_view(fields@), line as nat),
{
    let kind = match text_field_exec(fields, "type", line) {
        Err(e) => {
            return Err(e);
        },
        Ok(k) => k,
    };
    let kind = kind.as_str();
    if str_eq(kind, "capture_started") {
        started_event_exec(fields, line)
    } else if str_eq(kind, "session_initialized") {
        let names = base_names();
        if exact_fields_exec(fields, &names) {
            Ok(CaptureEvent::SessionInitialized)
        } else {
            Err(fields_error_exec(line))
        }
    } else if str_eq(kind, "subscription_configured") {
        subscription_event_exec(fields, line)
    } else if str_eq(kind, "support_discovery") {
        discovery_event_exec(fields, line)
    } else if str_eq(kind, "read_succeeded") {
        succeeded_event_exec(fields, line)
    } else if str_eq(kind, "read_failed") {
        failed_event_exec(fields, line)
    } else if str_eq(kind, "slots_skipped") {
        skipped_event_exec(fields, line)
    } else if str_eq(kind, "session_error") {
        let mut names = base_names();
        push_name(&mut names, "error");
        proof {
            assert(names_view(names@) =~= base_fields() + seq!["error"@]);
        }
        if !exact_fields_exec(fields, &names) {
            return Err(fields_error_exec(line));
        }
        match text_field_exec(fields, "error", line) {
            Err(e) => Err(e),
            Ok(error) => Ok(CaptureEvent::SessionError { error }),
        }
    } else if str_eq(kind, "shutdown_requested") {
        let names = base_names();
        if exact_fields_exec(fields, &names) {
            Ok(CaptureEvent::ShutdownRequested)
        } else {
            Err(fields_error_exec(line))
        }
    } else if str_eq(kind, "session_stopped") {
        let mut names = base_names();
        push_name(&mut names, "offset_us");
        proof {
            assert(names_view(names@) =~= base_fields() + seq!["offset_us"@]);
        }
        if !exact_fields_exec(fields, &names) {
            return Err(fields_error_exec(line));
        }
        match integer_field_exec(fields, "offset_us", line) {
            Err(e) => Err(e),
            Ok(offset_us) => Ok(CaptureEvent::SessionStopped { offset_us }),
        }
    } else {
        let quoted = debug_quoted(kind);
        let text = concat("unknown capture event type ", quoted.as_str());
        Err(on_line_exec(line, text.as_str()))
    }
}

// ---------------------------------------------------------------------------
// The capture file.
// ---------------------------------------------------------------------------

/// A line without the carriage return that ends it, if any.
pub open spec fn strip_cr(line: Seq<char>) -> Seq<char> {
    if line.len() > 0 && line.last() == '\r' {
        line.drop_last()
    } else {
        line
    }
}

/// The lines of a text, as `str::lines` gives them: split at each `\n`, a
/// `\r` before it removed, and no empty line after a final `\n`.
pub open spec fn text_lines(text: Seq<char>) -> Seq<Seq<char>> {
    let pieces = pieces_split(text, '\n');
    let ended = pieces.drop_last().map_values(|line: Seq<char>| strip_cr(line));
    if text.len() == 0 || text.last() == '\n' {
        ended
    } else {
        ended.push(pieces.last())
    }
}

/// The fields of a record line, or its reading error as reported.
pub open spec fn record_fields(text: Seq<char>, line: nat) -> Result<Fields, Seq<char>> {
    match json_record(text) {
        Ok(fields) => Ok(fields),
        Err(error) => Err(json_error_text(line, error)),
    }
}

/// Why the first line is not this format's header, if it is not.
pub open spec fn header_error(lines: Seq<Seq<char>>) -> Option<Seq<char>> {
    if lines.len() == 0 {
        Some("JSONL capture is empty"@)
    } else {
        match record_fields(lines[0], 1) {
            Err(e) => Some(e),
            Ok(fields) => match schema_error(fields, 1) {
                Some(e) => Some(e),
                None => match text_field(fields, "type"@, 1) {
                    Err(e) => Some(e),
                    Ok(kind) => if kind != "header"@ || fields.len() != 3 {
                        Some(on_line(1, "malformed JSONL capture header"@))
                    } else {
                        None
                    },
                },
            },
        }
    }
}

/// The event of the record after `events`, and whether the capture has then
/// stopped; or why the record is refused.
pub open spec fn record_step(events: Seq<EventView>, stopped: bool, text: Seq<char>, line: nat) -> Result<
    (EventView, bool),
    Seq<char>,
> {
    if is_blank_spec(text) {
        Err(on_line(line, "empty JSONL record"@))
    } else {
        match record_fields(text, line) {
            Err(e) => Err(e),
            Ok(fields) => match schema_error(fields, line) {
                Some(e) => Err(e),
                None => match integer_field(fields, "sequence"@, line) {
                    Err(e) => Err(e),
                    Ok(sequence) => if sequence != events.len() {
                        Err(
                            on_line(
                                line,
                                "sequence "@ + decimal(sequence as nat) + " expected "@ + decimal(events.len()),
                            ),
                        )
                    } else if events.len() >= u64::MAX {
                        Err(on_line(line, "sequence exhausted"@))
                    } else {
                        match decode_event(fields, line) {
                            Err(e) => Err(e),
                            Ok(event) => if event is SessionStopped {
                                if stopped {
                                    Err(on_line(line, "duplicate session_stopped event"@))
                                } else {
                                    Ok((event, true))
                                }
                            } else if stopped {
                                Err(on_line(line, "event follows session_stopped"@))
                            } else {
                                Ok((event, false))
                            },
                        }
                    },
                },
            },
        }
    }
}

/// The events of the records on lines `2..=k`, and whether one of them
/// stopped the capture; or the first refusal. The line at index `i` is line
/// `i + 1`.
pub open spec fn records_upto(lines: Seq<Seq<char>>, k: nat) -> Result<(Seq<EventView>, bool), Seq<char>>
    decreases k,
{
    if k <= 1 {
        Ok((Seq::empty(), false))
    } else {
        match records_upto(lines, (k - 1) as nat) {
            Err(e) => Err(e),
            Ok((events, stopped)) => match record_step(events, stopped, lines[k - 1], k) {
                Err(e) => Err(e),
                Ok((event, now)) => Ok((events.push(event), now)),
            },
        }
    }
}

/// A capture file read: its events and whether it is complete, or why it is
/// refused.
pub open spec fn capture_of(contents: Seq<char>) -> Result<(Seq<EventView>, bool), Seq<char>> {
    let lines = text_lines(contents);
    match header_error(lines) {
        Some(e) => Err(e),
        None => records_upto(lines, lines.len()),
    }
}

pub open spec fn events_view(events: Seq<CaptureEvent>) -> Seq<EventView> {
    events.map_values(|e: CaptureEvent| event_view(e))
}

proof fn lemma_pieces_nonempty(text: Seq<char>, sep: char)
    ensures
        pieces_split(text, sep).len() >= 1,
    decreases text.len(),
{
    if text.len() > 0 {
        lemma_pieces_nonempty(text.drop_last(), sep);
    }
}

fn text_lines_exec(contents: &str) -> (r: Vec<String>)
    ensures
        r@.map_values(|s: String| s@) == text_lines(contents@),
        forall|j: int| 0 <= j < r@.len() ==> (#[trigger] r@[j])@.len() <= contents@.len(),
{
    let chars = chars_of(contents);
    let pieces = split_on(&chars, '\n');
    let ghost pv = pieces_view(pieces@);
    proof {
        lemma_pieces_nonempty(chars@, '\n');
        assert(pv.len() == pieces@.len());
    }
    let n = pieces.len();
    let ends_open = chars.len() > 0 && chars[chars.len() - 1] != '\n';
    let mut lines: Vec<String> = Vec::new();
    let mut i: usize = 0;
    while i + 1 < n
        invariant
            n == pieces@.len(),
            n >= 1,
            i + 1 <= n,
            pv == pieces_view(pieces@),
            pv == pieces_split(chars@, '\n'),
            forall|j: int| 0 <= j < pieces@.len() ==> (#[trigger] pieces@[j])@.len() <= chars@.len(),
            chars@ == contents@,
            lines@.len() == i,
            forall|j: int| 0 <= j < i ==> (#[trigger] lines@[j])@ == strip_cr(pv[j]),
            forall|j: int| 0 <= j < i ==> (#[trigger] lines@[j])@.len() <= contents@.len(),
        decreases n - i,
    {
        let piece = &pieces[i];
        let k = piece.len();
        let line = if k > 0 && piece[k - 1] == '\r' {
            string_from_chars(&piece.as_slice()[0..k - 1])
        } else {
            string_from_chars(piece.as_slice())
        };
        proof {
            assert(pv[i as int] == piece@);
            if k > 0 && piece@[k - 1] == '\r' {
                assert(piece@.subrange(0, k - 1) =~= piece@.drop_last());
            }
        }
        lines.push(line);
        i += 1;
    }
    if ends_open {
        let last = string_from_chars(pieces[n - 1].as_slice());
        proof {
            assert(pv[n - 1] == pieces@[n - 1]@);
        }
        lines.push(last);
    }
    proof {
        let ended = pv.drop_last().map_values(|line: Seq<char>| strip_cr(line));
        if ends_open {
            assert(lines@.map_values(|s: String| s@) =~= ended.push(pv.last()));
        } else {
            assert(lines@.map_values(|s: String| s@) =~= ended);
        }
    }
    lines
}

/// The decimal text of the number after `n`.
fn decimal_after(n: u64) -> (r: String)
    ensures
        r@ == decimal((n + 1) as nat),
{
    if n < u64::MAX {
        decimal_text(n + 1)
    } else {
        let mut r = decimal_text(1844674407370955161u64);
        crate::text::push_char(&mut r, '6');
        proof {
            assert(((n + 1) as nat) / 10 == 1844674407370955161);
            assert(((n + 1) as nat) % 10 == 6);
        }
        r
    }
}

fn record_fields_exec(text: &str, line: usize) -> (r: Result<Vec<(String, Json)>, String>)
    requires
        width_sum_fits(text@),
    ensures
        match record_fields(text@, line as nat) {
            Ok(fields) => (r matches Ok(f) && fields_view(f@) == fields),
            Err(e) => (r matches Err(m) && m@ == e),
        },
{
    match read_record(text) {
        Ok(fields) => Ok(fields),
        Err(failure) => {
            let head = on_line_exec(line, failure.message.as_str());
            let head = concat(head.as_str(), " at byte ");
            let byte = decimal_after(failure.byte);
            Err(concat(head.as_str(), byte.as_str()))
        },
    }
}

fn record_step_exec(events: &Vec<CaptureEvent>, stopped: bool, text: &str, line: usize) -> (r: Result<
    (CaptureEvent, bool),
    String,
>)
    requires
        width_sum_fits(text@),
    ensures
        match record_step(events_view(events@), stopped, text@, line as nat) {
            Ok((event, now)) => (r matches Ok((c, b)) && event_view(c) == event && b == now),
            Err(e) => (r matches Err(m) && m@ == e),
        },
{
    if is_blank(text) {
        return Err(on_line_exec(line, "empty JSONL record"));
    }
    let fields = match record_fields_exec(text, line) {
        Err(e) => {
            return Err(e);
        },
        Ok(f) => f,
    };
    match schema_error_exec(&fields, line) {
        Some(e) => {
            return Err(e);
        },
        None => {},
    }
    let sequence = match integer_field_exec(&fields, "sequence", line) {
        Err(e) => {
            return Err(e);
        },
        Ok(s) => s,
    };
    let expected = events.len() as u64;
    proof {
        assert(events_view(events@).len() == events@.len());
    }
    if sequence != expected {
        let given = decimal_text(sequence);
        let wanted = decimal_text(expected);
        let text = concat("sequence ", given.as_str());
        let text = concat(text.as_str(), " expected ");
        let text = concat(text.as_str(), wanted.as_str());
        return Err(on_line_exec(line, text.as_str()));
    }
    if expected == u64::MAX {
        return Err(on_line_exec(line, "sequence exhausted"));
    }
    let event = match decode_event_exec(&fields, line) {
        Err(e) => {
            return Err(e);
        },
        Ok(e) => e,
    };
    if matches!(event, CaptureEvent::SessionStopped { .. }) {
        if stopped {
            Err(on_line_exec(line, "duplicate session_stopped event"))
        } else {
            Ok((event, true))
        }
    } else if stopped {
        Err(on_line_exec(line, "event follows session_stopped"))
    } else {
        Ok((event, false))
    }
}

proof fn lemma_records_error_stays(lines: Seq<Seq<char>>, k: nat)
    requires
        k <= lines.len(),
        records_upto(lines, k) is Err,
    ensures
        records_upto(lines, lines.len()) == records_upto(lines, k),
    decreases lines.len() - k,
{
    if k < lines.len() {
        lemma_records_error_stays(lines, k + 1);
    }
}

/// Read a capture from the text of its JSONL file: the header line, then
/// one event record per line with sequence numbers counting up from zero,
/// at most one `session_stopped` and nothing after it.
pub fn parse_capture(contents: &str) -> (r: Result<ParsedCapture, String>)
    requires
        width_sum_fits(contents@),
    ensures
        match capture_of(contents@) {
            Ok((events, stopped)) => (r matches Ok(c) && events_view(c.events@) == events && (c.status
                == CaptureStatus::Complete) == stopped),
            Err(e) => (r matches Err(m) && m@ == e),
        },
{
    let lines = text_lines_exec(contents);
    let ghost lv = lines@.map_values(|s: String| s@);
    if lines.len() == 0 {
        return Err(owned("JSONL capture is empty"));
    }
    proof {
        assert(lv[0] == lines@[0]@);
        assert(lines@[0]@.len() <= contents@.len());
    }
    let header = match record_fields_exec(lines[0].as_str(), 1) {
        Err(e) => {
            return Err(e);
        },
        Ok(h) => h,
    };
    match schema_error_exec(&header, 1) {
        Some(e) => {
            return Err(e);
        },
        None => {},
    }
    let kind = match text_field_exec(&header, "type", 1) {
        Err(e) => {
            return Err(e);
        },
        Ok(k) => k,
    };
    proof {
        lemma_fields_view(header@);
    }
    if !str_eq(kind.as_str(), "header") || header.len() != 3 {
        return Err(on_line_exec(1, "malformed JSONL capture header"));
    }
    let mut events: Vec<CaptureEvent> = Vec::new();
    let mut stopped = false;
    let mut i: usize = 1;
    proof {
        assert(events_view(events@) =~= Seq::<EventView>::empty());
    }
    while i < lines.len()
        invariant
            1 <= i <= lines@.len(),
            lv == lines@.map_values(|s: String| s@),
            lv == text_lines(contents@),
            header_error(lv) is None,
            forall|j: int| 0 <= j < lines@.len() ==> (#[trigger] lines@[j])@.len() <= contents@.len(),
            width_sum_fits(contents@),
            records_upto(lv, i as nat) == Ok::<(Seq<EventView>, bool), Seq<char>>(
                (events_view(events@), stopped),
            ),
        decreases lines@.len() - i,
    {
        proof {
            assert(lv[i as int] == lines@[i as int]@);
            assert(lines@[i as int]@.len() <= contents@.len());
        }
        match record_step_exec(&events, stopped, lines[i].as_str(), i + 1) {
            Err(e) => {
                proof {
                    lemma_records_error_stays(lv, (i + 1) as nat);
                }
                return Err(e);
            },
            Ok((event, now)) => {
                let ghost before = events@;
                events.push(event);
                stopped = now;
                proof {
                    assert(events_view(events@) =~= events_view(before).push(event_view(event)));
                }
            },
        }
        i += 1;
    }
    Ok(
        ParsedCapture {
            events,
            status: if stopped {
                CaptureStatus::Complete
            } else {
                CaptureStatus::Partial
            },
        },
    )
}

// ---------------------------------------------------------------------------
// What every capture that is read satisfies.
// ---------------------------------------------------------------------------

/// The stop record is the last record, when there is one, and no other
/// record stops the session.
pub open spec fn stops_once_at_end(events: Seq<EventView>, stopped: bool) -> bool {
    &&& stopped <==> (events.len() > 0 && events.last() is SessionStopped)
    &&& forall|i: int| 0 <= i < events.len() - 1 ==> !(#[trigger] events[i] is SessionStopped)
}

proof fn lemma_records_stop_once(lines: Seq<Seq<char>>, k: nat)
    requires
        records_upto(lines, k) is Ok,
    ensures
        stops_once_at_end(records_upto(lines, k)->Ok_0.0, records_upto(lines, k)->Ok_0.1),
    decreases k,
{
    if k > 1 {
        lemma_records_stop_once(lines, (k - 1) as nat);
        let (events, stopped) = records_upto(lines, (k - 1) as nat)->Ok_0;
        let (event, now) = record_step(events, stopped, lines[k - 1], k)->Ok_0;
        let after = events.push(event);
        assert(records_upto(lines, k)->Ok_0.0 == after);
        assert forall|i: int| 0 <= i < after.len() - 1 implies !(#[trigger] after[i] is SessionStopped) by {
            assert(after[i] == events[i]);
            if i == events.len() - 1 {
                assert(events.last() == events[i]);
            }
        }
    }
}

/// A capture that reads back is complete exactly when its last event is a
/// `session_stopped`, and no earlier event is one.
pub proof fn law_a_read_capture_stops_at_most_once_and_last(contents: Seq<char>)
    requires
        capture_of(contents) is Ok,
    ensures
        stops_once_at_end(capture_of(contents)->Ok_0.0, capture_of(contents)->Ok_0.1),
{
    let lines = text_lines(contents);
    lemma_records_stop_once(lines, lines.len());
}

/// A read event whose times run forward: due, then started, then finished.
pub open spec fn timing_runs_forward(event: EventView) -> bool {
    match event {
        EventView::ReadSucceeded { due_us, started_us, finished_us, .. } => due_us <= started_us
            && started_us <= finished_us,
        EventView::ReadFailed { timing: Some(t), .. } => t.due_us <= t.started_us && t.started_us
            <= t.finished_us,
        _ => true,
    }
}

proof fn lemma_decoded_timing_runs_forward(fields: Fields, line: nat)
    requires
        decode_event(fields, line) is Ok,
    ensures
        timing_runs_forward(decode_event(fields, line)->Ok_0),
{
}

proof fn lemma_records_timing(lines: Seq<Seq<char>>, k: nat)
    requires
        records_upto(lines, k) is Ok,
    ensures
        forall|i: int| 0 <= i < records_upto(lines, k)->Ok_0.0.len() ==> timing_runs_forward(
            #[trigger] records_upto(lines, k)->Ok_0.0[i],
        ),
    decreases k,
{
    if k > 1 {
        lemma_records_timing(lines, (k - 1) as nat);
        let (events, stopped) = records_upto(lines, (k - 1) as nat)->Ok_0;
        let text = lines[k - 1];
        let fields = record_fields(text, k)->Ok_0;
        lemma_decoded_timing_runs_forward(fields, k);
        let after = records_upto(lines, k)->Ok_0.0;
        assert forall|i: int| 0 <= i < after.len() implies timing_runs_forward(#[trigger] after[i]) by {
            if i < events.len() {
                assert(after[i] == events[i]);
            }
        }
    }
}

/// Every read in a capture that reads back has its times in order: due,
/// started, finished.
pub proof fn law_read_captures_keep_read_times_in_order(contents: Seq<char>)
    requires
        capture_of(contents) is Ok,
    ensures
        forall|i: int| 0 <= i < capture_of(contents)->Ok_0.0.len() ==> timing_runs_forward(
            #[trigger] capture_of(contents)->Ok_0.0[i],
        ),
{
    let lines = text_lines(contents);
    lemma_records_timing(lines, lines.len());
}

// ---------------------------------------------------------------------------
// Writing records.
// ---------------------------------------------------------------------------

/// An uppercase hexadecimal digit.
pub open spec fn hex_digit_upper(d: int) -> char {
    if d < 10 {
        (d + 48) as char
    } else {
        (d + 55) as char
    }
}

pub open spec fn byte_hex(b: u8) -> Seq<char> {
    seq![hex_digit_upper(b as int / 16), hex_digit_upper(b as int % 16)]
}

/// Bytes as uppercase hex pairs separated by single spaces.
pub open spec fn hex_text(bytes: Seq<u8>) -> Seq<char>
    decreases bytes.len(),
{
    if bytes.len() == 0 {
        Seq::empty()
    } else if bytes.len() == 1 {
        byte_hex(bytes[0])
    } else {
        hex_text(bytes.drop_last()) + seq![' '] + byte_hex(bytes.last())
    }
}

proof fn lemma_decimal_reads_back(n: nat)
    ensures
        decimal(n).len() > 0,
        all_digits(decimal(n)),
        plain_numeral(decimal(n)),
        decimal_value(decimal(n)) == n,
    decreases n,
{
    let d = n % 10;
    let c = crate::text::digit_char(d);
    assert(c as int == d + 48);
    if n >= 10 {
        lemma_decimal_reads_back(n / 10);
        let s = decimal(n / 10);
        assert(decimal(n) == s.push(c));
        assert(decimal(n).drop_last() =~= s);
        assert(decimal(n).last() == c);
        assert(n == (n / 10) * 10 + d);
        assert(decimal_value(decimal(n)) == decimal_value(s) * 10 + (c as int - '0' as int));
    } else {
        assert(decimal(n) == seq![c]);
        assert(decimal(n).drop_last() =~= Seq::<char>::empty());
        assert(decimal(n).last() == c);
        assert(decimal_value(decimal(n)) == decimal_value(Seq::<char>::empty()) * 10 + (c as int - '0' as int));
    }
    assert(all_digits(decimal(n)));
}

proof fn lemma_pieces_split_append(text: Seq<char>, sep: char, piece: Seq<char>)
    requires
        !piece.contains(sep),
    ensures
        pieces_split(text + seq![sep] + piece, sep) == pieces_split(text, sep).push(piece),
    decreases piece.len(),
{
    let s = text + seq![sep] + piece;
    if piece.len() == 0 {
        assert(s.drop_last() =~= text);
        assert(s.last() == sep);
        assert(piece =~= Seq::<char>::empty());
    } else {
        let shorter = piece.drop_last();
        let c = piece.last();
        assert(piece[piece.len() - 1] == c);
        assert(c != sep);
        assert(!shorter.contains(sep)) by {
            if shorter.contains(sep) {
                let k = choose|k: int| 0 <= k < shorter.len() && shorter[k] == sep;
                assert(piece[k] == sep);
            }
        }
        lemma_pieces_split_append(text, sep, shorter);
        assert(s.drop_last() =~= text + seq![sep] + shorter);
        assert(s.last() == c);
        let rest = pieces_split(text + seq![sep] + shorter, sep);
        assert(rest == pieces_split(text, sep).push(shorter));
        assert(shorter.push(c) =~= piece);
        assert(rest.update(rest.len() - 1, rest.last().push(c)) =~= pieces_split(text, sep).push(piece));
    }
}

proof fn lemma_pieces_split_whole(piece: Seq<char>, sep: char)
    requires
        !piece.contains(sep),
    ensures
        pieces_split(piece, sep) == seq![piece],
    decreases piece.len(),
{
    if piece.len() > 0 {
        let shorter = piece.drop_last();
        assert(!shorter.contains(sep)) by {
            if shorter.contains(sep) {
                let k = choose|k: int| 0 <= k < shorter.len() && shorter[k] == sep;
                assert(piece[k] == sep);
            }
        }
        lemma_pieces_split_whole(shorter, sep);
        assert(piece.last() == piece[piece.len() - 1]);
        assert(shorter.push(piece.last()) =~= piece);
        assert(seq![shorter].update(0, piece) =~= seq![piece]);
    } else {
        assert(piece =~= Seq::<char>::empty());
    }
}

proof fn lemma_byte_hex_reads_back(b: u8, line: nat)
    ensures
        byte_hex(b).len() == 2,
        !byte_hex(b).contains(' '),
        is_upper_hex(byte_hex(b)[0]) && is_upper_hex(byte_hex(b)[1]),
        is_any_hex(byte_hex(b)[0]) && is_any_hex(byte_hex(b)[1]),
        nibble(byte_hex(b)[0]) * 16 + nibble(byte_hex(b)[1]) == b as int,
{
    let hi = b as int / 16;
    let lo = b as int % 16;
    assert(((hi + 48) as char) as int == hi + 48);
    assert(((hi + 55) as char) as int == hi + 55);
    assert(((lo + 48) as char) as int == lo + 48);
    assert(((lo + 55) as char) as int == lo + 55);
    assert(!byte_hex(b).contains(' ')) by {
        if byte_hex(b).contains(' ') {
            let k = choose|k: int| 0 <= k < byte_hex(b).len() && byte_hex(b)[k] == ' ';
            assert(k == 0 || k == 1);
        }
    }
}

/// The hex pieces of written bytes are the byte pairs.
proof fn lemma_hex_text_pieces(bytes: Seq<u8>)
    requires
        bytes.len() > 0,
    ensures
        pieces_split(hex_text(bytes), ' ') == bytes.map_values(|b: u8| byte_hex(b)),
    decreases bytes.len(),
{
    if bytes.len() == 1 {
        lemma_byte_hex_reads_back(bytes[0], 0);
        lemma_pieces_split_whole(byte_hex(bytes[0]), ' ');
        assert(bytes.map_values(|b: u8| byte_hex(b)) =~= seq![byte_hex(bytes[0])]);
    } else {
        lemma_hex_text_pieces(bytes.drop_last());
        lemma_byte_hex_reads_back(bytes.last(), 0);
        lemma_pieces_split_append(hex_text(bytes.drop_last()), ' ', byte_hex(bytes.last()));
        assert(bytes.map_values(|b: u8| byte_hex(b)) =~= bytes.drop_last().map_values(|b: u8| byte_hex(b)).push(
            byte_hex(bytes.last()),
        ));
    }
}

proof fn lemma_hex_pieces_read_back(bytes: Seq<u8>, line: nat)
    ensures
        hex_pieces(bytes.map_values(|b: u8| byte_hex(b)), line) == Ok::<Seq<u8>, Seq<char>>(bytes),
    decreases bytes.len(),
{
    let pieces = bytes.map_values(|b: u8| byte_hex(b));
    if bytes.len() > 0 {
        lemma_hex_pieces_read_back(bytes.drop_last(), line);
        assert(pieces.drop_last() =~= bytes.drop_last().map_values(|b: u8| byte_hex(b)));
        lemma_byte_hex_reads_back(bytes.last(), line);
        let piece = pieces.last();
        assert(piece == byte_hex(bytes.last()));
        let value = nibble(piece[0]) * 16 + nibble(piece[1]);
        assert(value == bytes.last() as int);
        assert(value as u8 == bytes.last());
        assert(bytes.drop_last().push(value as u8) =~= bytes);
        assert(hex_pieces(pieces, line) == Ok::<Seq<u8>, Seq<char>>(bytes.drop_last().push(value as u8)));
    } else {
        assert(pieces.len() == 0);
        assert(bytes =~= Seq::<u8>::empty());
    }
}

/// Written hex reads back as the same bytes.
proof fn lemma_hex_reads_back(bytes: Seq<u8>, line: nat)
    ensures
        hex_bytes(hex_text(bytes), line) == Ok::<Seq<u8>, Seq<char>>(bytes),
{
    if bytes.len() == 0 {
        assert(bytes =~= Seq::<u8>::empty());
    } else {
        lemma_hex_text_pieces(bytes);
        lemma_hex_pieces_read_back(bytes, line);
        lemma_hex_text_nonempty(bytes);
    }
}

proof fn lemma_hex_text_nonempty(bytes: Seq<u8>)
    requires
        bytes.len() > 0,
    ensures
        hex_text(bytes).len() > 0,
    decreases bytes.len(),
{
    if bytes.len() > 1 {
        lemma_hex_text_nonempty(bytes.drop_last());
    }
}

/// The fields of a record: each name with the value at the same place.
pub open spec fn zip_fields(names: Seq<Seq<char>>, values: Seq<JsonView>) -> Fields {
    Seq::new(names.len(), |i: int| (names[i], values[i]))
}

pub open spec fn num(n: u64) -> JsonView {
    JsonView::Number(decimal(n as nat))
}

pub open spec fn opt_num(n: Option<u64>) -> JsonView {
    match n {
        Some(v) => num(v),
        None => JsonView::Null,
    }
}

pub open spec fn opt_str(t: Option<Seq<char>>) -> JsonView {
    match t {
        Some(s) => JsonView::Text(s),
        None => JsonView::Null,
    }
}

pub open spec fn hex_json(bytes: Seq<u8>) -> JsonView {
    JsonView::Text(hex_text(bytes))
}

/// The values every record starts with: schema, version, type and sequence.
pub open spec fn head_values(kind: Seq<char>, sequence: u64) -> Seq<JsonView> {
    seq![JsonView::Text("OBDENTIC-CAPTURE"@), num(1), JsonView::Text(kind), num(sequence)]
}

pub open spec fn filter_text(filter: SubscriptionFilterOutcome) -> Seq<char> {
    match filter {
        SubscriptionFilterOutcome::Scheduled => "scheduled"@,
        SubscriptionFilterOutcome::Unsupported => "unsupported"@,
        SubscriptionFilterOutcome::Unknown => "unknown"@,
    }
}

/// The value object of a successful read.
pub open spec fn value_json(value: ValueView) -> JsonView {
    match value {
        ValueView::Number(n) => JsonView::Object(
            zip_fields(seq!["type"@, "value"@], seq![JsonView::Text("number"@), JsonView::Number(n)]),
        ),
        ValueView::Boolean(b) => JsonView::Object(
            zip_fields(seq!["type"@, "value"@], seq![JsonView::Text("boolean"@), JsonView::Bool(b)]),
        ),
        ValueView::Enum(e) => JsonView::Object(
            zip_fields(seq!["type"@, "value"@], seq![JsonView::Text("enum"@), JsonView::Text(e)]),
        ),
        ValueView::Text(s) => JsonView::Object(
            zip_fields(seq!["type"@, "value"@], seq![JsonView::Text("text"@), JsonView::Text(s)]),
        ),
        ValueView::Unavailable(r) => JsonView::Object(
            zip_fields(seq!["type"@, "reason"@], seq![JsonView::Text("unavailable"@), JsonView::Text(r)]),
        ),
    }
}

pub open spec fn timing_part(timing: Option<ReadTiming>, part: int) -> JsonView {
    match timing {
        Some(t) => num(if part == 0 { t.due_us } else if part == 1 { t.started_us } else { t.finished_us }),
        None => JsonView::Null,
    }
}

/// The fields of the record that writes an event.
pub open spec fn record_fields_of(sequence: u64, event: EventView) -> Fields {
    match event {
        EventView::CaptureStarted { wallclock_ms, profile } => zip_fields(
            base_fields() + seq!["wallclock_ms"@, "profile"@],
            head_values("capture_started"@, sequence) + seq![opt_num(wallclock_ms), opt_str(profile)],
        ),
        EventView::SessionInitialized => zip_fields(base_fields(), head_values("session_initialized"@, sequence)),
        EventView::SubscriptionConfigured { semantic, requested_interval_us, filter } => zip_fields(
            base_fields() + seq!["semantic"@, "requested_interval_us"@, "filter_outcome"@],
            head_values("subscription_configured"@, sequence) + seq![
                JsonView::Text(semantic),
                num(requested_interval_us),
                JsonView::Text(filter_text(filter)),
            ],
        ),
        EventView::SupportDiscovery { request_payload, response_payload, .. } => zip_fields(
            base_fields() + seq!["request_payload"@, "response_payload"@],
            head_values("support_discovery"@, sequence) + seq![hex_json(request_payload), hex_json(response_payload)],
        ),
        EventView::ReadSucceeded {
            semantic,
            requested_interval_us,
            due_us,
            started_us,
            finished_us,
            request_payload,
            response_payload,
            value,
            unit,
            source,
            profile,
            decoder,
            provenance,
        } => zip_fields(
            succeeded_names(),
            head_values("read_succeeded"@, sequence) + seq![
                JsonView::Text(semantic),
                num(requested_interval_us),
                num(due_us),
                num(started_us),
                num(finished_us),
                hex_json(request_payload),
                hex_json(response_payload),
                value_json(value),
                JsonView::Text(unit),
                JsonView::Text(source),
                JsonView::Text(profile),
                JsonView::Text(decoder),
                JsonView::Text(provenance),
            ],
        ),
        EventView::ReadFailed { semantic, requested_interval_us, timing, request_payload, error } => zip_fields(
            failed_names(),
            head_values("read_failed"@, sequence) + seq![
                JsonView::Text(semantic),
                num(requested_interval_us),
                timing_part(timing, 0),
                timing_part(timing, 1),
                timing_part(timing, 2),
                match request_payload {
                    Some(bytes) => hex_json(bytes),
                    None => JsonView::Null,
                },
                JsonView::Text(error),
            ],
        ),
        EventView::SlotsSkipped { semantic, count, first_due_us, last_due_us } => zip_fields(
            base_fields() + seq!["semantic"@, "count"@, "first_due_us"@, "last_due_us"@],
            head_values("slots_skipped"@, sequence) + seq![
                JsonView::Text(semantic),
                num(count),
                num(first_due_us),
                num(last_due_us),
            ],
        ),
        EventView::SessionError { error } => zip_fields(
            base_fields() + seq!["error"@],
            head_values("session_error"@, sequence) + seq![JsonView::Text(error)],
        ),
        EventView::ShutdownRequested => zip_fields(base_fields(), head_values("shutdown_requested"@, sequence)),
        EventView::SessionStopped { offset_us } => zip_fields(
            base_fields() + seq!["offset_us"@],
            head_values("session_stopped"@, sequence) + seq![num(offset_us)],
        ),
        EventView::Other => Seq::empty(),
    }
}

proof fn lemma_exact_zip(names: Seq<Seq<char>>, values: Seq<JsonView>)
    requires
        names.len() == values.len(),
    ensures
        exact_fields(zip_fields(names, values), names),
{
    let fields = zip_fields(names, values);
    assert forall|i: int| 0 <= i < names.len() implies field(fields, #[trigger] names[i]) is Some by {
        lemma_field_from_some(fields, names[i], 0, i);
    }
}

proof fn lemma_field_from_some(fields: Fields, name: Seq<char>, k: int, i: int)
    requires
        0 <= k <= i < fields.len(),
        fields[i].0 == name,
    ensures
        field_from(fields, name, k) is Some,
    decreases i - k,
{
    if fields[k].0 != name {
        lemma_field_from_some(fields, name, k + 1, i);
    }
}

/// The field names of records differ from one another.
proof fn lemma_field_names_distinct()
    ensures
        "schema"@ != "version"@,
        "schema"@ != "type"@,
        "schema"@ != "sequence"@,
        "schema"@ != "wallclock_ms"@,
        "schema"@ != "profile"@,
        "schema"@ != "semantic"@,
        "schema"@ != "requested_interval_us"@,
        "schema"@ != "filter_outcome"@,
        "schema"@ != "request_payload"@,
        "schema"@ != "response_payload"@,
        "schema"@ != "due_us"@,
        "schema"@ != "started_us"@,
        "schema"@ != "finished_us"@,
        "schema"@ != "value"@,
        "schema"@ != "unit"@,
        "schema"@ != "source"@,
        "schema"@ != "decoder"@,
        "schema"@ != "provenance"@,
        "schema"@ != "error"@,
        "schema"@ != "count"@,
        "schema"@ != "first_due_us"@,
        "schema"@ != "last_due_us"@,
        "schema"@ != "offset_us"@,
        "schema"@ != "reason"@,
        "version"@ != "type"@,
        "version"@ != "sequence"@,
        "version"@ != "wallclock_ms"@,
        "version"@ != "profile"@,
        "version"@ != "semantic"@,
        "version"@ != "requested_interval_us"@,
        "version"@ != "filter_outcome"@,
        "version"@ != "request_payload"@,
        "version"@ != "response_payload"@,
        "version"@ != "due_us"@,
        "version"@ != "started_us"@,
        "version"@ != "finished_us"@,
        "version"@ != "value"@,
        "version"@ != "unit"@,
        "version"@ != "source"@,
        "version"@ != "decoder"@,
        "version"@ != "provenance"@,
        "version"@ != "error"@,
        "version"@ != "count"@,
        "version"@ != "first_due_us"@,
        "version"@ != "last_due_us"@,
        "version"@ != "offset_us"@,
        "version"@ != "reason"@,
        "type"@ != "sequence"@,
        "type"@ != "wallclock_ms"@,
        "type"@ != "profile"@,
        "type"@ != "semantic"@,
        "type"@ != "requested_interval_us"@,
        "type"@ != "filter_outcome"@,
        "type"@ != "request_payload"@,
        "type"@ != "response_payload"@,
        "type"@ != "due_us"@,
        "type"@ != "started_us"@,
        "type"@ != "finished_us"@,
        "type"@ != "value"@,
        "type"@ != "unit"@,
        "type"@ != "source"@,
        "type"@ != "decoder"@,
        "type"@ != "provenance"@,
        "type"@ != "error"@,
        "type"@ != "count"@,
        "type"@ != "first_due_us"@,
        "type"@ != "last_due_us"@,
        "type"@ != "offset_us"@,
        "type"@ != "reason"@,
        "sequence"@ != "wallclock_ms"@,
        "sequence"@ != "profile"@,
        "sequence"@ != "semantic"@,
        "sequence"@ != "requested_interval_us"@,
        "sequence"@ != "filter_outcome"@,
        "sequence"@ != "request_payload"@,
        "sequence"@ != "response_payload"@,
        "sequence"@ != "due_us"@,
        "sequence"@ != "started_us"@,
        "sequence"@ != "finished_us"@,
        "sequence"@ != "value"@,
        "sequence"@ != "unit"@,
        "sequence"@ != "source"@,
        "sequence"@ != "decoder"@,
        "sequence"@ != "provenance"@,
        "sequence"@ != "error"@,
        "sequence"@ != "count"@,
        "sequence"@ != "first_due_us"@,
        "sequence"@ != "last_due_us"@,
        "sequence"@ != "offset_us"@,
        "sequence"@ != "reason"@,
        "wallclock_ms"@ != "profile"@,
        "wallclock_ms"@ != "semantic"@,
        "wallclock_ms"@ != "requested_interval_us"@,
        "wallclock_ms"@ != "filter_outcome"@,
        "wallclock_ms"@ != "request_payload"@,
        "wallclock_ms"@ != "response_payload"@,
        "wallclock_ms"@ != "due_us"@,
        "wallclock_ms"@ != "started_us"@,
        "wallclock_ms"@ != "finished_us"@,
        "wallclock_ms"@ != "value"@,
        "wallclock_ms"@ != "unit"@,
        "wallclock_ms"@ != "source"@,
        "wallclock_ms"@ != "decoder"@,
        "wallclock_ms"@ != "provenance"@,
        "wallclock_ms"@ != "error"@,
        "wallclock_ms"@ != "count"@,
        "wallclock_ms"@ != "first_due_us"@,
        "wallclock_ms"@ != "last_due_us"@,
        "wallclock_ms"@ != "offset_us"@,
        "wallclock_ms"@ != "reason"@,
        "profile"@ != "semantic"@,
        "profile"@ != "requested_interval_us"@,
        "profile"@ != "filter_outcome"@,
        "profile"@ != "request_payload"@,
        "profile"@ != "response_payload"@,
        "profile"@ != "due_us"@,
        "profile"@ != "started_us"@,
        "profile"@ != "finished_us"@,
        "profile"@ != "value"@,
        "profile"@ != "unit"@,
        "profile"@ != "source"@,
        "profile"@ != "decoder"@,
        "profile"@ != "provenance"@,
        "profile"@ != "error"@,
        "profile"@ != "count"@,
        "profile"@ != "first_due_us"@,
        "profile"@ != "last_due_us"@,
        "profile"@ != "offset_us"@,
        "profile"@ != "reason"@,
        "semantic"@ != "requested_interval_us"@,
        "semantic"@ != "filter_outcome"@,
        "semantic"@ != "request_payload"@,
        "semantic"@ != "response_payload"@,
        "semantic"@ != "due_us"@,
        "semantic"@ != "started_us"@,
        "semantic"@ != "finished_us"@,
        "semantic"@ != "value"@,
        "semantic"@ != "unit"@,
        "semantic"@ != "source"@,
        "semantic"@ != "decoder"@,
        "semantic"@ != "provenance"@,
        "semantic"@ != "error"@,
        "semantic"@ != "count"@,
        "semantic"@ != "first_due_us"@,
        "semantic"@ != "last_due_us"@,
        "semantic"@ != "offset_us"@,
        "semantic"@ != "reason"@,
        "requested_interval_us"@ != "filter_outcome"@,
        "requested_interval_us"@ != "request_payload"@,
        "requested_interval_us"@ != "response_payload"@,
        "requested_interval_us"@ != "due_us"@,
        "requested_interval_us"@ != "started_us"@,
        "requested_interval_us"@ != "finished_us"@,
        "requested_interval_us"@ != "value"@,
        "requested_interval_us"@ != "unit"@,
        "requested_interval_us"@ != "source"@,
        "requested_interval_us"@ != "decoder"@,
        "requested_interval_us"@ != "provenance"@,
        "requested_interval_us"@ != "error"@,
        "requested_interval_us"@ != "count"@,
        "requested_interval_us"@ != "first_due_us"@,
        "requested_interval_us"@ != "last_due_us"@,
        "requested_interval_us"@ != "offset_us"@,
        "requested_interval_us"@ != "reason"@,
        "filter_outcome"@ != "request_payload"@,
        "filter_outcome"@ != "response_payload"@,
        "filter_outcome"@ != "due_us"@,
        "filter_outcome"@ != "started_us"@,
        "filter_outcome"@ != "finished_us"@,
        "filter_outcome"@ != "value"@,
        "filter_outcome"@ != "unit"@,
        "filter_outcome"@ != "source"@,
        "filter_outcome"@ != "decoder"@,
        "filter_outcome"@ != "provenance"@,
        "filter_outcome"@ != "error"@,
        "filter_outcome"@ != "count"@,
        "filter_outcome"@ != "first_due_us"@,
        "filter_outcome"@ != "last_due_us"@,
        "filter_outcome"@ != "offset_us"@,
        "filter_outcome"@ != "reason"@,
        "request_payload"@ != "response_payload"@,
        "request_payload"@ != "due_us"@,
        "request_payload"@ != "started_us"@,
        "request_payload"@ != "finished_us"@,
        "request_payload"@ != "value"@,
        "request_payload"@ != "unit"@,
        "request_payload"@ != "source"@,
        "request_payload"@ != "decoder"@,
        "request_payload"@ != "provenance"@,
        "request_payload"@ != "error"@,
        "request_payload"@ != "count"@,
        "request_payload"@ != "first_due_us"@,
        "request_payload"@ != "last_due_us"@,
        "request_payload"@ != "offset_us"@,
        "request_payload"@ != "reason"@,
        "response_payload"@ != "due_us"@,
        "response_payload"@ != "started_us"@,
        "response_payload"@ != "finished_us"@,
        "response_payload"@ != "value"@,
        "response_payload"@ != "unit"@,
        "response_payload"@ != "source"@,
        "response_payload"@ != "decoder"@,
        "response_payload"@ != "provenance"@,
        "response_payload"@ != "error"@,
        "response_payload"@ != "count"@,
        "response_payload"@ != "first_due_us"@,
        "response_payload"@ != "last_due_us"@,
        "response_payload"@ != "offset_us"@,
        "response_payload"@ != "reason"@,
        "due_us"@ != "started_us"@,
        "due_us"@ != "finished_us"@,
        "due_us"@ != "value"@,
        "due_us"@ != "unit"@,
        "due_us"@ != "source"@,
        "due_us"@ != "decoder"@,
        "due_us"@ != "provenance"@,
        "due_us"@ != "error"@,
        "due_us"@ != "count"@,
        "due_us"@ != "first_due_us"@,
        "due_us"@ != "last_due_us"@,
        "due_us"@ != "offset_us"@,
        "due_us"@ != "reason"@,
        "started_us"@ != "finished_us"@,
        "started_us"@ != "value"@,
        "started_us"@ != "unit"@,
        "started_us"@ != "source"@,
        "started_us"@ != "decoder"@,
        "started_us"@ != "provenance"@,
        "started_us"@ != "error"@,
        "started_us"@ != "count"@,
        "started_us"@ != "first_due_us"@,
        "started_us"@ != "last_due_us"@,
        "started_us"@ != "offset_us"@,
        "started_us"@ != "reason"@,
        "finished_us"@ != "value"@,
        "finished_us"@ != "unit"@,
        "finished_us"@ != "source"@,
        "finished_us"@ != "decoder"@,
        "finished_us"@ != "provenance"@,
        "finished_us"@ != "error"@,
        "finished_us"@ != "count"@,
        "finished_us"@ != "first_due_us"@,
        "finished_us"@ != "last_due_us"@,
        "finished_us"@ != "offset_us"@,
        "finished_us"@ != "reason"@,
        "value"@ != "unit"@,
        "value"@ != "source"@,
        "value"@ != "decoder"@,
        "value"@ != "provenance"@,
        "value"@ != "error"@,
        "value"@ != "count"@,
        "value"@ != "first_due_us"@,
        "value"@ != "last_due_us"@,
        "value"@ != "offset_us"@,
        "value"@ != "reason"@,
        "unit"@ != "source"@,
        "unit"@ != "decoder"@,
        "unit"@ != "provenance"@,
        "unit"@ != "error"@,
        "unit"@ != "count"@,
        "unit"@ != "first_due_us"@,
        "unit"@ != "last_due_us"@,
        "unit"@ != "offset_us"@,
        "unit"@ != "reason"@,
        "source"@ != "decoder"@,
        "source"@ != "provenance"@,
        "source"@ != "error"@,
        "source"@ != "count"@,
        "source"@ != "first_due_us"@,
        "source"@ != "last_due_us"@,
        "source"@ != "offset_us"@,
        "source"@ != "reason"@,
        "decoder"@ != "provenance"@,
        "decoder"@ != "error"@,
        "decoder"@ != "count"@,
        "decoder"@ != "first_due_us"@,
        "decoder"@ != "last_due_us"@,
        "decoder"@ != "offset_us"@,
        "decoder"@ != "reason"@,
        "provenance"@ != "error"@,
        "provenance"@ != "count"@,
        "provenance"@ != "first_due_us"@,
        "provenance"@ != "last_due_us"@,
        "provenance"@ != "offset_us"@,
        "provenance"@ != "reason"@,
        "error"@ != "count"@,
        "error"@ != "first_due_us"@,
        "error"@ != "last_due_us"@,
        "error"@ != "offset_us"@,
        "error"@ != "reason"@,
        "count"@ != "first_due_us"@,
        "count"@ != "last_due_us"@,
        "count"@ != "offset_us"@,
        "count"@ != "reason"@,
        "first_due_us"@ != "last_due_us"@,
        "first_due_us"@ != "offset_us"@,
        "first_due_us"@ != "reason"@,
        "last_due_us"@ != "offset_us"@,
        "last_due_us"@ != "reason"@,
        "offset_us"@ != "reason"@,
{
    reveal_strlit("schema");
    assert("schema"@.len() == 6);
    reveal_strlit("version");
    assert("version"@.len() == 7);
    reveal_strlit("type");
    assert("type"@.len() == 4);
    reveal_strlit("sequence");
    assert("sequence"@.len() == 8);
    reveal_strlit("wallclock_ms");
    assert("wallclock_ms"@.len() == 12);
    reveal_strlit("profile");
    assert("profile"@.len() == 7);
    reveal_strlit("semantic");
    assert("semantic"@.len() == 8);
    reveal_strlit("requested_interval_us");
    assert("requested_interval_us"@.len() == 21);
    reveal_strlit("filter_outcome");
    assert("filter_outcome"@.len() == 14);
    reveal_strlit("request_payload");
    assert("request_payload"@.len() == 15);
    reveal_strlit("response_payload");
    assert("response_payload"@.len() == 16);
    reveal_strlit("due_us");
    assert("due_us"@.len() == 6);
    reveal_strlit("started_us");
    assert("started_us"@.len() == 10);
    reveal_strlit("finished_us");
    assert("finished_us"@.len() == 11);
    reveal_strlit("value");
    assert("value"@.len() == 5);
    reveal_strlit("unit");
    assert("unit"@.len() == 4);
    reveal_strlit("source");
    assert("source"@.len() == 6);
    reveal_strlit("decoder");
    assert("decoder"@.len() == 7);
    reveal_strlit("provenance");
    assert("provenance"@.len() == 10);
    reveal_strlit("error");
    assert("error"@.len() == 5);
    reveal_strlit("count");
    assert("count"@.len() == 5);
    reveal_strlit("first_due_us");
    assert("first_due_us"@.len() == 12);
    reveal_strlit("last_due_us");
    assert("last_due_us"@.len() == 11);
    reveal_strlit("offset_us");
    assert("offset_us"@.len() == 9);
    reveal_strlit("reason");
    assert("reason"@.len() == 6);
    assert("schema"@[0] == 's' && "due_us"@[0] == 'd');
    assert("schema"@[1] == 'c' && "source"@[1] == 'o');
    assert("schema"@[0] == 's' && "reason"@[0] == 'r');
    assert("version"@[0] == 'v' && "profile"@[0] == 'p');
    assert("version"@[0] == 'v' && "decoder"@[0] == 'd');
    assert("type"@[0] == 't' && "unit"@[0] == 'u');
    assert("sequence"@[2] == 'q' && "semantic"@[2] == 'm');
    assert("wallclock_ms"@[0] == 'w' && "first_due_us"@[0] == 'f');
    assert("profile"@[0] == 'p' && "decoder"@[0] == 'd');
    assert("due_us"@[0] == 'd' && "source"@[0] == 's');
    assert("due_us"@[0] == 'd' && "reason"@[0] == 'r');
    assert("started_us"@[0] == 's' && "provenance"@[0] == 'p');
    assert("finished_us"@[0] == 'f' && "last_due_us"@[0] == 'l');
    assert("value"@[0] == 'v' && "error"@[0] == 'e');
    assert("value"@[0] == 'v' && "count"@[0] == 'c');
    assert("source"@[0] == 's' && "reason"@[0] == 'r');
    assert("error"@[0] == 'e' && "count"@[0] == 'c');
}

/// The event kinds differ from one another.
proof fn lemma_event_kinds_distinct()
    ensures
        "capture_started"@ != "session_initialized"@,
        "capture_started"@ != "subscription_configured"@,
        "capture_started"@ != "support_discovery"@,
        "capture_started"@ != "read_succeeded"@,
        "capture_started"@ != "read_failed"@,
        "capture_started"@ != "slots_skipped"@,
        "capture_started"@ != "session_error"@,
        "capture_started"@ != "shutdown_requested"@,
        "capture_started"@ != "session_stopped"@,
        "session_initialized"@ != "subscription_configured"@,
        "session_initialized"@ != "support_discovery"@,
        "session_initialized"@ != "read_succeeded"@,
        "session_initialized"@ != "read_failed"@,
        "session_initialized"@ != "slots_skipped"@,
        "session_initialized"@ != "session_error"@,
        "session_initialized"@ != "shutdown_requested"@,
        "session_initialized"@ != "session_stopped"@,
        "subscription_configured"@ != "support_discovery"@,
        "subscription_configured"@ != "read_succeeded"@,
        "subscription_configured"@ != "read_failed"@,
        "subscription_configured"@ != "slots_skipped"@,
        "subscription_configured"@ != "session_error"@,
        "subscription_configured"@ != "shutdown_requested"@,
        "subscription_configured"@ != "session_stopped"@,
        "support_discovery"@ != "read_succeeded"@,
        "support_discovery"@ != "read_failed"@,
        "support_discovery"@ != "slots_skipped"@,
        "support_discovery"@ != "session_error"@,
        "support_discovery"@ != "shutdown_requested"@,
        "support_discovery"@ != "session_stopped"@,
        "read_succeeded"@ != "read_failed"@,
        "read_succeeded"@ != "slots_skipped"@,
        "read_succeeded"@ != "session_error"@,
        "read_succeeded"@ != "shutdown_requested"@,
        "read_succeeded"@ != "session_stopped"@,
        "read_failed"@ != "slots_skipped"@,
        "read_failed"@ != "session_error"@,
        "read_failed"@ != "shutdown_requested"@,
        "read_failed"@ != "session_stopped"@,
        "slots_skipped"@ != "session_error"@,
        "slots_skipped"@ != "shutdown_requested"@,
        "slots_skipped"@ != "session_stopped"@,
        "session_error"@ != "shutdown_requested"@,
        "session_error"@ != "session_stopped"@,
        "shutdown_requested"@ != "session_stopped"@,
{
    reveal_strlit("capture_started");
    assert("capture_started"@.len() == 15);
    reveal_strlit("session_initialized");
    assert("session_initialized"@.len() == 19);
    reveal_strlit("subscription_configured");
    assert("subscription_configured"@.len() == 23);
    reveal_strlit("support_discovery");
    assert("support_discovery"@.len() == 17);
    reveal_strlit("read_succeeded");
    assert("read_succeeded"@.len() == 14);
    reveal_strlit("read_failed");
    assert("read_failed"@.len() == 11);
    reveal_strlit("slots_skipped");
    assert("slots_skipped"@.len() == 13);
    reveal_strlit("session_error");
    assert("session_error"@.len() == 13);
    reveal_strlit("shutdown_requested");
    assert("shutdown_requested"@.len() == 18);
    reveal_strlit("session_stopped");
    assert("session_stopped"@.len() == 15);
    assert("capture_started"@[0] == 'c' && "session_stopped"@[0] == 's');
    assert("slots_skipped"@[1] == 'l' && "session_error"@[1] == 'e');
}

/// The value kinds and the filter outcomes differ from one another.
proof fn lemma_value_words_distinct()
    ensures
        "number"@ != "boolean"@,
        "number"@ != "enum"@,
        "number"@ != "text"@,
        "number"@ != "unavailable"@,
        "number"@ != "scheduled"@,
        "number"@ != "unsupported"@,
        "number"@ != "unknown"@,
        "boolean"@ != "enum"@,
        "boolean"@ != "text"@,
        "boolean"@ != "unavailable"@,
        "boolean"@ != "scheduled"@,
        "boolean"@ != "unsupported"@,
        "boolean"@ != "unknown"@,
        "enum"@ != "text"@,
        "enum"@ != "unavailable"@,
        "enum"@ != "scheduled"@,
        "enum"@ != "unsupported"@,
        "enum"@ != "unknown"@,
        "text"@ != "unavailable"@,
        "text"@ != "scheduled"@,
        "text"@ != "unsupported"@,
        "text"@ != "unknown"@,
        "unavailable"@ != "scheduled"@,
        "unavailable"@ != "unsupported"@,
        "unavailable"@ != "unknown"@,
        "scheduled"@ != "unsupported"@,
        "scheduled"@ != "unknown"@,
        "unsupported"@ != "unknown"@,
{
    reveal_strlit("number");
    assert("number"@.len() == 6);
    reveal_strlit("boolean");
    assert("boolean"@.len() == 7);
    reveal_strlit("enum");
    assert("enum"@.len() == 4);
    reveal_strlit("text");
    assert("text"@.len() == 4);
    reveal_strlit("unavailable");
    assert("unavailable"@.len() == 11);
    reveal_strlit("scheduled");
    assert("scheduled"@.len() == 9);
    reveal_strlit("unsupported");
    assert("unsupported"@.len() == 11);
    reveal_strlit("unknown");
    assert("unknown"@.len() == 7);
    assert("boolean"@[0] == 'b' && "unknown"@[0] == 'u');
    assert("enum"@[0] == 'e' && "text"@[0] == 't');
    assert("unavailable"@[2] == 'a' && "unsupported"@[2] == 's');
}

/// The head of a written record carries this format's schema and version,
/// and the sequence number.
proof fn lemma_head_reads_back(fields: Fields, kind: Seq<char>, sequence: u64, line: nat)
    requires
        fields.len() >= 4,
        fields[0] == ("schema"@, JsonView::Text("OBDENTIC-CAPTURE"@)),
        fields[1] == ("version"@, num(1)),
        fields[2] == ("type"@, JsonView::Text(kind)),
        fields[3] == ("sequence"@, num(sequence)),
    ensures
        schema_error(fields, line) is None,
        integer_field(fields, "sequence"@, line) == Ok::<u64, Seq<char>>(sequence),
        text_field(fields, "type"@, line) == Ok::<Seq<char>, Seq<char>>(kind),
{
    lemma_field_names_distinct();
    lemma_decimal_reads_back(1);
    lemma_decimal_reads_back(sequence as nat);
    reveal_with_fuel(field_from, 5);
}

proof fn lemma_value_reads_back(value: ValueView, line: nat)
    ensures
        value_of(value_json(value), line) == Ok::<ValueView, Seq<char>>(value),
{
    lemma_field_names_distinct();
    lemma_value_words_distinct();
    let names = match value {
        ValueView::Unavailable(_) => seq!["type"@, "reason"@],
        _ => seq!["type"@, "value"@],
    };
    match value_json(value) {
        JsonView::Object(fields) => {
            lemma_exact_zip(names, fields.map_values(|f: (Seq<char>, JsonView)| f.1));
            assert(fields == zip_fields(names, fields.map_values(|f: (Seq<char>, JsonView)| f.1)));
        },
        _ => {},
    }
    reveal_with_fuel(field_from, 3);
}

/// The record of an event with no fields of its own reads back.
proof fn lemma_plain_reads_back(sequence: u64, event: EventView, line: nat)
    requires
        event is SessionInitialized || event is ShutdownRequested,
    ensures
        decode_event(record_fields_of(sequence, event), line) == Ok::<EventView, Seq<char>>(event),
{
    let kind = if event is SessionInitialized {
        "session_initialized"@
    } else {
        "shutdown_requested"@
    };
    let fields = record_fields_of(sequence, event);
    lemma_head_reads_back(fields, kind, sequence, line);
    lemma_event_kinds_distinct();
    lemma_exact_zip(base_fields(), head_values(kind, sequence));
}

proof fn lemma_stopped_reads_back(sequence: u64, event: EventView, line: nat)
    requires
        event is SessionStopped || event is SessionError,
    ensures
        decode_event(record_fields_of(sequence, event), line) == Ok::<EventView, Seq<char>>(event),
{
    let fields = record_fields_of(sequence, event);
    lemma_field_names_distinct();
    lemma_event_kinds_distinct();
    reveal_with_fuel(field_from, 6);
    match event {
        EventView::SessionStopped { offset_us } => {
            lemma_head_reads_back(fields, "session_stopped"@, sequence, line);
            lemma_exact_zip(base_fields() + seq!["offset_us"@], head_values("session_stopped"@, sequence) + seq![num(offset_us)]);
            lemma_decimal_reads_back(offset_us as nat);
        },
        EventView::SessionError { error } => {
            lemma_head_reads_back(fields, "session_error"@, sequence, line);
            lemma_exact_zip(base_fields() + seq!["error"@], head_values("session_error"@, sequence) + seq![JsonView::Text(error)]);
        },
        _ => {},
    }
}

proof fn lemma_started_reads_back(sequence: u64, event: EventView, line: nat)
    requires
        event is CaptureStarted || event is SubscriptionConfigured,
    ensures
        decode_event(record_fields_of(sequence, event), line) == Ok::<EventView, Seq<char>>(event),
{
    let fields = record_fields_of(sequence, event);
    lemma_field_names_distinct();
    lemma_event_kinds_distinct();
    lemma_value_words_distinct();
    reveal_with_fuel(field_from, 8);
    match event {
        EventView::CaptureStarted { wallclock_ms, profile } => {
            lemma_head_reads_back(fields, "capture_started"@, sequence, line);
            lemma_exact_zip(
                base_fields() + seq!["wallclock_ms"@, "profile"@],
                head_values("capture_started"@, sequence) + seq![opt_num(wallclock_ms), opt_str(profile)],
            );
            if wallclock_ms is Some {
                lemma_decimal_reads_back(wallclock_ms.unwrap() as nat);
            }
        },
        EventView::SubscriptionConfigured { semantic, requested_interval_us, filter } => {
            lemma_head_reads_back(fields, "subscription_configured"@, sequence, line);
            lemma_exact_zip(
                base_fields() + seq!["semantic"@, "requested_interval_us"@, "filter_outcome"@],
                head_values("subscription_configured"@, sequence) + seq![
                    JsonView::Text(semantic),
                    num(requested_interval_us),
                    JsonView::Text(filter_text(filter)),
                ],
            );
            lemma_decimal_reads_back(requested_interval_us as nat);
        },
        _ => {},
    }
}

proof fn lemma_discovery_reads_back(sequence: u64, event: EventView, line: nat)
    requires
        event matches EventView::SupportDiscovery { responder, .. } && responder is None,
    ensures
        decode_event(record_fields_of(sequence, event), line) == Ok::<EventView, Seq<char>>(event),
{
    let fields = record_fields_of(sequence, event);
    lemma_field_names_distinct();
    lemma_event_kinds_distinct();
    reveal_with_fuel(field_from, 7);
    match event {
        EventView::SupportDiscovery { request_payload, response_payload, .. } => {
            lemma_head_reads_back(fields, "support_discovery"@, sequence, line);
            lemma_exact_zip(
                base_fields() + seq!["request_payload"@, "response_payload"@],
                head_values("support_discovery"@, sequence) + seq![hex_json(request_payload), hex_json(response_payload)],
            );
            lemma_hex_reads_back(request_payload, line);
            lemma_hex_reads_back(response_payload, line);
        },
        _ => {},
    }
}

proof fn lemma_skipped_reads_back(sequence: u64, event: EventView, line: nat)
    requires
        event is SlotsSkipped,
    ensures
        decode_event(record_fields_of(sequence, event), line) == Ok::<EventView, Seq<char>>(event),
{
    let fields = record_fields_of(sequence, event);
    lemma_field_names_distinct();
    lemma_event_kinds_distinct();
    reveal_with_fuel(field_from, 9);
    match event {
        EventView::SlotsSkipped { semantic, count, first_due_us, last_due_us } => {
            lemma_head_reads_back(fields, "slots_skipped"@, sequence, line);
            lemma_exact_zip(
                base_fields() + seq!["semantic"@, "count"@, "first_due_us"@, "last_due_us"@],
                head_values("slots_skipped"@, sequence) + seq![
                    JsonView::Text(semantic),
                    num(count),
                    num(first_due_us),
                    num(last_due_us),
                ],
            );
            lemma_decimal_reads_back(count as nat);
            lemma_decimal_reads_back(first_due_us as nat);
            lemma_decimal_reads_back(last_due_us as nat);
        },
        _ => {},
    }
}

#[verifier::rlimit(100)]
#[verifier::spinoff_prover]
proof fn lemma_succeeded_fields(fields: Fields, values: Seq<JsonView>)
    requires
        values.len() == 17,
        fields == zip_fields(succeeded_names(), values),
    ensures
        field(fields, "schema"@) == Some(values[0]),
        field(fields, "version"@) == Some(values[1]),
        field(fields, "type"@) == Some(values[2]),
        field(fields, "sequence"@) == Some(values[3]),
        field(fields, "semantic"@) == Some(values[4]),
        field(fields, "requested_interval_us"@) == Some(values[5]),
        field(fields, "due_us"@) == Some(values[6]),
        field(fields, "started_us"@) == Some(values[7]),
        field(fields, "finished_us"@) == Some(values[8]),
        field(fields, "request_payload"@) == Some(values[9]),
        field(fields, "response_payload"@) == Some(values[10]),
        field(fields, "value"@) == Some(values[11]),
        field(fields, "unit"@) == Some(values[12]),
        field(fields, "source"@) == Some(values[13]),
        field(fields, "profile"@) == Some(values[14]),
        field(fields, "decoder"@) == Some(values[15]),
        field(fields, "provenance"@) == Some(values[16]),
{
    lemma_field_names_distinct();
    reveal_with_fuel(field_from, 18);
}

#[verifier::rlimit(100)]
proof fn lemma_failed_fields(fields: Fields, values: Seq<JsonView>)
    requires
        values.len() == 11,
        fields == zip_fields(failed_names(), values),
    ensures
        field(fields, "schema"@) == Some(values[0]),
        field(fields, "version"@) == Some(values[1]),
        field(fields, "type"@) == Some(values[2]),
        field(fields, "sequence"@) == Some(values[3]),
        field(fields, "semantic"@) == Some(values[4]),
        field(fields, "requested_interval_us"@) == Some(values[5]),
        field(fields, "due_us"@) == Some(values[6]),
        field(fields, "started_us"@) == Some(values[7]),
        field(fields, "finished_us"@) == Some(values[8]),
        field(fields, "request_payload"@) == Some(values[9]),
        field(fields, "error"@) == Some(values[10]),
{
    lemma_field_names_distinct();
    reveal_with_fuel(field_from, 12);
}

#[verifier::rlimit(100)]
#[verifier::spinoff_prover]
proof fn lemma_succeeded_reads_back(sequence: u64, event: EventView, line: nat)
    requires
        event is ReadSucceeded,
        timing_runs_forward(event),
    ensures
        decode_event(record_fields_of(sequence, event), line) == Ok::<EventView, Seq<char>>(event),
{
    let fields = record_fields_of(sequence, event);
    lemma_field_names_distinct();
    lemma_event_kinds_distinct();
    match event {
        EventView::ReadSucceeded {
            semantic,
            requested_interval_us,
            due_us,
            started_us,
            finished_us,
            request_payload,
            response_payload,
            value,
            unit,
            source,
            profile,
            decoder,
            provenance,
        } => {
            let values = head_values("read_succeeded"@, sequence) + seq![
                JsonView::Text(semantic),
                num(requested_interval_us),
                num(due_us),
                num(started_us),
                num(finished_us),
                hex_json(request_payload),
                hex_json(response_payload),
                value_json(value),
                JsonView::Text(unit),
                JsonView::Text(source),
                JsonView::Text(profile),
                JsonView::Text(decoder),
                JsonView::Text(provenance),
            ];
            assert(fields == zip_fields(succeeded_names(), values));
            lemma_succeeded_fields(fields, values);
            lemma_head_reads_back(fields, "read_succeeded"@, sequence, line);
            lemma_exact_zip(succeeded_names(), values);
            lemma_decimal_reads_back(requested_interval_us as nat);
            lemma_decimal_reads_back(due_us as nat);
            lemma_decimal_reads_back(started_us as nat);
            lemma_decimal_reads_back(finished_us as nat);
            lemma_hex_reads_back(request_payload, line);
            lemma_hex_reads_back(response_payload, line);
            lemma_value_reads_back(value, line);
            assert(field(fields, "value"@) == Some(value_json(value)));
            assert(read_texts(fields, line) == Ok::<Seq<Seq<char>>, Seq<char>>(
                seq![unit, source, profile, decoder, provenance],
            ));
        },
        _ => {},
    }
}

#[verifier::rlimit(100)]
#[verifier::spinoff_prover]
proof fn lemma_failed_reads_back(sequence: u64, event: EventView, line: nat)
    requires
        event is ReadFailed,
        timing_runs_forward(event),
    ensures
        decode_event(record_fields_of(sequence, event), line) == Ok::<EventView, Seq<char>>(event),
{
    let fields = record_fields_of(sequence, event);
    lemma_field_names_distinct();
    lemma_event_kinds_distinct();
    match event {
        EventView::ReadFailed { semantic, requested_interval_us, timing, request_payload, error } => {
            let values = head_values("read_failed"@, sequence) + seq![
                JsonView::Text(semantic),
                num(requested_interval_us),
                timing_part(timing, 0),
                timing_part(timing, 1),
                timing_part(timing, 2),
                match request_payload {
                    Some(bytes) => hex_json(bytes),
                    None => JsonView::Null,
                },
                JsonView::Text(error),
            ];
            assert(fields == zip_fields(failed_names(), values));
            lemma_failed_fields(fields, values);
            lemma_head_reads_back(fields, "read_failed"@, sequence, line);
            lemma_exact_zip(failed_names(), values);
            lemma_decimal_reads_back(requested_interval_us as nat);
            match timing {
                Some(t) => {
                    lemma_decimal_reads_back(t.due_us as nat);
                    lemma_decimal_reads_back(t.started_us as nat);
                    lemma_decimal_reads_back(t.finished_us as nat);
                },
                None => {},
            }
            match request_payload {
                Some(bytes) => {
                    lemma_hex_reads_back(bytes, line);
                },
                None => {},
            }
            assert(failed_timing(fields, line) == Ok::<Option<ReadTiming>, Seq<char>>(timing));
            assert(failed_request(fields, line) == Ok::<Option<Seq<u8>>, Seq<char>>(request_payload));
        },
        _ => {},
    }
}

/// A number the format can write: a JSON numeral, short enough to read.
pub open spec fn json_numeral(numeral: Seq<char>) -> bool {
    &&& numeral.len() > 0
    &&& width_sum_fits(numeral)
    &&& number_end(numeral, 0) == Ok::<int, crate::json::JsonError>(numeral.len() as int)
}

/// The events the format writes: the kinds it records, a discovery without
/// a responder, and a number value that is a JSON numeral.
pub open spec fn writable(event: EventView) -> bool {
    match event {
        EventView::Other => false,
        EventView::SupportDiscovery { responder, .. } => responder is None,
        EventView::ReadSucceeded { value, .. } => match value {
            ValueView::Number(n) => json_numeral(n),
            _ => true,
        },
        _ => true,
    }
}

/// Why an event is not written.
pub open spec fn write_refusal(event: EventView) -> Seq<char> {
    if event is ReadSucceeded {
        "capture value cannot be NaN or infinite"@
    } else {
        "capture event is not recorded in JSONL"@
    }
}

/// Every event the format writes, with its times in order, reads back from
/// its record as the same event, under the same sequence number and this
/// format's schema and version.
pub proof fn law_written_records_read_back(sequence: u64, event: EventView, line: nat)
    requires
        writable(event),
        timing_runs_forward(event),
    ensures
        schema_error(record_fields_of(sequence, event), line) is None,
        integer_field(record_fields_of(sequence, event), "sequence"@, line) == Ok::<u64, Seq<char>>(sequence),
        decode_event(record_fields_of(sequence, event), line) == Ok::<EventView, Seq<char>>(event),
{
    let fields = record_fields_of(sequence, event);
    match event {
        EventView::CaptureStarted { .. } => {
            lemma_head_reads_back(fields, "capture_started"@, sequence, line);
            lemma_started_reads_back(sequence, event, line);
        },
        EventView::SubscriptionConfigured { .. } => {
            lemma_head_reads_back(fields, "subscription_configured"@, sequence, line);
            lemma_started_reads_back(sequence, event, line);
        },
        EventView::SessionInitialized => {
            lemma_head_reads_back(fields, "session_initialized"@, sequence, line);
            lemma_plain_reads_back(sequence, event, line);
        },
        EventView::ShutdownRequested => {
            lemma_head_reads_back(fields, "shutdown_requested"@, sequence, line);
            lemma_plain_reads_back(sequence, event, line);
        },
        EventView::SupportDiscovery { .. } => {
            lemma_head_reads_back(fields, "support_discovery"@, sequence, line);
            lemma_discovery_reads_back(sequence, event, line);
        },
        EventView::ReadSucceeded { .. } => {
            lemma_head_reads_back(fields, "read_succeeded"@, sequence, line);
            lemma_succeeded_reads_back(sequence, event, line);
        },
        EventView::ReadFailed { .. } => {
            lemma_head_reads_back(fields, "read_failed"@, sequence, line);
            lemma_failed_reads_back(sequence, event, line);
        },
        EventView::SlotsSkipped { .. } => {
            lemma_head_reads_back(fields, "slots_skipped"@, sequence, line);
            lemma_skipped_reads_back(sequence, event, line);
        },
        EventView::SessionError { .. } => {
            lemma_head_reads_back(fields, "session_error"@, sequence, line);
            lemma_stopped_reads_back(sequence, event, line);
        },
        EventView::SessionStopped { .. } => {
            lemma_head_reads_back(fields, "session_stopped"@, sequence, line);
            lemma_stopped_reads_back(sequence, event, line);
        },
        EventView::Other => {},
    }
}

// ---------------------------------------------------------------------------
// The text of a record.
// ---------------------------------------------------------------------------

/// A character inside a JSON string: quotes, backslashes and control
/// characters escaped, as the writer escapes them.
pub open spec fn escape_json_char(c: char) -> Seq<char> {
    if c == '"' {
        seq!['\\', '"']
    } else if c == '\\' {
        seq!['\\', '\\']
    } else if c == '\n' {
        seq!['\\', 'n']
    } else if c == '\r' {
        seq!['\\', 'r']
    } else if c == '\t' {
        seq!['\\', 't']
    } else if c == '\u{08}' {
        seq!['\\', 'b']
    } else if c == '\u{0c}' {
        seq!['\\', 'f']
    } else if crate::text::is_control_spec(c) {
        seq![
            '\\',
            'u',
            hex_digit_upper((c as int / 4096) % 16),
            hex_digit_upper((c as int / 256) % 16),
            hex_digit_upper((c as int / 16) % 16),
            hex_digit_upper(c as int % 16),
        ]
    } else {
        seq![c]
    }
}

pub open spec fn escaped_json(text: Seq<char>) -> Seq<char>
    decreases text.len(),
{
    if text.len() == 0 {
        Seq::empty()
    } else {
        escaped_json(text.drop_last()) + escape_json_char(text.last())
    }
}

pub open spec fn string_text(text: Seq<char>) -> Seq<char> {
    seq!['"'] + escaped_json(text) + seq!['"']
}

/// The text of a value that is not an object.
pub open spec fn scalar_text(value: JsonView) -> Seq<char> {
    match value {
        JsonView::Null => "null"@,
        JsonView::Bool(b) => if b {
            "true"@
        } else {
            "false"@
        },
        JsonView::Number(n) => n,
        JsonView::Text(t) => string_text(t),
        JsonView::Object(_) => "null"@,
    }
}

pub open spec fn flat_member(f: (Seq<char>, JsonView)) -> Seq<char> {
    string_text(f.0) + seq![':'] + scalar_text(f.1)
}

/// The members of an object whose values are not objects, comma separated.
pub open spec fn flat_members(fields: Fields) -> Seq<char>
    decreases fields.len(),
{
    if fields.len() == 0 {
        Seq::empty()
    } else if fields.len() == 1 {
        flat_member(fields[0])
    } else {
        flat_members(fields.drop_last()) + seq![','] + flat_member(fields.last())
    }
}

/// The text of a value of a record: an object of plain values, or a plain value.
pub open spec fn value_text(value: JsonView) -> Seq<char> {
    match value {
        JsonView::Object(fields) => seq!['{'] + flat_members(fields) + seq!['}'],
        _ => scalar_text(value),
    }
}

pub open spec fn record_member(f: (Seq<char>, JsonView)) -> Seq<char> {
    string_text(f.0) + seq![':'] + value_text(f.1)
}

pub open spec fn record_members(fields: Fields) -> Seq<char>
    decreases fields.len(),
{
    if fields.len() == 0 {
        Seq::empty()
    } else if fields.len() == 1 {
        record_member(fields[0])
    } else {
        record_members(fields.drop_last()) + seq![','] + record_member(fields.last())
    }
}

/// One line of the file: the record's object and a line feed.
pub open spec fn record_text(fields: Fields) -> Seq<char> {
    seq!['{'] + record_members(fields) + seq!['}', '\n']
}

// ---------------------------------------------------------------------------
// Writing records, as computed.
// ---------------------------------------------------------------------------

fn push_text(out: &mut String, text: &str)
    ensures
        final(out)@ == old(out)@ + text@,
{
    let joined = concat(out.as_str(), text);
    *out = joined;
}

fn push_one(out: &mut String, c: char)
    ensures
        final(out)@ == old(out)@ + seq![c],
{
    crate::text::push_char(out, c);
    proof {
        assert(old(out)@.push(c) =~= old(out)@ + seq![c]);
    }
}

fn hex_digit_exec(d: u32) -> (r: char)
    requires
        d < 16,
    ensures
        r == hex_digit_upper(d as int),
{
    let byte: u8 = if d < 10 {
        (d + 48) as u8
    } else {
        (d + 55) as u8
    };
    byte as char
}

/// Bytes as uppercase hex pairs separated by single spaces.
pub fn hex_string(bytes: &Vec<u8>) -> (r: String)
    ensures
        r@ == hex_text(bytes@),
{
    let mut out = String::new();
    let mut i: usize = 0;
    proof {
        assert(bytes@.take(0) =~= Seq::<u8>::empty());
    }
    while i < bytes.len()
        invariant
            i <= bytes@.len(),
            out@ == hex_text(bytes@.take(i as int)),
        decreases bytes@.len() - i,
    {
        let b = bytes[i];
        let ghost before = out@;
        proof {
            assert(bytes@.take(i + 1).drop_last() =~= bytes@.take(i as int));
            assert(bytes@.take(i + 1).last() == b);
        }
        if i > 0 {
            push_one(&mut out, ' ');
        }
        push_one(&mut out, hex_digit_exec((b / 16) as u32));
        push_one(&mut out, hex_digit_exec((b % 16) as u32));
        proof {
            if i == 0 {
                assert(bytes@.take(1) =~= seq![b]);
                assert(out@ =~= byte_hex(b));
            } else {
                assert(out@ =~= before + seq![' '] + byte_hex(b));
            }
        }
        i += 1;
    }
    proof {
        assert(bytes@.take(bytes@.len() as int) =~= bytes@);
    }
    out
}

fn push_escaped_char(out: &mut String, c: char)
    ensures
        final(out)@ == old(out)@ + escape_json_char(c),
{
    let ghost start = out@;
    if c == '"' || c == '\\' {
        push_one(out, '\\');
        push_one(out, c);
    } else if c == '\n' {
        push_one(out, '\\');
        push_one(out, 'n');
    } else if c == '\r' {
        push_one(out, '\\');
        push_one(out, 'r');
    } else if c == '\t' {
        push_one(out, '\\');
        push_one(out, 't');
    } else if c == '\u{08}' {
        push_one(out, '\\');
        push_one(out, 'b');
    } else if c == '\u{0c}' {
        push_one(out, '\\');
        push_one(out, 'f');
    } else if crate::text::is_control(c) {
        let code = char_code(c) as u32;
        push_one(out, '\\');
        push_one(out, 'u');
        push_one(out, hex_digit_exec((code / 4096) % 16));
        push_one(out, hex_digit_exec((code / 256) % 16));
        push_one(out, hex_digit_exec((code / 16) % 16));
        push_one(out, hex_digit_exec(code % 16));
    } else {
        push_one(out, c);
    }
    proof {
        assert(out@ =~= start + escape_json_char(c));
    }
}

fn push_string_text(out: &mut String, text: &str)
    ensures
        final(out)@ == old(out)@ + string_text(text@),
{
    let ghost start = out@;
    let chars = chars_of(text);
    push_one(out, '"');
    let mut i: usize = 0;
    proof {
        assert(chars@.take(0) =~= Seq::<char>::empty());
        assert(out@ =~= start + seq!['"'] + escaped_json(chars@.take(0)));
    }
    while i < chars.len()
        invariant
            i <= chars@.len(),
            chars@ == text@,
            out@ == start + seq!['"'] + escaped_json(chars@.take(i as int)),
        decreases chars@.len() - i,
    {
        let c = chars[i];
        proof {
            assert(chars@.take(i + 1).drop_last() =~= chars@.take(i as int));
            assert(chars@.take(i + 1).last() == c);
        }
        push_escaped_char(out, c);
        proof {
            assert(out@ =~= start + seq!['"'] + escaped_json(chars@.take(i + 1)));
        }
        i += 1;
    }
    proof {
        assert(chars@.take(chars@.len() as int) =~= chars@);
    }
    push_one(out, '"');
    proof {
        assert(out@ =~= start + string_text(text@));
    }
}

fn push_scalar(out: &mut String, value: &Json)
    ensures
        final(out)@ == old(out)@ + scalar_text(json_view(*value)),
{
    match value {
        Json::Null => push_text(out, "null"),
        Json::Bool(b) => if *b {
            push_text(out, "true")
        } else {
            push_text(out, "false")
        },
        Json::Number(n) => push_text(out, n.as_str()),
        Json::Text(t) => push_string_text(out, t.as_str()),
        Json::Object(_) => push_text(out, "null"),
    }
}

fn push_value(out: &mut String, value: &Json)
    ensures
        final(out)@ == old(out)@ + value_text(json_view(*value)),
{
    match value {
        Json::Object(fields) => {
            let ghost start = out@;
            let ghost fv = fields_view(fields@);
            proof {
                lemma_fields_view(fields@);
            }
            push_one(out, '{');
            let mut i: usize = 0;
            proof {
                assert(fv.take(0) =~= Seq::<(Seq<char>, JsonView)>::empty());
                assert(out@ =~= start + seq!['{'] + flat_members(fv.take(0)));
            }
            while i < fields.len()
                invariant
                    i <= fields@.len(),
                    fv == fields_view(fields@),
                    fv.len() == fields@.len(),
                    forall|j: int| 0 <= j < fields@.len() ==> (#[trigger] fv[j]).0 == fields@[j].0@
                        && fv[j].1 == json_view(fields@[j].1),
                    out@ == start + seq!['{'] + flat_members(fv.take(i as int)),
                decreases fields@.len() - i,
            {
                let ghost before = out@;
                proof {
                    assert(fv.take(i + 1).drop_last() =~= fv.take(i as int));
                    assert(fv.take(i + 1).last() == fv[i as int]);
                }
                if i > 0 {
                    push_one(out, ',');
                }
                push_string_text(out, fields[i].0.as_str());
                push_one(out, ':');
                push_scalar(out, &fields[i].1);
                proof {
                    if i == 0 {
                        assert(fv.take(1) =~= seq![fv[0]]);
                        assert(out@ =~= start + seq!['{'] + flat_members(fv.take(1)));
                    } else {
                        assert(out@ =~= before + seq![','] + flat_member(fv[i as int]));
                    }
                }
                i += 1;
            }
            proof {
                assert(fv.take(fields@.len() as int) =~= fv);
            }
            push_one(out, '}');
        },
        _ => push_scalar(out, value),
    }
}

/// The line of a record: its fields as a JSON object, then a line feed.
fn record_line(fields: &Vec<(String, Json)>) -> (r: String)
    ensures
        r@ == record_text(fields_view(fields@)),
{
    let mut out = String::new();
    let ghost fv = fields_view(fields@);
    proof {
        lemma_fields_view(fields@);
    }
    push_one(&mut out, '{');
    let mut i: usize = 0;
    proof {
        assert(fv.take(0) =~= Seq::<(Seq<char>, JsonView)>::empty());
        assert(out@ =~= seq!['{'] + record_members(fv.take(0)));
    }
    while i < fields.len()
        invariant
            i <= fields@.len(),
            fv == fields_view(fields@),
            fv.len() == fields@.len(),
            forall|j: int| 0 <= j < fields@.len() ==> (#[trigger] fv[j]).0 == fields@[j].0@ && fv[j].1
                == json_view(fields@[j].1),
            out@ == seq!['{'] + record_members(fv.take(i as int)),
        decreases fields@.len() - i,
    {
        let ghost before = out@;
        proof {
            assert(fv.take(i + 1).drop_last() =~= fv.take(i as int));
            assert(fv.take(i + 1).last() == fv[i as int]);
        }
        if i > 0 {
            push_one(&mut out, ',');
        }
        push_string_text(&mut out, fields[i].0.as_str());
        push_one(&mut out, ':');
        push_value(&mut out, &fields[i].1);
        proof {
            if i == 0 {
                assert(fv.take(1) =~= seq![fv[0]]);
                assert(out@ =~= seq!['{'] + record_members(fv.take(1)));
            } else {
                assert(out@ =~= before + seq![','] + record_member(fv[i as int]));
            }
        }
        i += 1;
    }
    proof {
        assert(fv.take(fields@.len() as int) =~= fv);
    }
    push_one(&mut out, '}');
    push_one(&mut out, '\n');
    proof {
        assert(out@ =~= record_text(fv));
    }
    out
}

fn push_field(fields: &mut Vec<(String, Json)>, name: &str, value: Json)
    ensures
        fields_view(final(fields)@) == fields_view(old(fields)@).push((name@, json_view(value))),
{
    let field = (owned(name), value);
    proof {
        lemma_fields_view_push(fields@, field);
    }
    fields.push(field);
}

/// The schema, version, type and sequence every record starts with.
fn head_fields(kind: &str, sequence: u64) -> (r: Vec<(String, Json)>)
    ensures
        fields_view(r@) == zip_fields(base_fields(), head_values(kind@, sequence)),
{
    let mut f: Vec<(String, Json)> = Vec::new();
    proof {
        assert(fields_view(f@) =~= Seq::<(Seq<char>, JsonView)>::empty());
    }
    push_field(&mut f, "schema", Json::Text(owned("OBDENTIC-CAPTURE")));
    push_field(&mut f, "version", Json::Number(decimal_text(1)));
    push_field(&mut f, "type", Json::Text(owned(kind)));
    push_field(&mut f, "sequence", Json::Number(decimal_text(sequence)));
    proof {
        assert(fields_view(f@) =~= zip_fields(base_fields(), head_values(kind@, sequence)));
    }
    f
}

fn opt_num_exec(n: Option<u64>) -> (r: Json)
    ensures
        json_view(r) == opt_num(n),
{
    match n {
        Some(v) => Json::Number(decimal_text(v)),
        None => Json::Null,
    }
}

fn opt_str_exec(t: &Option<String>) -> (r: Json)
    ensures
        json_view(r) == opt_str(opt_text(*t)),
{
    match t {
        Some(s) => Json::Text(owned(s.as_str())),
        None => Json::Null,
    }
}

fn filter_text_exec(filter: SubscriptionFilterOutcome) -> (r: &'static str)
    ensures
        r@ == filter_text(filter),
{
    match filter {
        SubscriptionFilterOutcome::Scheduled => "scheduled",
        SubscriptionFilterOutcome::Unsupported => "unsupported",
        SubscriptionFilterOutcome::Unknown => "unknown",
    }
}

fn value_json_exec(value: &CaptureValue) -> (r: Json)
    ensures
        json_view(r) == value_json(value_view(*value)),
{
    let mut f: Vec<(String, Json)> = Vec::new();
    proof {
        assert(fields_view(f@) =~= Seq::<(Seq<char>, JsonView)>::empty());
    }
    match value {
        CaptureValue::Number { numeral } => {
            push_field(&mut f, "type", Json::Text(owned("number")));
            push_field(&mut f, "value", Json::Number(owned(numeral.as_str())));
        },
        CaptureValue::Boolean(b) => {
            push_field(&mut f, "type", Json::Text(owned("boolean")));
            push_field(&mut f, "value", Json::Bool(*b));
        },
        CaptureValue::Enum(e) => {
            push_field(&mut f, "type", Json::Text(owned("enum")));
            push_field(&mut f, "value", Json::Text(owned(e.as_str())));
        },
        CaptureValue::Text(s) => {
            push_field(&mut f, "type", Json::Text(owned("text")));
            push_field(&mut f, "value", Json::Text(owned(s.as_str())));
        },
        CaptureValue::Unavailable { reason } => {
            push_field(&mut f, "type", Json::Text(owned("unavailable")));
            push_field(&mut f, "reason", Json::Text(owned(reason.as_str())));
        },
    }
    let ghost fv = fields_view(f@);
    proof {
        match value_json(value_view(*value)) {
            JsonView::Object(expected) => {
                assert(fv =~= expected);
            },
            _ => {},
        }
    }
    Json::Object(f)
}

fn json_numeral_exec(numeral: &str) -> (r: bool)
    ensures
        r == json_numeral(numeral@),
{
    let chars = chars_of(numeral);
    if chars.len() == 0 || chars.len() as u64 > u64::MAX / 4 {
        return false;
    }
    match number_exec(&chars, 0) {
        Ok(end) => end == chars.len(),
        Err(_) => false,
    }
}

/// The line that records an event under a sequence number. The format
/// records the kinds it reads back, a discovery without a responder, and a
/// number value that is a JSON numeral; anything else is refused.
pub fn event_line(sequence: u64, event: &CaptureEvent) -> (r: Result<String, String>)
    ensures
        writable(event_view(*event)) ==> (r matches Ok(line) && line@ == record_text(
            record_fields_of(sequence, event_view(*event)),
        )),
        !writable(event_view(*event)) ==> (r matches Err(message) && message@ == write_refusal(
            event_view(*event),
        )),
{
    match event {
        CaptureEvent::CaptureStarted { wallclock_ms, profile } => {
            let mut f = head_fields("capture_started", sequence);
            push_field(&mut f, "wallclock_ms", opt_num_exec(*wallclock_ms));
            push_field(&mut f, "profile", opt_str_exec(profile));
            proof {
                assert(fields_view(f@) =~= record_fields_of(sequence, event_view(*event)));
            }
            Ok(record_line(&f))
        },
        CaptureEvent::SessionInitialized => {
            let mut f = head_fields("session_initialized", sequence);
            proof {
                assert(fields_view(f@) =~= record_fields_of(sequence, event_view(*event)));
            }
            Ok(record_line(&f))
        },
        CaptureEvent::SubscriptionConfigured { semantic, requested_interval_us, filter } => {
            let mut f = head_fields("subscription_configured", sequence);
            push_field(&mut f, "semantic", Json::Text(owned(semantic.as_str())));
            push_field(&mut f, "requested_interval_us", Json::Number(decimal_text(*requested_interval_us)));
            push_field(&mut f, "filter_outcome", Json::Text(owned(filter_text_exec(*filter))));
            proof {
                assert(fields_view(f@) =~= record_fields_of(sequence, event_view(*event)));
            }
            Ok(record_line(&f))
        },
        CaptureEvent::SupportDiscovery { request_payload, responder, response_payload } => {
            if responder.is_some() {
                return Err(owned("capture event is not recorded in JSONL"));
            }
            let mut f = head_fields("support_discovery", sequence);
            push_field(&mut f, "request_payload", Json::Text(hex_string(request_payload)));
            push_field(&mut f, "response_payload", Json::Text(hex_string(response_payload)));
            proof {
                assert(fields_view(f@) =~= record_fields_of(sequence, event_view(*event)));
            }
            Ok(record_line(&f))
        },
        CaptureEvent::ReadSucceeded {
            semantic,
            requested_interval_us,
            due_us,
            started_us,
            finished_us,
            request_payload,
            response_payload,
            value,
            unit,
            source,
            profile,
            decoder,
            provenance,
        } => {
            match value {
                CaptureValue::Number { numeral } => {
                    if !json_numeral_exec(numeral.as_str()) {
                        return Err(owned("capture value cannot be NaN or infinite"));
                    }
                },
                _ => {},
            }
            let mut f = head_fields("read_succeeded", sequence);
            push_field(&mut f, "semantic", Json::Text(owned(semantic.as_str())));
            push_field(&mut f, "requested_interval_us", Json::Number(decimal_text(*requested_interval_us)));
            push_field(&mut f, "due_us", Json::Number(decimal_text(*due_us)));
            push_field(&mut f, "started_us", Json::Number(decimal_text(*started_us)));
            push_field(&mut f, "finished_us", Json::Number(decimal_text(*finished_us)));
            push_field(&mut f, "request_payload", Json::Text(hex_string(request_payload)));
            push_field(&mut f, "response_payload", Json::Text(hex_string(response_payload)));
            push_field(&mut f, "value", value_json_exec(value));
            push_field(&mut f, "unit", Json::Text(owned(unit.as_str())));
            push_field(&mut f, "source", Json::Text(owned(source.as_str())));
            push_field(&mut f, "profile", Json::Text(owned(profile.as_str())));
            push_field(&mut f, "decoder", Json::Text(owned(decoder.as_str())));
            push_field(&mut f, "provenance", Json::Text(owned(provenance.as_str())));
            proof {
                assert(fields_view(f@) =~= record_fields_of(sequence, event_view(*event)));
            }
            Ok(record_line(&f))
        },
        CaptureEvent::ReadFailed { semantic, requested_interval_us, timing, request_payload, error } => {
            let (due, started, finished) = match timing {
                Some(t) => (Some(t.due_us), Some(t.started_us), Some(t.finished_us)),
                None => (None, None, None),
            };
            let request = match request_payload {
                Some(bytes) => Json::Text(hex_string(bytes)),
                None => Json::Null,
            };
            let mut f = head_fields("read_failed", sequence);
            push_field(&mut f, "semantic", Json::Text(owned(semantic.as_str())));
            push_field(&mut f, "requested_interval_us", Json::Number(decimal_text(*requested_interval_us)));
            push_field(&mut f, "due_us", opt_num_exec(due));
            push_field(&mut f, "started_us", opt_num_exec(started));
            push_field(&mut f, "finished_us", opt_num_exec(finished));
            push_field(&mut f, "request_payload", request);
            push_field(&mut f, "error", Json::Text(owned(error.as_str())));
            proof {
                assert(fields_view(f@) =~= record_fields_of(sequence, event_view(*event)));
            }
            Ok(record_line(&f))
        },
        CaptureEvent::SlotsSkipped { semantic, count, first_due_us, last_due_us } => {
            let mut f = head_fields("slots_skipped", sequence);
            push_field(&mut f, "semantic", Json::Text(owned(semantic.as_str())));
            push_field(&mut f, "count", Json::Number(decimal_text(*count)));
            push_field(&mut f, "first_due_us", Json::Number(decimal_text(*first_due_us)));
            push_field(&mut f, "last_due_us", Json::Number(decimal_text(*last_due_us)));
            proof {
                assert(fields_view(f@) =~= record_fields_of(sequence, event_view(*event)));
            }
            Ok(record_line(&f))
        },
        CaptureEvent::SessionError { error } => {
            let mut f = head_fields("session_error", sequence);
            push_field(&mut f, "error", Json::Text(owned(error.as_str())));
            proof {
                assert(fields_view(f@) =~= record_fields_of(sequence, event_view(*event)));
            }
            Ok(record_line(&f))
        },
        CaptureEvent::ShutdownRequested => {
            let mut f = head_fields("shutdown_requested", sequence);
            proof {
                assert(fields_view(f@) =~= record_fields_of(sequence, event_view(*event)));
            }
            Ok(record_line(&f))
        },
        CaptureEvent::SessionStopped { offset_us } => {
            let mut f = head_fields("session_stopped", sequence);
            push_field(&mut f, "offset_us", Json::Number(decimal_text(*offset_us)));
            proof {
                assert(fields_view(f@) =~= record_fields_of(sequence, event_view(*event)));
            }
            Ok(record_line(&f))
        },
        _ => Err(owned("capture event is not recorded in JSONL")),
    }
}

/// The fields of the header line.
pub open spec fn header_fields() -> Fields {
    zip_fields(
        seq!["schema"@, "version"@, "type"@],
        seq![JsonView::Text("OBDENTIC-CAPTURE"@), num(1), JsonView::Text("header"@)],
    )
}

/// The first line of every capture file.
pub fn header_line() -> (r: String)
    ensures
        r@ == record_text(header_fields()),
{
    let mut f: Vec<(String, Json)> = Vec::new();
    proof {
        assert(fields_view(f@) =~= Seq::<(Seq<char>, JsonView)>::empty());
    }
    push_field(&mut f, "schema", Json::Text(owned("OBDENTIC-CAPTURE")));
    push_field(&mut f, "version", Json::Number(decimal_text(1)));
    push_field(&mut f, "type", Json::Text(owned("header")));
    proof {
        assert(fields_view(f@) =~= header_fields());
    }
    record_line(&f)
}

} // verus!
