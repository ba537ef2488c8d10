//! Transport-free replay of the successful reads of a capture: every read is
//! prepared again from the current catalog and its recorded response bytes
//! are completed again, instead of trusting the recorded decoded value.
//! Differences are reported as issues; the capture itself is never changed.

use vstd::prelude::*;

use crate::capture_events::{CaptureEvent, CaptureValue};
use crate::jsonl_capture::{event_view, events_view, value_view, EventView, ParsedCapture, ValueView};
use crate::signals::{
    answers, catalog_entry, catalog_index, describes, is_catalog_semantic, names_entry, prepare_read,
    CatalogEntry, Transaction, MODE01,
};
use crate::text::{byte_vec, concat, decimal, decimal_text, owned};

verus! {

// ---------------------------------------------------------------------------
// Ordering by time, keeping the recorded order among equal times.
// ---------------------------------------------------------------------------

/// `x` placed after every element whose time is not later than its own.
pub open spec fn insert_by_time<T>(s: Seq<(u64, T)>, x: (u64, T)) -> Seq<(u64, T)>
    decreases s.len(),
{
    if s.len() == 0 {
        seq![x]
    } else if s.last().0 <= x.0 {
        s.push(x)
    } else {
        insert_by_time(s.drop_last(), x).push(s.last())
    }
}

/// The elements ordered by time; elements of equal time keep their order.
pub open spec fn sort_by_time<T>(s: Seq<(u64, T)>) -> Seq<(u64, T)>
    decreases s.len(),
{
    if s.len() == 0 {
        s
    } else {
        insert_by_time(sort_by_time(s.drop_last()), s.last())
    }
}

pub open spec fn backwards<T>(s: Seq<T>) -> Seq<T>
    decreases s.len(),
{
    if s.len() == 0 {
        s
    } else {
        seq![s.last()] + backwards(s.drop_last())
    }
}

pub open spec fn map_second<A, B>(s: Seq<(u64, A)>, f: spec_fn(A) -> B) -> Seq<(u64, B)> {
    s.map_values(|p: (u64, A)| (p.0, f(p.1)))
}

proof fn lemma_insert_map<A, B>(s: Seq<(u64, A)>, x: (u64, A), f: spec_fn(A) -> B)
    ensures
        insert_by_time(map_second(s, f), (x.0, f(x.1))) == map_second(insert_by_time(s, x), f),
    decreases s.len(),
{
    if s.len() == 0 {
        assert(map_second(seq![x], f) =~= seq![(x.0, f(x.1))]);
    } else {
        assert(map_second(s, f).drop_last() =~= map_second(s.drop_last(), f));
        assert(map_second(s, f).last() == (s.last().0, f(s.last().1)));
        if s.last().0 <= x.0 {
            assert(map_second(s.push(x), f) =~= map_second(s, f).push((x.0, f(x.1))));
        } else {
            lemma_insert_map(s.drop_last(), x, f);
            let inner = insert_by_time(s.drop_last(), x);
            assert(map_second(inner.push(s.last()), f) =~= map_second(inner, f).push(
                (s.last().0, f(s.last().1)),
            ));
        }
    }
}

proof fn lemma_sort_map<A, B>(s: Seq<(u64, A)>, f: spec_fn(A) -> B)
    ensures
        sort_by_time(map_second(s, f)) == map_second(sort_by_time(s), f),
    decreases s.len(),
{
    if s.len() == 0 {
        assert(map_second(s, f) =~= Seq::<(u64, B)>::empty());
    } else {
        assert(map_second(s, f).drop_last() =~= map_second(s.drop_last(), f));
        assert(map_second(s, f).last() == (s.last().0, f(s.last().1)));
        lemma_sort_map(s.drop_last(), f);
        lemma_insert_map(sort_by_time(s.drop_last()), s.last(), f);
    }
}

fn insert_by_time_exec<T>(v: &mut Vec<(u64, T)>, x: (u64, T))
    ensures
        final(v)@ == insert_by_time(old(v)@, x),
{
    let ghost target = insert_by_time(old(v)@, x);
    let mut tail: Vec<(u64, T)> = Vec::new();
    proof {
        assert(target =~= insert_by_time(v@, x) + backwards(tail@));
    }
    while v.len() > 0 && v[v.len() - 1].0 > x.0
        invariant
            target == insert_by_time(v@, x) + backwards(tail@),
        decreases v@.len(),
    {
        let ghost before = v@;
        let ghost before_tail = tail@;
        let last = v.pop().unwrap();
        proof {
            assert(before.drop_last() =~= v@);
            assert(before.last() == last);
            assert(tail@.push(last).drop_last() =~= tail@);
        }
        tail.push(last);
        proof {
            assert(backwards(tail@) =~= seq![last] + backwards(before_tail));
            assert(insert_by_time(before, x) == insert_by_time(v@, x).push(last));
            assert(target =~= insert_by_time(v@, x) + backwards(tail@));
        }
    }
    let ghost placed = v@;
    v.push(x);
    proof {
        if placed.len() > 0 {
            assert(placed.last().0 <= x.0);
        }
        assert(insert_by_time(placed, x) == placed.push(x));
        assert(target =~= v@ + backwards(tail@));
    }
    while tail.len() > 0
        invariant
            target == v@ + backwards(tail@),
        decreases tail@.len(),
    {
        let ghost before_tail = tail@;
        let e = tail.pop().unwrap();
        proof {
            assert(before_tail.drop_last() =~= tail@);
            assert(before_tail.last() == e);
            assert(backwards(before_tail) == seq![e] + backwards(tail@));
        }
        v.push(e);
        proof {
            assert(target =~= v@ + backwards(tail@));
        }
    }
    proof {
        assert(backwards(tail@) =~= Seq::<(u64, T)>::empty());
        assert(target =~= v@);
    }
}

// ---------------------------------------------------------------------------
// Issues and the replay.
// ---------------------------------------------------------------------------

#[derive(Clone, Copy, Debug, PartialEq, Eq, Structural)]
pub enum ReplayIssueKind {
    UnsupportedSemantic,
    RequestChanged,
    DecodeFailed,
    RecordedDecodeChanged,
}

/// The model of an issue: when, which semantic, what kind, and the detail.
pub struct ReplayIssueView {
    pub at_us: u64,
    pub semantic: Seq<char>,
    pub kind: ReplayIssueKind,
    pub detail: Seq<char>,
}

/// A difference between a recorded read and its replay.
#[derive(Debug)]
pub struct ReplayIssue {
    at_us: u64,
    semantic: String,
    kind: ReplayIssueKind,
    detail: String,
}

impl View for ReplayIssue {
    type V = ReplayIssueView;

    closed spec fn view(&self) -> ReplayIssueView {
        ReplayIssueView {
            at_us: self.at_us,
            semantic: self.semantic@,
            kind: self.kind,
            detail: self.detail@,
        }
    }
}

impl ReplayIssue {
    pub fn at_us(&self) -> (r: u64)
        ensures
            r == self@.at_us,
    {
        self.at_us
    }

    pub fn semantic(&self) -> (r: &str)
        ensures
            r@ == self@.semantic,
    {
        self.semantic.as_str()
    }

    pub fn kind(&self) -> (r: ReplayIssueKind)
        ensures
            r == self@.kind,
    {
        self.kind
    }

    pub fn detail(&self) -> (r: &str)
        ensures
            r@ == self@.detail,
    {
        self.detail.as_str()
    }
}

/// What decoding a read's response again in floating point found, given by
/// the caller that holds the decoded value: whether a recorded number equals
/// the current one, the recorded number as text, and the current value as
/// text.
pub struct RecordedDecode {
    pub same_number: bool,
    pub recorded_text: String,
    pub current_text: String,
}

pub struct RecordedDecodeView {
    pub same_number: bool,
    pub recorded_text: Seq<char>,
    pub current_text: Seq<char>,
}

pub open spec fn decode_view(d: RecordedDecode) -> RecordedDecodeView {
    RecordedDecodeView { same_number: d.same_number, recorded_text: d.recorded_text@, current_text: d.current_text@ }
}

pub open spec fn decodes_view(ds: Seq<RecordedDecode>) -> Seq<RecordedDecodeView> {
    ds.map_values(|d: RecordedDecode| decode_view(d))
}

/// The model of a replayed read.
pub struct ReadModel {
    pub semantic: Seq<char>,
    pub profile: Seq<char>,
    pub mode: u8,
    pub pid: u8,
    pub data_len: u8,
    pub unit: Seq<char>,
    pub source: Seq<char>,
    pub response: Seq<u8>,
    pub timestamp_ms: u128,
}

pub open spec fn read_model(t: Transaction) -> ReadModel {
    ReadModel {
        semantic: t@.metadata.semantic@,
        profile: t@.metadata.profile@,
        mode: t@.metadata.mode,
        pid: t@.metadata.pid,
        data_len: t@.metadata.data_len,
        unit: t@.metadata.unit@,
        source: t@.source,
        response: t@.response,
        timestamp_ms: t@.timestamp_ms,
    }
}

/// The model of a replay.
pub struct ReplayView {
    pub duration_us: u64,
    pub offsets_us: Seq<u64>,
    pub reads: Seq<ReadModel>,
    pub issues: Seq<ReplayIssueView>,
}

/// A capture's successful reads completed again, ordered by time, with the
/// issues found on the way.
pub struct CaptureReplay {
    duration_us: u64,
    offsets_us: Vec<u64>,
    transactions: Vec<Transaction>,
    issues: Vec<ReplayIssue>,
}

impl View for CaptureReplay {
    type V = ReplayView;

    closed spec fn view(&self) -> ReplayView {
        ReplayView {
            duration_us: self.duration_us,
            offsets_us: self.offsets_us@,
            reads: self.transactions@.map_values(|t: Transaction| read_model(t)),
            issues: self.issues@.map_values(|i: ReplayIssue| i@),
        }
    }
}

// ---------------------------------------------------------------------------
// The replay, as a model.
// ---------------------------------------------------------------------------

pub open spec fn later(a: u64, b: u64) -> u64 {
    if a >= b {
        a
    } else {
        b
    }
}

/// A response that answers the read of a catalog entry.
pub open spec fn answers_entry(entry: CatalogEntry, response: Seq<u8>) -> bool {
    &&& response.len() == 2 + entry.data_len
    &&& response[0] == 0x41
    &&& response[1] == entry.pid
}

pub open spec fn byte_items(bytes: Seq<u8>) -> Seq<char>
    decreases bytes.len(),
{
    if bytes.len() == 0 {
        Seq::empty()
    } else if bytes.len() == 1 {
        decimal(bytes[0] as nat)
    } else {
        byte_items(bytes.drop_last()) + ", "@ + decimal(bytes.last() as nat)
    }
}

/// Bytes as a bracketed list of decimal numbers, as `Debug` writes them.
pub open spec fn byte_list(bytes: Seq<u8>) -> Seq<char> {
    "["@ + byte_items(bytes) + "]"@
}

/// The recorded value as the issue text writes it.
pub open spec fn recorded_text(value: ValueView, d: RecordedDecodeView) -> Seq<char> {
    match value {
        ValueView::Number(_) => d.recorded_text,
        ValueView::Boolean(b) => if b {
            "true"@
        } else {
            "false"@
        },
        ValueView::Enum(e) => e,
        ValueView::Text(s) => s,
        ValueView::Unavailable(r) => "unavailable("@ + r + ")"@,
    }
}

/// The recorded decode no longer holds: another unit, or anything but the
/// same number.
pub open spec fn recorded_changed(value: ValueView, unit: Seq<char>, current_unit: Seq<char>, d: RecordedDecodeView) -> bool {
    unit != current_unit || !(value is Number && d.same_number)
}

pub struct ReplayState {
    pub duration_us: u64,
    pub decoded: Seq<(u64, ReadModel)>,
    pub issues: Seq<(u64, ReplayIssueView)>,
}

pub open spec fn with_issue(s: ReplayState, at_us: u64, semantic: Seq<char>, kind: ReplayIssueKind, detail: Seq<char>) -> ReplayState {
    ReplayState {
        issues: s.issues.push((at_us, ReplayIssueView { at_us, semantic, kind, detail })),
        ..s
    }
}

pub open spec fn replay_step(s: ReplayState, event: EventView, d: RecordedDecodeView) -> ReplayState {
    match event {
        EventView::ReadSucceeded {
            semantic,
            finished_us,
            request_payload,
            response_payload,
            value,
            unit,
            source,
            ..
        } => {
            let s1 = ReplayState { duration_us: later(s.duration_us, finished_us), ..s };
            if !is_catalog_semantic(semantic) {
                with_issue(s1, finished_us, semantic, ReplayIssueKind::UnsupportedSemantic, "unsupported semantic "@ + semantic)
            } else {
                let entry = catalog_entry(catalog_index(semantic));
                let current = seq![MODE01, entry.pid];
                if request_payload != current {
                    with_issue(
                        s1,
                        finished_us,
                        semantic,
                        ReplayIssueKind::RequestChanged,
                        "recorded request "@ + byte_list(request_payload) + " differs from current semantic request "@
                            + byte_list(current),
                    )
                } else if !answers_entry(entry, response_payload) {
                    with_issue(
                        s1,
                        finished_us,
                        semantic,
                        ReplayIssueKind::DecodeFailed,
                        "response does not answer the prepared read"@,
                    )
                } else {
                    let read = ReadModel {
                        semantic,
                        profile: crate::signals::GENERIC_PROFILE@,
                        mode: MODE01,
                        pid: entry.pid,
                        data_len: entry.data_len,
                        unit: entry.unit,
                        source,
                        response: response_payload,
                        timestamp_ms: (finished_us / 1000) as u128,
                    };
                    let s2 = if recorded_changed(value, unit, entry.unit, d) {
                        with_issue(
                            s1,
                            finished_us,
                            semantic,
                            ReplayIssueKind::RecordedDecodeChanged,
                            "recorded="@ + recorded_text(value, d) + " "@ + unit + " current="@ + d.current_text
                                + " "@ + entry.unit,
                        )
                    } else {
                        s1
                    };
                    ReplayState { decoded: s2.decoded.push((finished_us, read)), ..s2 }
                }
            }
        },
        EventView::ReadFailed { timing, .. } => match timing {
            Some(t) => ReplayState { duration_us: later(s.duration_us, t.finished_us), ..s },
            None => s,
        },
        EventView::SlotsSkipped { last_due_us, .. } => ReplayState { duration_us: later(s.duration_us, last_due_us), ..s },
        EventView::SessionStopped { offset_us } => ReplayState { duration_us: later(s.duration_us, offset_us), ..s },
        _ => s,
    }
}

/// The replay state after the first `n` events.
pub open spec fn replay_run(events: Seq<EventView>, decodes: Seq<RecordedDecodeView>, n: int) -> ReplayState
    decreases n,
{
    if n <= 0 {
        ReplayState { duration_us: 0, decoded: Seq::empty(), issues: Seq::empty() }
    } else {
        replay_step(replay_run(events, decodes, n - 1), events[n - 1], decodes[n - 1])
    }
}

/// The replay of a capture's events, with what decoding each read again
/// found.
pub open spec fn replay_of(events: Seq<EventView>, decodes: Seq<RecordedDecodeView>) -> ReplayView {
    let s = replay_run(events, decodes, events.len() as int);
    let reads = sort_by_time(s.decoded);
    ReplayView {
        duration_us: s.duration_us,
        offsets_us: reads.map_values(|p: (u64, ReadModel)| p.0),
        reads: reads.map_values(|p: (u64, ReadModel)| p.1),
        issues: sort_by_time(s.issues).map_values(|p: (u64, ReplayIssueView)| p.1),
    }
}

// ---------------------------------------------------------------------------
// The replay, as computed.
// ---------------------------------------------------------------------------

fn sort_by_time_exec<T>(v: Vec<(u64, T)>) -> (r: Vec<(u64, T)>)
    ensures
        r@ == sort_by_time(v@),
{
    let ghost orig = v@;
    let ghost mut k: int = 0;
    let mut rest = v;
    let mut out: Vec<(u64, T)> = Vec::new();
    proof {
        assert(orig.take(0) =~= Seq::<(u64, T)>::empty());
        assert(orig.skip(0) =~= orig);
    }
    while rest.len() > 0
        invariant
            0 <= k <= orig.len(),
            out@ == sort_by_time(orig.take(k)),
            rest@ == orig.skip(k),
        decreases rest@.len(),
    {
        let x = rest.remove(0);
        proof {
            assert(orig.take(k + 1).drop_last() =~= orig.take(k));
            assert(orig.take(k + 1).last() == x);
        }
        insert_by_time_exec(&mut out, x);
        proof {
            assert(rest@ =~= orig.skip(k + 1));
            k = k + 1;
        }
    }
    proof {
        assert(orig.take(k) =~= orig);
    }
    out
}

fn split_times<T>(v: Vec<(u64, T)>) -> (r: (Vec<u64>, Vec<T>))
    ensures
        r.0@ == v@.map_values(|p: (u64, T)| p.0),
        r.1@ == v@.map_values(|p: (u64, T)| p.1),
{
    let ghost orig = v@;
    let ghost mut k: int = 0;
    let mut rest = v;
    let mut times: Vec<u64> = Vec::new();
    let mut items: Vec<T> = Vec::new();
    proof {
        assert(orig.skip(0) =~= orig);
    }
    while rest.len() > 0
        invariant
            0 <= k <= orig.len(),
            rest@ == orig.skip(k),
            times@ == orig.take(k).map_values(|p: (u64, T)| p.0),
            items@ == orig.take(k).map_values(|p: (u64, T)| p.1),
        decreases rest@.len(),
    {
        let (time, item) = rest.remove(0);
        proof {
            assert(orig[k] == (time, item));
        }
        times.push(time);
        items.push(item);
        proof {
            assert(times@ =~= orig.take(k + 1).map_values(|p: (u64, T)| p.0));
            assert(items@ =~= orig.take(k + 1).map_values(|p: (u64, T)| p.1));
            assert(rest@ =~= orig.skip(k + 1));
            k = k + 1;
        }
    }
    proof {
        assert(orig.take(k) =~= orig);
    }
    (times, items)
}

fn byte_list_exec(bytes: &[u8]) -> (r: String)
    ensures
        r@ == byte_list(bytes@),
{
    let mut items = String::new();
    let mut i: usize = 0;
    proof {
        assert(bytes@.take(0) =~= Seq::<u8>::empty());
    }
    while i < bytes.len()
        invariant
            i <= bytes@.len(),
            items@ == byte_items(bytes@.take(i as int)),
        decreases bytes@.len() - i,
    {
        let b = bytes[i];
        proof {
            assert(bytes@.take(i + 1).drop_last() =~= bytes@.take(i as int));
            assert(bytes@.take(i + 1).last() == b);
        }
        let number = decimal_text(b as u64);
        if i == 0 {
            proof {
                assert(bytes@.take(1) =~= seq![b]);
                assert(items@ =~= Seq::<char>::empty());
            }
            items = number;
        } else {
            let joined = concat(items.as_str(), ", ");
            items = concat(joined.as_str(), number.as_str());
        }
        i += 1;
    }
    proof {
        assert(bytes@.take(bytes@.len() as int) =~= bytes@);
    }
    let head = concat("[", items.as_str());
    concat(head.as_str(), "]")
}

fn recorded_text_exec(value: &CaptureValue, d: &RecordedDecode) -> (r: String)
    ensures
        r@ == recorded_text(value_view(*value), decode_view(*d)),
{
    match value {
        CaptureValue::Number { .. } => owned(d.recorded_text.as_str()),
        CaptureValue::Boolean(b) => if *b {
            owned("true")
        } else {
            owned("false")
        },
        CaptureValue::Enum(e) => owned(e.as_str()),
        CaptureValue::Text(s) => owned(s.as_str()),
        CaptureValue::Unavailable { reason } => {
            let head = concat("unavailable(", reason.as_str());
            concat(head.as_str(), ")")
        },
    }
}

fn push_issue(
    issues: &mut Vec<(u64, ReplayIssue)>,
    at_us: u64,
    semantic: &str,
    kind: ReplayIssueKind,
    detail: String,
)
    ensures
        map_second(final(issues)@, |i: ReplayIssue| i@) == map_second(old(issues)@, |i: ReplayIssue| i@).push(
            (at_us, ReplayIssueView { at_us, semantic: semantic@, kind, detail: detail@ }),
        ),
{
    let issue = ReplayIssue { at_us, semantic: owned(semantic), kind, detail };
    issues.push((at_us, issue));
    proof {
        assert(map_second(issues@, |i: ReplayIssue| i@) =~= map_second(old(issues)@, |i: ReplayIssue| i@).push(
            (at_us, ReplayIssueView { at_us, semantic: semantic@, kind, detail: detail@ }),
        ));
    }
}

impl CaptureReplay {
    /// Replay every successful read of a capture: prepare it again from the
    /// current catalog, check the recorded request against it, and complete
    /// it again with the recorded response, stamped with the recorded
    /// completion time. `decodes` holds, for each event, what decoding its
    /// response again in floating point found. Reads that no longer replay
    /// are kept as issues; the others are ordered by time.
    pub fn from_capture(capture: &ParsedCapture, decodes: &Vec<RecordedDecode>) -> (r: CaptureReplay)
        requires
            decodes.len() == capture.events.len(),
        ensures
            r@ == replay_of(events_view(capture.events@), decodes_view(decodes@)),
    {
        let ghost ev = events_view(capture.events@);
        let ghost dv = decodes_view(decodes@);
        let mut duration: u64 = 0;
        let mut decoded: Vec<(u64, Transaction)> = Vec::new();
        let mut issues: Vec<(u64, ReplayIssue)> = Vec::new();
        proof {
            assert(map_second(decoded@, |t: Transaction| read_model(t)) =~= Seq::<(u64, ReadModel)>::empty());
            assert(map_second(issues@, |i: ReplayIssue| i@) =~= Seq::<(u64, ReplayIssueView)>::empty());
        }
        let mut i: usize = 0;
        while i < capture.events.len()
            invariant
                i <= capture.events@.len(),
                decodes@.len() == capture.events@.len(),
                ev == events_view(capture.events@),
                dv == decodes_view(decodes@),
                duration == replay_run(ev, dv, i as int).duration_us,
                map_second(decoded@, |t: Transaction| read_model(t)) == replay_run(ev, dv, i as int).decoded,
                map_second(issues@, |x: ReplayIssue| x@) == replay_run(ev, dv, i as int).issues,
            decreases capture.events@.len() - i,
        {
            let event = &capture.events[i];
            let d = &decodes[i];
            proof {
                assert(ev[i as int] == event_view(*event));
                assert(dv[i as int] == decode_view(*d));
            }
            match event {
                CaptureEvent::ReadSucceeded {
                    semantic,
                    finished_us,
                    request_payload,
                    response_payload,
                    value,
                    unit,
                    source,
                    ..
                } => {
                    let at = *finished_us;
                    if at > duration {
                        duration = at;
                    }
                    match prepare_read(semantic.as_str()) {
                        Err(_) => {
                            let detail = concat("unsupported semantic ", semantic.as_str());
                            push_issue(&mut issues, at, semantic.as_str(), ReplayIssueKind::UnsupportedSemantic, detail);
                        },
                        Ok(request) => {
                            let ghost entry = catalog_entry(catalog_index(semantic@));
                            let current = request.bytes();
                            let same_request = request_payload.len() == 2 && request_payload[0] == current[0]
                                && request_payload[1] == current[1];
                            proof {
                                assert(current@ == seq![MODE01, entry.pid]);
                                if same_request {
                                    assert(request_payload@ =~= seq![MODE01, entry.pid]);
                                } else {
                                    assert(request_payload@ != seq![MODE01, entry.pid]) by {
                                        if request_payload@ == seq![MODE01, entry.pid] {
                                            assert(request_payload@[0] == current@[0]);
                                            assert(request_payload@[1] == current@[1]);
                                        }
                                    }
                                }
                            }
                            if !same_request {
                                let recorded = byte_list_exec(request_payload.as_slice());
                                let now = byte_list_exec(&current);
                                let detail = concat("recorded request ", recorded.as_str());
                                let detail = concat(detail.as_str(), " differs from current semantic request ");
                                let detail = concat(detail.as_str(), now.as_str());
                                push_issue(&mut issues, at, semantic.as_str(), ReplayIssueKind::RequestChanged, detail);
                            } else {
                                match request.complete(source.as_str(), byte_vec(response_payload.as_slice())) {
                                    Err(error) => {
                                        push_issue(&mut issues, at, semantic.as_str(), ReplayIssueKind::DecodeFailed, error);
                                    },
                                    Ok(transaction) => {
                                        let transaction = transaction.with_timestamp_ms((at / 1000) as u128);
                                        let current_unit = transaction.unit();
                                        let same_number = match value {
                                            CaptureValue::Number { .. } => d.same_number,
                                            _ => false,
                                        };
                                        if !crate::text::str_eq(unit.as_str(), current_unit) || !same_number {
                                            let recorded = recorded_text_exec(value, d);
                                            let detail = concat("recorded=", recorded.as_str());
                                            let detail = concat(detail.as_str(), " ");
                                            let detail = concat(detail.as_str(), unit.as_str());
                                            let detail = concat(detail.as_str(), " current=");
                                            let detail = concat(detail.as_str(), d.current_text.as_str());
                                            let detail = concat(detail.as_str(), " ");
                                            let detail = concat(detail.as_str(), current_unit);
                                            push_issue(
                                                &mut issues,
                                                at,
                                                semantic.as_str(),
                                                ReplayIssueKind::RecordedDecodeChanged,
                                                detail,
                                            );
                                        }
                                        let ghost before = decoded@;
                                        decoded.push((at, transaction));
                                        proof {
                                            assert(map_second(decoded@, |t: Transaction| read_model(t)) =~= map_second(
                                                before,
                                                |t: Transaction| read_model(t),
                                            ).push((at, read_model(transaction))));
                                        }
                                    },
                                }
                            }
                        },
                    }
                },
                CaptureEvent::ReadFailed { timing, .. } => {
                    match timing {
                        Some(t) => {
                            if t.finished_us > duration {
                                duration = t.finished_us;
                            }
                        },
                        None => {},
                    }
                },
                CaptureEvent::SlotsSkipped { last_due_us, .. } => {
                    if *last_due_us > duration {
                        duration = *last_due_us;
                    }
                },
                CaptureEvent::SessionStopped { offset_us } => {
                    if *offset_us > duration {
                        duration = *offset_us;
                    }
                },
                _ => {},
            }
            i += 1;
        }
        let ghost st = replay_run(ev, dv, capture.events@.len() as int);
        let sorted = sort_by_time_exec(decoded);
        let sorted_issues = sort_by_time_exec(issues);
        proof {
            lemma_sort_map(decoded@, |t: Transaction| read_model(t));
            lemma_sort_map(issues@, |x: ReplayIssue| x@);
        }
        let ghost sd = sorted@;
        let ghost si = sorted_issues@;
        let (offsets_us, transactions) = split_times(sorted);
        let (_, issue_list) = split_times(sorted_issues);
        let r = CaptureReplay { duration_us: duration, offsets_us, transactions, issues: issue_list };
        proof {
            let reads = sort_by_time(st.decoded);
            assert(reads == map_second(sd, |t: Transaction| read_model(t)));
            assert(r@.offsets_us =~= reads.map_values(|p: (u64, ReadModel)| p.0));
            assert(r@.reads =~= reads.map_values(|p: (u64, ReadModel)| p.1));
            let sorted_views = sort_by_time(st.issues);
            assert(sorted_views == map_second(si, |x: ReplayIssue| x@));
            assert(r@.issues =~= sorted_views.map_values(|p: (u64, ReplayIssueView)| p.1));
        }
        r
    }

    pub fn duration_us(&self) -> (r: u64)
        ensures
            r == self@.duration_us,
    {
        self.duration_us
    }

    /// The capture offsets of the replayed reads, one for each transaction.
    pub fn offsets_us(&self) -> (r: &[u64])
        ensures
            r@ == self@.offsets_us,
    {
        self.offsets_us.as_slice()
    }

    pub fn transactions(&self) -> (r: &[Transaction])
        ensures
            r@.map_values(|t: Transaction| read_model(t)) == self@.reads,
    {
        self.transactions.as_slice()
    }

    pub fn issues(&self) -> (r: &[ReplayIssue])
        ensures
            r@.map_values(|i: ReplayIssue| i@) == self@.issues,
    {
        self.issues.as_slice()
    }
}

pub open spec fn in_time_order<T>(s: Seq<(u64, T)>) -> bool {
    forall|i: int, j: int| 0 <= i < j < s.len() ==> (#[trigger] s[i]).0 <= (#[trigger] s[j]).0
}

proof fn lemma_insert_keeps_order<T>(s: Seq<(u64, T)>, x: (u64, T))
    requires
        in_time_order(s),
    ensures
        in_time_order(insert_by_time(s, x)),
        insert_by_time(s, x).len() == s.len() + 1,
        forall|i: int| 0 <= i < insert_by_time(s, x).len() ==> (#[trigger] insert_by_time(s, x)[i]).0 <= later(
            x.0,
            if s.len() == 0 { x.0 } else { s.last().0 },
        ),
    decreases s.len(),
{
    if s.len() > 0 {
        if s.last().0 > x.0 {
            let rest = s.drop_last();
            assert(in_time_order(rest)) by {
                assert forall|i: int, j: int| 0 <= i < j < rest.len() implies (#[trigger] rest[i]).0 <= (
                #[trigger] rest[j]).0 by {
                    assert(rest[i] == s[i] && rest[j] == s[j]);
                }
            }
            lemma_insert_keeps_order(rest, x);
            let inner = insert_by_time(rest, x);
            assert forall|i: int| 0 <= i < inner.len() implies (#[trigger] inner[i]).0 <= s.last().0 by {
                if rest.len() > 0 {
                    assert(rest.last() == s[rest.len() - 1]);
                    assert(s[rest.len() - 1].0 <= s[s.len() - 1].0);
                }
            }
        } else {
            assert forall|i: int| 0 <= i < s.len() implies (#[trigger] s[i]).0 <= x.0 by {
                if i < s.len() - 1 {
                    assert(s[i].0 <= s[s.len() - 1].0);
                }
            }
        }
    }
}

proof fn lemma_sort_in_order<T>(s: Seq<(u64, T)>)
    ensures
        in_time_order(sort_by_time(s)),
        sort_by_time(s).len() == s.len(),
    decreases s.len(),
{
    if s.len() > 0 {
        lemma_sort_in_order(s.drop_last());
        lemma_insert_keeps_order(sort_by_time(s.drop_last()), s.last());
    }
}

/// The replayed reads come in the order of their capture offsets, and the
/// issues in the order of their times.
pub proof fn law_replay_is_in_time_order(events: Seq<EventView>, decodes: Seq<RecordedDecodeView>)
    ensures
        forall|i: int, j: int|
            0 <= i < j < replay_of(events, decodes).offsets_us.len() ==> replay_of(events, decodes).offsets_us[i]
                <= replay_of(events, decodes).offsets_us[j],
        forall|i: int, j: int|
            0 <= i < j < replay_of(events, decodes).issues.len() ==> replay_of(events, decodes).issues[i].at_us
                <= replay_of(events, decodes).issues[j].at_us,
{
    let s = replay_run(events, decodes, events.len() as int);
    lemma_sort_in_order(s.decoded);
    lemma_sort_in_order(s.issues);
    lemma_run_keyed(events, decodes, events.len() as int);
    let sorted = sort_by_time(s.issues);
    lemma_sort_keyed(s.issues);
    let r = replay_of(events, decodes);
    assert forall|i: int, j: int| 0 <= i < j < r.offsets_us.len() implies r.offsets_us[i] <= r.offsets_us[j] by {
        assert(sort_by_time(s.decoded)[i].0 <= sort_by_time(s.decoded)[j].0);
    }
    assert forall|i: int, j: int| 0 <= i < j < r.issues.len() implies r.issues[i].at_us <= r.issues[j].at_us by {
        assert(sorted[i].0 <= sorted[j].0);
    }
}

/// Each issue is filed under its own time.
pub open spec fn keyed_by_time(s: Seq<(u64, ReplayIssueView)>) -> bool {
    forall|k: int| 0 <= k < s.len() ==> (#[trigger] s[k]).0 == s[k].1.at_us
}

proof fn lemma_run_keyed(events: Seq<EventView>, decodes: Seq<RecordedDecodeView>, n: int)
    ensures
        keyed_by_time(replay_run(events, decodes, n).issues),
    decreases n,
{
    if n > 0 {
        lemma_run_keyed(events, decodes, n - 1);
    }
}

proof fn lemma_insert_keyed(s: Seq<(u64, ReplayIssueView)>, x: (u64, ReplayIssueView))
    requires
        keyed_by_time(s),
        x.0 == x.1.at_us,
    ensures
        keyed_by_time(insert_by_time(s, x)),
    decreases s.len(),
{
    if s.len() > 0 && s.last().0 > x.0 {
        let rest = s.drop_last();
        assert(keyed_by_time(rest)) by {
            assert forall|k: int| 0 <= k < rest.len() implies (#[trigger] rest[k]).0 == rest[k].1.at_us by {
                assert(rest[k] == s[k]);
            }
        }
        lemma_insert_keyed(rest, x);
        assert(s.last() == s[s.len() - 1]);
    }
}

proof fn lemma_sort_keyed(s: Seq<(u64, ReplayIssueView)>)
    requires
        keyed_by_time(s),
    ensures
        keyed_by_time(sort_by_time(s)),
    decreases s.len(),
{
    if s.len() > 0 {
        let rest = s.drop_last();
        assert(keyed_by_time(rest)) by {
            assert forall|k: int| 0 <= k < rest.len() implies (#[trigger] rest[k]).0 == rest[k].1.at_us by {
                assert(rest[k] == s[k]);
            }
        }
        lemma_sort_keyed(rest);
        assert(s.last() == s[s.len() - 1]);
        lemma_insert_keyed(sort_by_time(rest), s.last());
    }
}


/// A replayed read whose recorded unit is not the current decoder's unit is
/// reported as a changed decode, whatever the number; the read itself is
/// still replayed.
pub proof fn law_unit_changes_are_reported(s: ReplayState, event: EventView, d: RecordedDecodeView)
    requires
        event matches EventView::ReadSucceeded { semantic, request_payload, response_payload, unit, .. }
            && is_catalog_semantic(semantic)
            && request_payload == seq![MODE01, catalog_entry(catalog_index(semantic)).pid]
            && answers_entry(catalog_entry(catalog_index(semantic)), response_payload)
            && unit != catalog_entry(catalog_index(semantic)).unit,
    ensures
        replay_step(s, event, d).issues.len() == s.issues.len() + 1,
        replay_step(s, event, d).issues.last().1.kind == ReplayIssueKind::RecordedDecodeChanged,
        replay_step(s, event, d).issues.last().1.semantic == event->ReadSucceeded_semantic,
        replay_step(s, event, d).decoded.len() == s.decoded.len() + 1,
{
}

} // verus!
