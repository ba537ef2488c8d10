//! Deterministic, read-only summaries of recorded capture events.

use vstd::prelude::*;

use crate::capture_events::{
    CaptureEvent, CaptureTimeUs, CaptureValue, ReadTiming, SubscriptionFilterOutcome,
};
use crate::jsonl_capture::ParsedCapture;
use crate::text::{owned, str_eq};

verus! {

// ---------------------------------------------------------------------------
// Keyed lists: a list of distinct texts with a value each, seen as a map.
// ---------------------------------------------------------------------------

/// The keys of a keyed list are distinct.
pub open spec fn distinct_keys<V>(entries: Seq<(String, V)>) -> bool {
    forall|i: int, j: int|
        0 <= i < entries.len() && 0 <= j < entries.len() && i != j ==> (#[trigger] entries[i]).0@
            != (#[trigger] entries[j]).0@
}

/// A keyed list as a map from key text to the value's view.
pub open spec fn keyed_map<V: View>(entries: Seq<(String, V)>) -> Map<Seq<char>, V::V>
    decreases entries.len(),
{
    if entries.len() == 0 {
        Map::empty()
    } else {
        keyed_map(entries.drop_last()).insert(entries.last().0@, entries.last().1@)
    }
}

proof fn lemma_keyed_map_index<V: View>(entries: Seq<(String, V)>, i: int)
    requires
        distinct_keys(entries),
        0 <= i < entries.len(),
    ensures
        keyed_map(entries).dom().contains(entries[i].0@),
        keyed_map(entries)[entries[i].0@] == entries[i].1@,
    decreases entries.len(),
{
    if i < entries.len() - 1 {
        let rest = entries.drop_last();
        assert(rest[i] == entries[i]);
        assert(distinct_keys(rest)) by {
            assert forall|a: int, b: int|
                0 <= a < rest.len() && 0 <= b < rest.len() && a != b implies (#[trigger] rest[a]).0@
                != (#[trigger] rest[b]).0@ by {
                assert(rest[a] == entries[a] && rest[b] == entries[b]);
            }
        }
        lemma_keyed_map_index(rest, i);
        assert(entries.last() == entries[entries.len() - 1]);
    }
}

proof fn lemma_keyed_map_absent<V: View>(entries: Seq<(String, V)>, key: Seq<char>)
    requires
        forall|i: int| 0 <= i < entries.len() ==> (#[trigger] entries[i]).0@ != key,
    ensures
        !keyed_map(entries).dom().contains(key),
    decreases entries.len(),
{
    if entries.len() > 0 {
        let rest = entries.drop_last();
        assert forall|i: int| 0 <= i < rest.len() implies (#[trigger] rest[i]).0@ != key by {
            assert(rest[i] == entries[i]);
        }
        lemma_keyed_map_absent(rest, key);
        assert(entries.last() == entries[entries.len() - 1]);
    }
}

proof fn lemma_keyed_map_update<V: View>(entries: Seq<(String, V)>, i: int, value: V)
    requires
        distinct_keys(entries),
        0 <= i < entries.len(),
    ensures
        distinct_keys(entries.update(i, (entries[i].0, value))),
        keyed_map(entries.update(i, (entries[i].0, value))) == keyed_map(entries).insert(
            entries[i].0@,
            value@,
        ),
    decreases entries.len(),
{
    let updated = entries.update(i, (entries[i].0, value));
    assert(distinct_keys(updated)) by {
        assert forall|a: int, b: int|
            0 <= a < updated.len() && 0 <= b < updated.len() && a != b implies (#[trigger] updated[a]).0@
            != (#[trigger] updated[b]).0@ by {
            assert(updated[a].0 == entries[a].0);
            assert(updated[b].0 == entries[b].0);
        }
    }
    let rest = entries.drop_last();
    assert(distinct_keys(rest)) by {
        assert forall|a: int, b: int|
            0 <= a < rest.len() && 0 <= b < rest.len() && a != b implies (#[trigger] rest[a]).0@
            != (#[trigger] rest[b]).0@ by {
            assert(rest[a] == entries[a] && rest[b] == entries[b]);
        }
    }
    if i == entries.len() - 1 {
        assert(updated.drop_last() =~= rest);
        assert(keyed_map(updated) =~= keyed_map(entries).insert(entries[i].0@, value@));
    } else {
        lemma_keyed_map_update(rest, i, value);
        assert(updated.drop_last() =~= rest.update(i, (rest[i].0, value)));
        assert(updated.last() == entries.last());
        assert(entries.last() == entries[entries.len() - 1]);
        assert(entries[entries.len() - 1].0@ != entries[i].0@);
        assert(keyed_map(updated) =~= keyed_map(entries).insert(entries[i].0@, value@));
    }
}

proof fn lemma_keyed_push<V: View>(entries: Seq<(String, V)>, key: String, value: V)
    requires
        distinct_keys(entries),
        forall|i: int| 0 <= i < entries.len() ==> (#[trigger] entries[i]).0@ != key@,
    ensures
        distinct_keys(entries.push((key, value))),
        keyed_map(entries.push((key, value))) == keyed_map(entries).insert(key@, value@),
{
    let pushed = entries.push((key, value));
    assert(pushed.drop_last() =~= entries);
    assert(distinct_keys(pushed)) by {
        assert forall|a: int, b: int|
            0 <= a < pushed.len() && 0 <= b < pushed.len() && a != b implies (#[trigger] pushed[a]).0@
            != (#[trigger] pushed[b]).0@ by {
            if a < entries.len() {
                assert(pushed[a] == entries[a]);
            }
            if b < entries.len() {
                assert(pushed[b] == entries[b]);
            }
        }
    }
}

/// The index of the entry with the key, or `None`.
fn key_index<V>(entries: &Vec<(String, V)>, key: &str) -> (r: Option<usize>)
    ensures
        match r {
            Some(i) => i < entries@.len() && entries@[i as int].0@ == key@,
            None => forall|i: int| 0 <= i < entries@.len() ==> (#[trigger] entries@[i]).0@ != key@,
        },
{
    let mut i: usize = 0;
    while i < entries.len()
        invariant
            i <= entries@.len(),
            forall|j: int| 0 <= j < i ==> (#[trigger] entries@[j]).0@ != key@,
        decreases entries@.len() - i,
    {
        if str_eq(entries[i].0.as_str(), key) {
            return Some(i);
        }
        i += 1;
    }
    None
}

// ---------------------------------------------------------------------------
// The summary model.
// ---------------------------------------------------------------------------

/// What the summary keeps of one signal.
pub struct SignalSummaryView {
    pub interval_us: Option<CaptureTimeUs>,
    pub filter: Option<SubscriptionFilterOutcome>,
    pub samples: nat,
    pub failures: nat,
    pub skipped: nat,
    pub first_sample_us: Option<CaptureTimeUs>,
    pub last_sample_us: Option<CaptureTimeUs>,
    pub values: Seq<Seq<char>>,
    pub units: Set<Seq<char>>,
    pub successful_times: Seq<(CaptureTimeUs, CaptureTimeUs, CaptureTimeUs)>,
}

/// What the summary keeps of a whole capture.
pub struct CaptureSummaryView {
    pub signals: Map<Seq<char>, SignalSummaryView>,
    pub events: nat,
    pub successes: nat,
    pub failures: nat,
    pub skipped_events: nat,
    pub skipped_slots: nat,
    pub lifecycle: nat,
    pub first_offset_us: Option<CaptureTimeUs>,
    pub last_offset_us: Option<CaptureTimeUs>,
    pub profile: Option<Seq<char>>,
    pub wallclock_ms: Option<u64>,
    pub session_errors: Seq<Seq<char>>,
    pub error_messages: Map<Seq<char>, nat>,
    pub all_reads: Seq<(CaptureTimeUs, CaptureTimeUs, CaptureTimeUs)>,
}

pub open spec fn empty_signal() -> SignalSummaryView {
    SignalSummaryView {
        interval_us: None,
        filter: None,
        samples: 0,
        failures: 0,
        skipped: 0,
        first_sample_us: None,
        last_sample_us: None,
        values: Seq::empty(),
        units: Set::empty(),
        successful_times: Seq::empty(),
    }
}

pub open spec fn empty_summary() -> CaptureSummaryView {
    CaptureSummaryView {
        signals: Map::empty(),
        events: 0,
        successes: 0,
        failures: 0,
        skipped_events: 0,
        skipped_slots: 0,
        lifecycle: 0,
        first_offset_us: None,
        last_offset_us: None,
        profile: None,
        wallclock_ms: None,
        session_errors: Seq::empty(),
        error_messages: Map::empty(),
        all_reads: Seq::empty(),
    }
}

/// The smaller of an optional bound and a value.
pub open spec fn lower(bound: Option<u64>, value: u64) -> Option<u64> {
    match bound {
        Some(old) => Some(if value < old { value } else { old }),
        None => Some(value),
    }
}

/// The larger of an optional bound and a value.
pub open spec fn upper(bound: Option<u64>, value: u64) -> Option<u64> {
    match bound {
        Some(old) => Some(if value > old { value } else { old }),
        None => Some(value),
    }
}

/// The summary with an offset taken into its first and last offsets.
pub open spec fn with_offset(s: CaptureSummaryView, offset: u64) -> CaptureSummaryView {
    CaptureSummaryView {
        first_offset_us: lower(s.first_offset_us, offset),
        last_offset_us: upper(s.last_offset_us, offset),
        ..s
    }
}

/// The signal entry of a semantic, empty when the semantic is not yet seen.
pub open spec fn signal_of(s: CaptureSummaryView, semantic: Seq<char>) -> SignalSummaryView {
    if s.signals.dom().contains(semantic) {
        s.signals[semantic]
    } else {
        empty_signal()
    }
}

/// The interval a signal keeps: the first one seen.
pub open spec fn keep_interval(interval: Option<u64>, requested: u64) -> Option<u64> {
    match interval {
        Some(i) => Some(i),
        None => Some(requested),
    }
}

/// The values a read adds to its signal: a number's numeral, or nothing.
pub open spec fn numeric_values(values: Seq<Seq<char>>, value: CaptureValue) -> Seq<Seq<char>> {
    match value {
        CaptureValue::Number { numeral } => values.push(numeral@),
        _ => values,
    }
}

/// The count of an error message, zero when not yet seen.
pub open spec fn error_count(s: CaptureSummaryView, error: Seq<char>) -> nat {
    if s.error_messages.dom().contains(error) {
        s.error_messages[error]
    } else {
        0
    }
}

/// What one event adds to the summary.
pub open spec fn summary_step(s0: CaptureSummaryView, event: CaptureEvent) -> CaptureSummaryView {
    let s = CaptureSummaryView { events: s0.events + 1, ..s0 };
    match event {
        CaptureEvent::CaptureStarted { wallclock_ms, profile } => CaptureSummaryView {
            lifecycle: s.lifecycle + 1,
            wallclock_ms,
            profile: match profile {
                Some(p) => Some(p@),
                None => None,
            },
            ..s
        },
        CaptureEvent::SessionInitialized => CaptureSummaryView { lifecycle: s.lifecycle + 1, ..s },
        CaptureEvent::SupportDiscovery { .. } => CaptureSummaryView { lifecycle: s.lifecycle + 1, ..s },
        CaptureEvent::ShutdownRequested => CaptureSummaryView { lifecycle: s.lifecycle + 1, ..s },
        CaptureEvent::ResponsesObserved { .. } => s,
        CaptureEvent::SessionStopped { offset_us } => with_offset(
            CaptureSummaryView { lifecycle: s.lifecycle + 1, ..s },
            offset_us,
        ),
        CaptureEvent::SessionError { error } => CaptureSummaryView {
            lifecycle: s.lifecycle + 1,
            session_errors: s.session_errors.push(error@),
            ..s
        },
        CaptureEvent::SubscriptionConfigured { semantic, requested_interval_us, filter } => {
            let signal = signal_of(s, semantic@);
            CaptureSummaryView {
                signals: s.signals.insert(
                    semantic@,
                    SignalSummaryView {
                        interval_us: Some(requested_interval_us),
                        filter: Some(filter),
                        ..signal
                    },
                ),
                ..s
            }
        },
        CaptureEvent::ReadSucceeded {
            semantic,
            requested_interval_us,
            due_us,
            started_us,
            finished_us,
            value,
            unit,
            ..
        } => {
            let t = with_offset(with_offset(CaptureSummaryView { successes: s.successes + 1, ..s }, due_us), finished_us);
            let signal = signal_of(s, semantic@);
            CaptureSummaryView {
                signals: t.signals.insert(
                    semantic@,
                    SignalSummaryView {
                        interval_us: keep_interval(signal.interval_us, requested_interval_us),
                        samples: signal.samples + 1,
                        first_sample_us: lower(signal.first_sample_us, finished_us),
                        last_sample_us: upper(signal.last_sample_us, finished_us),
                        units: signal.units.insert(unit@),
                        values: numeric_values(signal.values, value),
                        successful_times: signal.successful_times.push((due_us, started_us, finished_us)),
                        ..signal
                    },
                ),
                all_reads: t.all_reads.push((due_us, started_us, finished_us)),
                ..t
            }
        },
        CaptureEvent::ReadFailed { semantic, requested_interval_us, timing, error, .. } => {
            let counted = CaptureSummaryView {
                failures: s.failures + 1,
                error_messages: s.error_messages.insert(error@, error_count(s, error@) + 1),
                ..s
            };
            let signal = signal_of(s, semantic@);
            let with_signal = CaptureSummaryView {
                signals: counted.signals.insert(
                    semantic@,
                    SignalSummaryView {
                        interval_us: keep_interval(signal.interval_us, requested_interval_us),
                        failures: signal.failures + 1,
                        ..signal
                    },
                ),
                ..counted
            };
            match timing {
                Some(t) => {
                    let timed = with_offset(with_offset(with_signal, t.due_us), t.finished_us);
                    CaptureSummaryView {
                        all_reads: timed.all_reads.push((t.due_us, t.started_us, t.finished_us)),
                        ..timed
                    }
                },
                None => with_signal,
            }
        },
        CaptureEvent::SlotsSkipped { semantic, count, first_due_us, last_due_us } => {
            let counted = with_offset(
                with_offset(
                    CaptureSummaryView {
                        skipped_events: s.skipped_events + 1,
                        skipped_slots: s.skipped_slots + count as nat,
                        ..s
                    },
                    first_due_us,
                ),
                last_due_us,
            );
            let signal = signal_of(s, semantic@);
            CaptureSummaryView {
                signals: counted.signals.insert(
                    semantic@,
                    SignalSummaryView { skipped: signal.skipped + count as nat, ..signal },
                ),
                ..counted
            }
        },
        _ => s,
    }
}

/// The summary of a sequence of events, in order.
pub open spec fn summary_of(events: Seq<CaptureEvent>) -> CaptureSummaryView
    decreases events.len(),
{
    if events.len() == 0 {
        empty_summary()
    } else {
        summary_step(summary_of(events.drop_last()), events.last())
    }
}

/// The slots skipped over a sequence of events.
pub open spec fn skipped_total(events: Seq<CaptureEvent>) -> nat
    decreases events.len(),
{
    if events.len() == 0 {
        0
    } else {
        skipped_total(events.drop_last()) + match events.last() {
            CaptureEvent::SlotsSkipped { count, .. } => count as nat,
            _ => 0nat,
        }
    }
}


// ---------------------------------------------------------------------------
// The summary as computed.
// ---------------------------------------------------------------------------

/// The texts of a list, as a set.
pub open spec fn text_set(texts: Seq<String>) -> Set<Seq<char>> {
    Set::new(|u: Seq<char>| exists|i: int| 0 <= i < texts.len() && (#[trigger] texts[i])@ == u)
}

/// How often an error message was recorded.
pub struct MessageCount {
    pub count: u64,
}

impl View for MessageCount {
    type V = nat;

    open spec fn view(&self) -> nat {
        self.count as nat
    }
}

/// What the summary keeps of one signal.
pub struct SignalSummary {
    pub interval_us: Option<CaptureTimeUs>,
    pub filter: Option<SubscriptionFilterOutcome>,
    pub samples: u64,
    pub failures: u64,
    pub skipped: u64,
    pub first_sample_us: Option<CaptureTimeUs>,
    pub last_sample_us: Option<CaptureTimeUs>,
    pub values: Vec<String>,
    pub units: Vec<String>,
    pub successful_times: Vec<(CaptureTimeUs, CaptureTimeUs, CaptureTimeUs)>,
}

impl View for SignalSummary {
    type V = SignalSummaryView;

    open spec fn view(&self) -> SignalSummaryView {
        SignalSummaryView {
            interval_us: self.interval_us,
            filter: self.filter,
            samples: self.samples as nat,
            failures: self.failures as nat,
            skipped: self.skipped as nat,
            first_sample_us: self.first_sample_us,
            last_sample_us: self.last_sample_us,
            values: self.values@.map_values(|v: String| v@),
            units: text_set(self.units@),
            successful_times: self.successful_times@,
        }
    }
}

/// The summary of a capture. Signals and error messages are listed in the
/// order they were first seen; each is listed once.
pub struct CaptureSummary {
    pub signals: Vec<(String, SignalSummary)>,
    pub events: u64,
    pub successes: u64,
    pub failures: u64,
    pub skipped_events: u64,
    pub skipped_slots: u64,
    pub lifecycle: u64,
    pub first_offset_us: Option<CaptureTimeUs>,
    pub last_offset_us: Option<CaptureTimeUs>,
    pub profile: Option<String>,
    pub wallclock_ms: Option<u64>,
    pub session_errors: Vec<String>,
    pub error_messages: Vec<(String, MessageCount)>,
    pub all_reads: Vec<(CaptureTimeUs, CaptureTimeUs, CaptureTimeUs)>,
}

impl View for CaptureSummary {
    type V = CaptureSummaryView;

    open spec fn view(&self) -> CaptureSummaryView {
        CaptureSummaryView {
            signals: keyed_map(self.signals@),
            events: self.events as nat,
            successes: self.successes as nat,
            failures: self.failures as nat,
            skipped_events: self.skipped_events as nat,
            skipped_slots: self.skipped_slots as nat,
            lifecycle: self.lifecycle as nat,
            first_offset_us: self.first_offset_us,
            last_offset_us: self.last_offset_us,
            profile: match self.profile {
                Some(p) => Some(p@),
                None => None,
            },
            wallclock_ms: self.wallclock_ms,
            session_errors: self.session_errors@.map_values(|e: String| e@),
            error_messages: keyed_map(self.error_messages@),
            all_reads: self.all_reads@,
        }
    }
}

impl CaptureSummary {
    /// Each signal and each error message is listed once.
    pub open spec fn wf(&self) -> bool {
        distinct_keys(self.signals@) && distinct_keys(self.error_messages@)
    }
}

/// Every count of a summary fits in 64 bits.
pub open spec fn counts_fit(s: CaptureSummaryView) -> bool {
    &&& s.events <= u64::MAX
    &&& s.successes <= u64::MAX
    &&& s.failures <= u64::MAX
    &&& s.skipped_events <= u64::MAX
    &&& s.skipped_slots <= u64::MAX
    &&& s.lifecycle <= u64::MAX
    &&& forall|k: Seq<char>| #[trigger] s.signals.dom().contains(k) ==> s.signals[k].samples <= u64::MAX
        && s.signals[k].failures <= u64::MAX && s.signals[k].skipped <= u64::MAX
    &&& forall|k: Seq<char>| #[trigger] s.error_messages.dom().contains(k) ==> s.error_messages[k] <= u64::MAX
}

/// The counts of a summary are bounded by what it has seen.
pub open spec fn counts_bounded(s: CaptureSummaryView, n: nat, slots: nat) -> bool {
    &&& s.events == n
    &&& s.successes <= n
    &&& s.failures <= n
    &&& s.skipped_events <= n
    &&& s.lifecycle <= n
    &&& s.skipped_slots == slots
    &&& forall|k: Seq<char>| #[trigger] s.signals.dom().contains(k) ==> s.signals[k].samples <= n
        && s.signals[k].failures <= n && s.signals[k].skipped <= slots
    &&& forall|k: Seq<char>| #[trigger] s.error_messages.dom().contains(k) ==> s.error_messages[k] <= n
}

proof fn lemma_summary_bounded(events: Seq<CaptureEvent>)
    ensures
        counts_bounded(summary_of(events), events.len(), skipped_total(events)),
    decreases events.len(),
{
    if events.len() > 0 {
        lemma_summary_bounded(events.drop_last());
    }
}

proof fn lemma_skipped_prefix(events: Seq<CaptureEvent>, i: int)
    requires
        0 <= i <= events.len(),
    ensures
        skipped_total(events.take(i)) <= skipped_total(events),
    decreases events.len(),
{
    if i < events.len() {
        assert(events.drop_last().take(i) =~= events.take(i));
        lemma_skipped_prefix(events.drop_last(), i);
    } else {
        assert(events.take(i) =~= events);
    }
}

fn copy_text(text: &String) -> (r: String)
    ensures
        r@ == text@,
{
    owned(text.as_str())
}

impl CaptureSummary {
    fn new() -> (r: Self)
        ensures
            r.wf(),
            r@ == empty_summary(),
    {
        let r = CaptureSummary {
            signals: Vec::new(),
            events: 0,
            successes: 0,
            failures: 0,
            skipped_events: 0,
            skipped_slots: 0,
            lifecycle: 0,
            first_offset_us: None,
            last_offset_us: None,
            profile: None,
            wallclock_ms: None,
            session_errors: Vec::new(),
            error_messages: Vec::new(),
            all_reads: Vec::new(),
        };
        assert(r@.session_errors =~= Seq::<Seq<char>>::empty());
        assert(r@.signals =~= Map::<Seq<char>, SignalSummaryView>::empty());
        assert(r@.error_messages =~= Map::<Seq<char>, nat>::empty());
        r
    }

    fn observe_offset(&mut self, offset: u64)
        ensures
            final(self).signals == old(self).signals,
            final(self).error_messages == old(self).error_messages,
            final(self)@ == with_offset(old(self)@, offset),
    {
        self.first_offset_us = match self.first_offset_us {
            Some(old) => Some(if offset < old { offset } else { old }),
            None => Some(offset),
        };
        self.last_offset_us = match self.last_offset_us {
            Some(old) => Some(if offset > old { offset } else { old }),
            None => Some(offset),
        };
    }

    /// Take the signal entry of a semantic out of the list: the entry, and
    /// where it stood, or a new empty entry and the end of the list.
    fn take_signal(&mut self, semantic: &str) -> (r: (usize, SignalSummary))
        requires
            old(self).wf(),
        ensures
            r.0 <= final(self).signals@.len(),
            r.0 <= old(self).signals@.len(),
            r.1@ == signal_of(old(self)@, semantic@),
            final(self).error_messages == old(self).error_messages,
            final(self).events == old(self).events,
            forall|i: int| 0 <= i < final(self).signals@.len() ==> (#[trigger] final(self).signals@[i]).0@ != semantic@,
            ({
                let rest = final(self).signals@;
                r.0 < old(self).signals@.len() ==> old(self).signals@ == rest.insert(
                    r.0 as int,
                    old(self).signals@[r.0 as int],
                ) && old(self).signals@[r.0 as int].0@ == semantic@
            }),
            r.0 == old(self).signals@.len() ==> final(self).signals@ == old(self).signals@ && !old(
                self,
            )@.signals.dom().contains(semantic@),
            distinct_keys(final(self).signals@),
            final(self).first_offset_us == old(self).first_offset_us,
            final(self).last_offset_us == old(self).last_offset_us,
            final(self).successes == old(self).successes,
            final(self).failures == old(self).failures,
            final(self).skipped_events == old(self).skipped_events,
            final(self).skipped_slots == old(self).skipped_slots,
            final(self).lifecycle == old(self).lifecycle,
            final(self).profile == old(self).profile,
            final(self).wallclock_ms == old(self).wallclock_ms,
            final(self).session_errors == old(self).session_errors,
            final(self).all_reads == old(self).all_reads,
    {
        match key_index(&self.signals, semantic) {
            Some(index) => {
                proof {
                    lemma_keyed_map_index(self.signals@, index as int);
                }
                let ghost before = self.signals@;
                let (_, entry) = self.signals.remove(index);
                assert(before =~= self.signals@.insert(index as int, before[index as int]));
                assert forall|i: int| 0 <= i < self.signals@.len() implies (#[trigger] self.signals@[i]).0@
                    != semantic@ by {
                    if i < index {
                        assert(self.signals@[i] == before[i]);
                    } else {
                        assert(self.signals@[i] == before[i + 1]);
                    }
                }
                assert(distinct_keys(self.signals@)) by {
                    assert forall|a: int, b: int|
                        0 <= a < self.signals@.len() && 0 <= b < self.signals@.len() && a != b implies (
                        #[trigger] self.signals@[a]).0@ != (#[trigger] self.signals@[b]).0@ by {
                        let a2 = if a < index { a } else { a + 1 };
                        let b2 = if b < index { b } else { b + 1 };
                        assert(self.signals@[a] == before[a2]);
                        assert(self.signals@[b] == before[b2]);
                    }
                }
                (index, entry)
            },
            None => {
                proof {
                    lemma_keyed_map_absent(self.signals@, semantic@);
                }
                let entry = SignalSummary {
                    interval_us: None,
                    filter: None,
                    samples: 0,
                    failures: 0,
                    skipped: 0,
                    first_sample_us: None,
                    last_sample_us: None,
                    values: Vec::new(),
                    units: Vec::new(),
                    successful_times: Vec::new(),
                };
                assert(entry@.units =~= Set::<Seq<char>>::empty());
                assert(entry@.values =~= Seq::<Seq<char>>::empty());
                assert(entry@.successful_times =~= Seq::<(u64, u64, u64)>::empty());
                (self.signals.len(), entry)
            },
        }
    }

    /// Put a signal entry back where `take_signal` found it, or at the end.
    fn put_signal(
        &mut self,
        index: usize,
        found: bool,
        semantic: &str,
        entry: SignalSummary,
        Ghost(before): Ghost<Seq<(String, SignalSummary)>>,
    )
        requires
            index <= old(self).signals@.len(),
            found <==> index < before.len(),
            index <= before.len(),
            distinct_keys(before),
            forall|i: int| 0 <= i < old(self).signals@.len() ==> (#[trigger] old(self).signals@[i]).0@ != semantic@,
            distinct_keys(old(self).signals@),
            index < before.len() ==> before == old(self).signals@.insert(index as int, before[index as int])
                && before[index as int].0@ == semantic@,
            index == before.len() ==> old(self).signals@ == before,
        ensures
            distinct_keys(final(self).signals@),
            keyed_map(final(self).signals@) == keyed_map(before).insert(semantic@, entry@),
            final(self).error_messages == old(self).error_messages,
            final(self).events == old(self).events,
            final(self).first_offset_us == old(self).first_offset_us,
            final(self).last_offset_us == old(self).last_offset_us,
            final(self).successes == old(self).successes,
            final(self).failures == old(self).failures,
            final(self).skipped_events == old(self).skipped_events,
            final(self).skipped_slots == old(self).skipped_slots,
            final(self).lifecycle == old(self).lifecycle,
            final(self).profile == old(self).profile,
            final(self).wallclock_ms == old(self).wallclock_ms,
            final(self).session_errors == old(self).session_errors,
            final(self).all_reads == old(self).all_reads,
    {
        let key = owned(semantic);
        let ghost rest = self.signals@;
        if found {
            let ghost value = entry;
            self.signals.insert(index, (key, entry));
            assert(self.signals@ =~= before.update(index as int, (before[index as int].0, value)).update(
                index as int,
                (key, value),
            ));
            proof {
                lemma_keyed_map_update(before, index as int, value);
                let updated = before.update(index as int, (before[index as int].0, value));
                assert(keyed_map(updated) == keyed_map(before).insert(semantic@, value@));
                lemma_same_keys_same_map(updated, self.signals@);
                assert(distinct_keys(self.signals@)) by {
                    assert forall|a: int, b: int|
                        0 <= a < self.signals@.len() && 0 <= b < self.signals@.len() && a != b implies (
                        #[trigger] self.signals@[a]).0@ != (#[trigger] self.signals@[b]).0@ by {
                        assert(self.signals@[a].0@ == updated[a].0@);
                        assert(self.signals@[b].0@ == updated[b].0@);
                    }
                }
            }
        } else {
            proof {
                lemma_keyed_push(rest, key, entry);
            }
            self.signals.push((key, entry));
        }
    }
}

/// Two keyed lists with equal key texts and values hold the same map.
proof fn lemma_same_keys_same_map<V: View>(a: Seq<(String, V)>, b: Seq<(String, V)>)
    requires
        a.len() == b.len(),
        forall|i: int| 0 <= i < a.len() ==> (#[trigger] a[i]).0@ == b[i].0@ && a[i].1@ == b[i].1@,
    ensures
        keyed_map(a) == keyed_map(b),
    decreases a.len(),
{
    if a.len() > 0 {
        lemma_same_keys_same_map(a.drop_last(), b.drop_last());
        assert(a.last() == a[a.len() - 1]);
        assert(b.last() == b[b.len() - 1]);
    }
}


impl CaptureSummary {
    fn count_error(&mut self, error: &str)
        requires
            old(self).wf(),
            error_count(old(self)@, error@) + 1 <= u64::MAX,
        ensures
            final(self).wf(),
            final(self)@ == (CaptureSummaryView {
                error_messages: old(self)@.error_messages.insert(error@, error_count(old(self)@, error@) + 1),
                ..old(self)@
            }),
    {
        match key_index(&self.error_messages, error) {
            Some(index) => {
                proof {
                    lemma_keyed_map_index(self.error_messages@, index as int);
                }
                let ghost before = self.error_messages@;
                let (key, tally) = self.error_messages.remove(index);
                let next = MessageCount { count: tally.count + 1 };
                let ghost value = next;
                self.error_messages.insert(index, (key, next));
                proof {
                    assert(self.error_messages@ =~= before.update(index as int, (before[index as int].0, value)));
                    lemma_keyed_map_update(before, index as int, value);
                }
            },
            None => {
                proof {
                    lemma_keyed_map_absent(self.error_messages@, error@);
                }
                let key = owned(error);
                proof {
                    lemma_keyed_push(self.error_messages@, key, MessageCount { count: 1 });
                }
                self.error_messages.push((key, MessageCount { count: 1 }));
            },
        }
    }
}


/// The units with one more added, each listed once.
fn add_unit(units: &mut Vec<String>, unit: &str)
    ensures
        text_set(final(units)@) == text_set(old(units)@).insert(unit@),
{
    let mut i: usize = 0;
    while i < units.len()
        invariant
            i <= units@.len(),
            forall|j: int| 0 <= j < i ==> (#[trigger] units@[j])@ != unit@,
        decreases units@.len() - i,
    {
        if str_eq(units[i].as_str(), unit) {
            assert(text_set(units@) =~= text_set(units@).insert(unit@));
            return;
        }
        i += 1;
    }
    let ghost before = units@;
    units.push(owned(unit));
    assert(text_set(units@) =~= text_set(before).insert(unit@)) by {
        assert forall|u: Seq<char>| text_set(units@).contains(u) <==> text_set(before).insert(unit@).contains(u) by {
            if text_set(before).contains(u) {
                let j = choose|j: int| 0 <= j < before.len() && (#[trigger] before[j])@ == u;
                assert(units@[j] == before[j]);
            }
            if u == unit@ {
                assert(units@[before.len() as int]@ == u);
            }
            if text_set(units@).contains(u) {
                let j = choose|j: int| 0 <= j < units@.len() && (#[trigger] units@[j])@ == u;
                if j < before.len() {
                    assert(units@[j] == before[j]);
                }
            }
        }
    }
}

impl CaptureSummary {
    fn step(&mut self, event: &CaptureEvent)
        requires
            old(self).wf(),
            counts_fit(summary_step(old(self)@, *event)),
        ensures
            final(self).wf(),
            final(self)@ == summary_step(old(self)@, *event),
    {
        let ghost s0 = self@;
        let ghost next = summary_step(s0, *event);
        self.events = self.events + 1;
        match event {
            CaptureEvent::CaptureStarted { wallclock_ms, profile } => {
                self.lifecycle = self.lifecycle + 1;
                self.wallclock_ms = *wallclock_ms;
                self.profile = match profile {
                    Some(p) => Some(copy_text(p)),
                    None => None,
                };
            },
            CaptureEvent::SessionInitialized => {
                self.lifecycle = self.lifecycle + 1;
            },
            CaptureEvent::SupportDiscovery { .. } => {
                self.lifecycle = self.lifecycle + 1;
            },
            CaptureEvent::ShutdownRequested => {
                self.lifecycle = self.lifecycle + 1;
            },
            CaptureEvent::ResponsesObserved { .. } => {},
            CaptureEvent::SessionStopped { offset_us } => {
                self.lifecycle = self.lifecycle + 1;
                self.observe_offset(*offset_us);
            },
            CaptureEvent::SessionError { error } => {
                self.lifecycle = self.lifecycle + 1;
                let ghost before = self.session_errors@;
                self.session_errors.push(copy_text(error));
                assert(self.session_errors@.map_values(|e: String| e@) =~= before.map_values(
                    |e: String| e@,
                ).push(error@));
            },
            CaptureEvent::SubscriptionConfigured { semantic, requested_interval_us, filter } => {
                let ghost before = self.signals@;
                let total = self.signals.len();
                let (index, entry) = self.take_signal(semantic.as_str());
                let mut entry = entry;
                entry.interval_us = Some(*requested_interval_us);
                entry.filter = Some(*filter);
                self.put_signal(index, index < total, semantic.as_str(), entry, Ghost(before));
            },
            CaptureEvent::ReadSucceeded {
                semantic,
                requested_interval_us,
                due_us,
                started_us,
                finished_us,
                value,
                unit,
                ..
            } => {
                self.successes = self.successes + 1;
                self.observe_offset(*due_us);
                self.observe_offset(*finished_us);
                let ghost before = self.signals@;
                let ghost old_signal = signal_of(s0, semantic@);
                assert(next.signals.dom().contains(semantic@));
                let total = self.signals.len();
                let (index, entry) = self.take_signal(semantic.as_str());
                let mut entry = entry;
                entry.interval_us = match entry.interval_us {
                    Some(i) => Some(i),
                    None => Some(*requested_interval_us),
                };
                entry.samples = entry.samples + 1;
                entry.first_sample_us = match entry.first_sample_us {
                    Some(old) => Some(if *finished_us < old { *finished_us } else { old }),
                    None => Some(*finished_us),
                };
                entry.last_sample_us = match entry.last_sample_us {
                    Some(old) => Some(if *finished_us > old { *finished_us } else { old }),
                    None => Some(*finished_us),
                };
                add_unit(&mut entry.units, unit.as_str());
                match value {
                    CaptureValue::Number { numeral } => {
                        let ghost before = entry.values@;
                        entry.values.push(copy_text(numeral));
                        assert(entry.values@.map_values(|v: String| v@) =~= before.map_values(
                            |v: String| v@,
                        ).push(numeral@));
                    },
                    _ => {},
                }
                entry.successful_times.push((*due_us, *started_us, *finished_us));
                self.put_signal(index, index < total, semantic.as_str(), entry, Ghost(before));
                self.all_reads.push((*due_us, *started_us, *finished_us));
            },
            CaptureEvent::ReadFailed { semantic, requested_interval_us, timing, error, .. } => {
                self.failures = self.failures + 1;
                assert(next.error_messages.dom().contains(error@));
                self.count_error(error.as_str());
                let ghost before = self.signals@;
                assert(next.signals.dom().contains(semantic@));
                let total = self.signals.len();
                let (index, entry) = self.take_signal(semantic.as_str());
                let mut entry = entry;
                entry.interval_us = match entry.interval_us {
                    Some(i) => Some(i),
                    None => Some(*requested_interval_us),
                };
                entry.failures = entry.failures + 1;
                self.put_signal(index, index < total, semantic.as_str(), entry, Ghost(before));
                match timing {
                    Some(t) => {
                        self.observe_offset(t.due_us);
                        self.observe_offset(t.finished_us);
                        self.all_reads.push((t.due_us, t.started_us, t.finished_us));
                    },
                    None => {},
                }
            },
            CaptureEvent::SlotsSkipped { semantic, count, first_due_us, last_due_us } => {
                self.skipped_events = self.skipped_events + 1;
                self.skipped_slots = self.skipped_slots + *count;
                self.observe_offset(*first_due_us);
                self.observe_offset(*last_due_us);
                let ghost before = self.signals@;
                assert(next.signals.dom().contains(semantic@));
                let total = self.signals.len();
                let (index, entry) = self.take_signal(semantic.as_str());
                let mut entry = entry;
                entry.skipped = entry.skipped + *count;
                self.put_signal(index, index < total, semantic.as_str(), entry, Ghost(before));
            },
            _ => {},
        }
    }
}

/// The summary of a capture: counts of events, reads, failures, skipped
/// slots and lifecycle events; the first and last offsets; the profile and
/// start time; the session errors; how often each read error occurred; each
/// signal's interval, filter outcome, samples, failures, skipped slots,
/// sample times, units and numeric values; and the timing of every read.
pub fn summary(capture: &ParsedCapture) -> (r: CaptureSummary)
    requires
        skipped_total(capture.events@) <= u64::MAX,
    ensures
        r.wf(),
        r@ == summary_of(capture.events@),
{
    let ghost events = capture.events@;
    let mut summary = CaptureSummary::new();
    let mut i: usize = 0;
    while i < capture.events.len()
        invariant
            i <= events.len(),
            events == capture.events@,
            skipped_total(events) <= u64::MAX,
            summary.wf(),
            summary@ == summary_of(events.take(i as int)),
        decreases events.len() - i,
    {
        proof {
            let prefix = events.take(i + 1);
            assert(prefix.drop_last() =~= events.take(i as int));
            assert(prefix.last() == events[i as int]);
            lemma_summary_bounded(prefix);
            lemma_skipped_prefix(events, i + 1);
            assert(i + 1 <= usize::MAX);
        }
        summary.step(&capture.events[i]);
        i += 1;
    }
    assert(events.take(events.len() as int) =~= events);
    summary
}


impl crate::order::Ordered for u64 {
    open spec fn model_le(a: u64, b: u64) -> bool {
        a <= b
    }

    proof fn lemma_model_le_total_ordering() {
        assert(vstd::relations::total_ordering(|a: u64, b: u64| a <= b));
    }

    fn le(&self, other: &Self) -> (r: bool) {
        *self <= *other
    }
}

/// The values in ascending order.
pub open spec fn ascending(values: Seq<u64>) -> Seq<u64> {
    values.sort_by(crate::order::model_leq::<u64>())
}

/// The nearest-rank percentile `numerator / denominator` of the values: the
/// element at rank `ceil(n * numerator / denominator)` of the sorted values,
/// counting from one (rank zero reads the first), the product saturating at
/// `u64::MAX`; `None` for no values.
pub open spec fn nearest_rank(values: Seq<u64>, numerator: u64, denominator: u64) -> Option<u64> {
    if values.len() == 0 {
        None
    } else {
        let product = if values.len() * numerator > u64::MAX {
            u64::MAX as int
        } else {
            values.len() * numerator
        };
        let rank = product / (denominator as int) + if product % (denominator as int) != 0 {
            1int
        } else {
            0int
        };
        let index = if rank > 0 {
            rank - 1
        } else {
            0
        };
        if index < values.len() {
            Some(ascending(values)[index])
        } else {
            None
        }
    }
}

/// The largest value, or `None`.
pub open spec fn largest(values: Seq<u64>) -> Option<u64>
    decreases values.len(),
{
    if values.len() == 0 {
        None
    } else {
        upper(largest(values.drop_last()), values.last())
    }
}

/// The median, 95th percentile and maximum of the values, or `None`.
pub open spec fn metrics_of(values: Seq<u64>) -> Option<(u64, u64, u64)> {
    if values.len() == 0 {
        None
    } else {
        Some((
            nearest_rank(values, 50, 100).unwrap(),
            nearest_rank(values, 95, 100).unwrap(),
            largest(values).unwrap(),
        ))
    }
}

fn nearest_rank_exec(sorted: &Vec<u64>, numerator: u64, denominator: u64, Ghost(values): Ghost<Seq<u64>>) -> (r:
    Option<u64>)
    requires
        sorted@ == ascending(values),
        sorted@.len() == values.len(),
        0 < denominator,
    ensures
        r == nearest_rank(values, numerator, denominator),
{
    if sorted.len() == 0 {
        return None;
    }
    let n = sorted.len() as u64;
    let product = match n.checked_mul(numerator) {
        Some(p) => p,
        None => u64::MAX,
    };
    assert(product % denominator != 0 ==> product / denominator < u64::MAX) by (nonlinear_arith)
        requires
            0 < denominator,
            product <= u64::MAX,
    {
        if denominator == 1 {
            assert(product % denominator == 0);
        } else {
            assert(product / denominator <= product / 2);
        }
    }
    let rank = product / denominator + if product % denominator != 0 {
        1
    } else {
        0
    };
    let index: u64 = if rank > 0 {
        rank - 1
    } else {
        0
    };
    if index < n {
        Some(sorted[index as usize])
    } else {
        None
    }
}


/// Each read was started no earlier than due and finished no earlier than
/// started.
pub open spec fn reads_monotonic(reads: Seq<(u64, u64, u64)>) -> bool {
    forall|i: int| 0 <= i < reads.len() ==> (#[trigger] reads[i]).0 <= reads[i].1 && reads[i].1 <= reads[i].2
}

/// Successive successful samples of a signal never finish earlier.
pub open spec fn samples_ordered(times: Seq<(u64, u64, u64)>) -> bool {
    forall|i: int| 0 <= i < times.len() - 1 ==> (#[trigger] times[i]).2 <= times[i + 1].2
}

/// How long each read took.
pub open spec fn latencies(reads: Seq<(u64, u64, u64)>) -> Seq<u64> {
    Seq::new(reads.len(), |i: int| (reads[i].2 - reads[i].1) as u64)
}

/// How late each read was started.
pub open spec fn lateness(reads: Seq<(u64, u64, u64)>) -> Seq<u64> {
    Seq::new(reads.len(), |i: int| (reads[i].1 - reads[i].0) as u64)
}

/// The time between successive samples.
pub open spec fn sample_intervals(times: Seq<(u64, u64, u64)>) -> Seq<u64> {
    Seq::new(if times.len() > 0 { (times.len() - 1) as nat } else { 0 }, |i: int| (times[i + 1].2 - times[i].2) as u64)
}

/// From the first to the last sample, or `None` without samples.
pub open spec fn sample_span(times: Seq<(u64, u64, u64)>) -> Option<u64> {
    if times.len() == 0 {
        None
    } else {
        Some((times.last().2 - times[0].2) as u64)
    }
}

/// What the transport-capability report computes of one signal.
pub struct SignalCapabilityView {
    pub interval_us: Option<u64>,
    pub samples: nat,
    pub failures: nat,
    pub skipped: nat,
    pub span_us: Option<u64>,
    pub intervals: Option<(u64, u64, u64)>,
    pub longest_gap_us: Option<u64>,
}

pub open spec fn signal_capability_of(signal: SignalSummaryView) -> SignalCapabilityView {
    SignalCapabilityView {
        interval_us: signal.interval_us,
        samples: signal.samples,
        failures: signal.failures,
        skipped: signal.skipped,
        span_us: sample_span(signal.successful_times),
        intervals: metrics_of(sample_intervals(signal.successful_times)),
        longest_gap_us: largest(sample_intervals(signal.successful_times)),
    }
}

/// What the transport-capability report computes of a capture.
pub struct CapabilityStatsView {
    pub duration_us: Option<u64>,
    pub successes: nat,
    pub failures: nat,
    pub latency: Option<(u64, u64, u64)>,
    pub lateness: Option<(u64, u64, u64)>,
    pub skipped_slots: nat,
    pub skipped_events: nat,
    pub session_errors: nat,
    pub signals: Map<Seq<char>, SignalCapabilityView>,
    pub error_messages: Map<Seq<char>, nat>,
}

/// The capture's duration: from its first to its last offset.
pub open spec fn duration_of(s: CaptureSummaryView) -> Option<u64> {
    match (s.first_offset_us, s.last_offset_us) {
        (Some(first), Some(last)) => Some((last - first) as u64),
        _ => None,
    }
}

pub open spec fn capability_stats_of(s: CaptureSummaryView) -> CapabilityStatsView {
    CapabilityStatsView {
        duration_us: duration_of(s),
        successes: s.successes,
        failures: s.failures,
        latency: metrics_of(latencies(s.all_reads)),
        lateness: metrics_of(lateness(s.all_reads)),
        skipped_slots: s.skipped_slots,
        skipped_events: s.skipped_events,
        session_errors: s.session_errors.len(),
        signals: s.signals.map_values(|signal: SignalSummaryView| signal_capability_of(signal)),
        error_messages: s.error_messages,
    }
}

/// The capture can be reported on: every read's timing is monotonic and
/// each signal's samples finish in order.
pub open spec fn reportable(s: CaptureSummaryView) -> bool {
    &&& reads_monotonic(s.all_reads)
    &&& forall|k: Seq<char>| #[trigger] s.signals.dom().contains(k) ==> samples_ordered(s.signals[k].successful_times)
}

proof fn lemma_offsets(events: Seq<CaptureEvent>)
    ensures
        summary_of(events).first_offset_us is Some <==> summary_of(events).last_offset_us is Some,
        summary_of(events).first_offset_us is Some ==> summary_of(events).first_offset_us.unwrap()
            <= summary_of(events).last_offset_us.unwrap(),
    decreases events.len(),
{
    if events.len() > 0 {
        lemma_offsets(events.drop_last());
    }
}

fn copy_values(values: &Vec<u64>) -> (r: Vec<u64>)
    ensures
        r@ == values@,
{
    let mut r: Vec<u64> = Vec::new();
    let mut i: usize = 0;
    while i < values.len()
        invariant
            i <= values@.len(),
            r@ == values@.take(i as int),
        decreases values@.len() - i,
    {
        r.push(values[i]);
        assert(values@.take(i + 1) =~= values@.take(i as int).push(values@[i as int]));
        i += 1;
    }
    assert(values@.take(values@.len() as int) =~= values@);
    r
}

fn largest_exec(values: &Vec<u64>) -> (r: Option<u64>)
    ensures
        r == largest(values@),
{
    let mut r: Option<u64> = None;
    let mut i: usize = 0;
    while i < values.len()
        invariant
            i <= values@.len(),
            r == largest(values@.take(i as int)),
        decreases values@.len() - i,
    {
        let v = values[i];
        assert(values@.take(i + 1).drop_last() =~= values@.take(i as int));
        r = match r {
            Some(old) => Some(if v > old { v } else { old }),
            None => Some(v),
        };
        i += 1;
    }
    assert(values@.take(values@.len() as int) =~= values@);
    r
}

/// The median, 95th percentile and maximum of the values, or `None`.
pub fn metrics(values: &Vec<u64>) -> (r: Option<(u64, u64, u64)>)
    ensures
        r == metrics_of(values@),
{
    if values.len() == 0 {
        return None;
    }
    let sorted = crate::order::sort_by_model(copy_values(values));
    assert(crate::order::models(sorted@) =~= sorted@);
    assert(crate::order::models(values@) =~= values@);
    proof {
        values@.lemma_sort_by_ensures(crate::order::model_leq::<u64>());
        vstd::seq_lib::to_multiset_len(sorted@);
        vstd::seq_lib::to_multiset_len(values@);
    }
    let p50 = nearest_rank_exec(&sorted, 50, 100, Ghost(values@));
    let p95 = nearest_rank_exec(&sorted, 95, 100, Ghost(values@));
    let maximum = largest_exec(values);
    match (p50, p95, maximum) {
        (Some(a), Some(b), Some(c)) => Some((a, b, c)),
        _ => None,
    }
}


/// What the transport-capability report computes of one signal.
pub struct SignalCapability {
    pub interval_us: Option<u64>,
    pub samples: u64,
    pub failures: u64,
    pub skipped: u64,
    pub span_us: Option<u64>,
    pub intervals: Option<(u64, u64, u64)>,
    pub longest_gap_us: Option<u64>,
}

impl View for SignalCapability {
    type V = SignalCapabilityView;

    open spec fn view(&self) -> SignalCapabilityView {
        SignalCapabilityView {
            interval_us: self.interval_us,
            samples: self.samples as nat,
            failures: self.failures as nat,
            skipped: self.skipped as nat,
            span_us: self.span_us,
            intervals: self.intervals,
            longest_gap_us: self.longest_gap_us,
        }
    }
}

/// What the transport-capability report computes of a capture; signals and
/// error messages in the order they were first seen.
pub struct CapabilityStats {
    pub duration_us: Option<u64>,
    pub successes: u64,
    pub failures: u64,
    pub latency: Option<(u64, u64, u64)>,
    pub lateness: Option<(u64, u64, u64)>,
    pub skipped_slots: u64,
    pub skipped_events: u64,
    pub session_errors: u64,
    pub signals: Vec<(String, SignalCapability)>,
    pub error_messages: Vec<(String, MessageCount)>,
}

impl View for CapabilityStats {
    type V = CapabilityStatsView;

    open spec fn view(&self) -> CapabilityStatsView {
        CapabilityStatsView {
            duration_us: self.duration_us,
            successes: self.successes as nat,
            failures: self.failures as nat,
            latency: self.latency,
            lateness: self.lateness,
            skipped_slots: self.skipped_slots as nat,
            skipped_events: self.skipped_events as nat,
            session_errors: self.session_errors as nat,
            signals: keyed_map(self.signals@),
            error_messages: keyed_map(self.error_messages@),
        }
    }
}

proof fn lemma_samples_ordered(times: Seq<(u64, u64, u64)>, i: int, j: int)
    requires
        samples_ordered(times),
        0 <= i <= j < times.len(),
    ensures
        times[i].2 <= times[j].2,
    decreases j - i,
{
    if i < j {
        lemma_samples_ordered(times, i, j - 1);
        assert(times[j - 1].2 <= times[j].2);
    }
}

fn signal_capability(signal: &SignalSummary) -> (r: SignalCapability)
    requires
        samples_ordered(signal@.successful_times),
    ensures
        r@ == signal_capability_of(signal@),
{
    let times = &signal.successful_times;
    let span_us = if times.len() == 0 {
        None
    } else {
        proof {
            lemma_samples_ordered(times@, 0, times@.len() - 1);
        }
        Some(times[times.len() - 1].2 - times[0].2)
    };
    let mut intervals: Vec<u64> = Vec::new();
    let mut i: usize = 1;
    while i < times.len()
        invariant
            1 <= i <= times@.len() || (i == 1 && times@.len() == 0),
            samples_ordered(times@),
            intervals@.len() == i - 1,
            forall|k: int| 0 <= k < i - 1 ==> #[trigger] intervals@[k] == (times@[k + 1].2 - times@[k].2) as u64,
        decreases times@.len() - i,
    {
        assert(times@[i - 1].2 <= times@[i as int].2);
        intervals.push(times[i].2 - times[i - 1].2);
        i += 1;
    }
    assert(intervals@ =~= sample_intervals(times@));
    SignalCapability {
        interval_us: signal.interval_us,
        samples: signal.samples,
        failures: signal.failures,
        skipped: signal.skipped,
        span_us,
        intervals: metrics(&intervals),
        longest_gap_us: largest_exec(&intervals),
    }
}

proof fn lemma_keyed_map_values(
    input: Seq<(String, SignalSummary)>,
    output: Seq<(String, SignalCapability)>,
)
    requires
        input.len() == output.len(),
        forall|i: int| 0 <= i < input.len() ==> (#[trigger] output[i]).0@ == input[i].0@ && output[i].1@
            == signal_capability_of(input[i].1@),
    ensures
        keyed_map(output) == keyed_map(input).map_values(
            |signal: SignalSummaryView| signal_capability_of(signal),
        ),
    decreases input.len(),
{
    if input.len() > 0 {
        lemma_keyed_map_values(input.drop_last(), output.drop_last());
        assert(input.last() == input[input.len() - 1]);
        assert(output.last() == output[output.len() - 1]);
        assert(keyed_map(output) =~= keyed_map(input).map_values(
            |signal: SignalSummaryView| signal_capability_of(signal),
        ));
    } else {
        assert(keyed_map(output) =~= keyed_map(input).map_values(
            |signal: SignalSummaryView| signal_capability_of(signal),
        ));
    }
}

fn read_times(reads: &Vec<(u64, u64, u64)>, latency: bool) -> (r: Vec<u64>)
    requires
        reads_monotonic(reads@),
    ensures
        latency ==> r@ == latencies(reads@),
        !latency ==> r@ == lateness(reads@),
{
    let mut r: Vec<u64> = Vec::new();
    let mut i: usize = 0;
    while i < reads.len()
        invariant
            i <= reads@.len(),
            reads_monotonic(reads@),
            r@.len() == i,
            forall|k: int| 0 <= k < i ==> #[trigger] r@[k] == if latency {
                (reads@[k].2 - reads@[k].1) as u64
            } else {
                (reads@[k].1 - reads@[k].0) as u64
            },
        decreases reads@.len() - i,
    {
        let (due, started, finished) = reads[i];
        assert(reads@[i as int].0 <= reads@[i as int].1 && reads@[i as int].1 <= reads@[i as int].2);
        if latency {
            r.push(finished - started);
        } else {
            r.push(started - due);
        }
        i += 1;
    }
    assert(latency ==> r@ =~= latencies(reads@));
    assert(!latency ==> r@ =~= lateness(reads@));
    r
}

/// What the transport-capability report states of a capture: its duration,
/// read counts, read latency and scheduler lateness (median, 95th
/// percentile, maximum), skipped slots, session errors, each signal's sample
/// span and sample intervals, and how often each error occurred.
pub fn capability_stats(capture: &ParsedCapture) -> (r: CapabilityStats)
    requires
        skipped_total(capture.events@) <= u64::MAX,
        reportable(summary_of(capture.events@)),
    ensures
        r@ == capability_stats_of(summary_of(capture.events@)),
{
    proof {
        lemma_offsets(capture.events@);
        lemma_summary_bounded(capture.events@);
    }
    let summary = summary(capture);
    let duration_us = match (summary.first_offset_us, summary.last_offset_us) {
        (Some(first), Some(last)) => Some(last - first),
        _ => None,
    };
    let latency_values = read_times(&summary.all_reads, true);
    let lateness_values = read_times(&summary.all_reads, false);
    let CaptureSummary { signals: summary_signals, error_messages, session_errors, .. } = summary;
    let ghost input = summary_signals@;
    let mut signals: Vec<(String, SignalCapability)> = Vec::new();
    let mut i: usize = 0;
    while i < summary_signals.len()
        invariant
            i <= input.len(),
            input == summary_signals@,
            forall|k: Seq<char>| #[trigger] keyed_map(input).dom().contains(k) ==> samples_ordered(
                keyed_map(input)[k].successful_times,
            ),
            distinct_keys(input),
            signals@.len() == i,
            forall|k: int| 0 <= k < i ==> (#[trigger] signals@[k]).0@ == input[k].0@ && signals@[k].1@
                == signal_capability_of(input[k].1@),
        decreases input.len() - i,
    {
        proof {
            lemma_keyed_map_index(input, i as int);
        }
        let entry = signal_capability(&summary_signals[i].1);
        signals.push((copy_text(&summary_signals[i].0), entry));
        i += 1;
    }
    proof {
        lemma_keyed_map_values(input, signals@);
    }
    CapabilityStats {
        duration_us,
        successes: summary.successes,
        failures: summary.failures,
        latency: metrics(&latency_values),
        lateness: metrics(&lateness_values),
        skipped_slots: summary.skipped_slots,
        skipped_events: summary.skipped_events,
        session_errors: session_errors.len() as u64,
        signals,
        error_messages,
    }
}

/// A duration as the reports write it: whole seconds, whole milliseconds or
/// microseconds.
pub open spec fn us_text(value: u64) -> Seq<char> {
    if value % 1_000_000 == 0 {
        crate::text::decimal((value / 1_000_000) as nat) + " s"@
    } else if value % 1_000 == 0 {
        crate::text::decimal((value / 1_000) as nat) + " ms"@
    } else {
        crate::text::decimal(value as nat) + " us"@
    }
}

pub fn format_us(value: u64) -> (r: String)
    ensures
        r@ == us_text(value),
{
    if value % 1_000_000 == 0 {
        let number = crate::text::decimal_text(value / 1_000_000);
        crate::text::concat(number.as_str(), " s")
    } else if value % 1_000 == 0 {
        let number = crate::text::decimal_text(value / 1_000);
        crate::text::concat(number.as_str(), " ms")
    } else {
        let number = crate::text::decimal_text(value);
        crate::text::concat(number.as_str(), " us")
    }
}

/// The median, 95th percentile and maximum as the reports write them.
pub open spec fn metrics_text_of(metrics: Option<(u64, u64, u64)>) -> Seq<char> {
    match metrics {
        Some((p50, p95, maximum)) => us_text(p50) + " / "@ + us_text(p95) + " / "@ + us_text(maximum),
        None => "unavailable"@,
    }
}

pub fn metrics_text(metrics: Option<(u64, u64, u64)>) -> (r: String)
    ensures
        r@ == metrics_text_of(metrics),
{
    match metrics {
        Some((p50, p95, maximum)) => {
            let first = format_us(p50);
            let text = crate::text::concat(first.as_str(), " / ");
            let second = format_us(p95);
            let text = crate::text::concat(text.as_str(), second.as_str());
            let text = crate::text::concat(text.as_str(), " / ");
            let third = format_us(maximum);
            crate::text::concat(text.as_str(), third.as_str())
        },
        None => owned("unavailable"),
    }
}


/// How many reads of `semantic` failed among the events.
pub open spec fn failed_reads_of(events: Seq<CaptureEvent>, semantic: Seq<char>) -> nat
    decreases events.len(),
{
    if events.len() == 0 {
        0
    } else {
        failed_reads_of(events.drop_last(), semantic) + match events.last() {
            CaptureEvent::ReadFailed { semantic: s, .. } => if s@ == semantic {
                1nat
            } else {
                0nat
            },
            _ => 0nat,
        }
    }
}

/// How many reads failed among the events.
pub open spec fn failed_reads(events: Seq<CaptureEvent>) -> nat
    decreases events.len(),
{
    if events.len() == 0 {
        0
    } else {
        failed_reads(events.drop_last()) + if events.last() is ReadFailed {
            1nat
        } else {
            0nat
        }
    }
}

proof fn lemma_step_failures(s: CaptureSummaryView, event: CaptureEvent, semantic: Seq<char>)
    ensures
        signal_of(summary_step(s, event), semantic).failures == signal_of(s, semantic).failures + match event {
            CaptureEvent::ReadFailed { semantic: f, .. } => if f@ == semantic {
                1nat
            } else {
                0nat
            },
            _ => 0nat,
        },
        summary_step(s, event).failures == s.failures + if event is ReadFailed {
            1nat
        } else {
            0nat
        },
{
}

/// Every signal counts exactly the failed reads of its semantic, and the
/// capture counts every failed read: a failure is never lost, never moved to
/// another signal and never counted twice.
pub proof fn law_failures_are_counted_per_signal(events: Seq<CaptureEvent>, semantic: Seq<char>)
    ensures
        signal_of(summary_of(events), semantic).failures == failed_reads_of(events, semantic),
        summary_of(events).failures == failed_reads(events),
        failed_reads_of(events, semantic) > 0 ==> summary_of(events).signals.dom().contains(semantic),
    decreases events.len(),
{
    if events.len() > 0 {
        law_failures_are_counted_per_signal(events.drop_last(), semantic);
        lemma_step_failures(summary_of(events.drop_last()), events.last(), semantic);
        if failed_reads_of(events, semantic) > 0 && !summary_of(events).signals.dom().contains(semantic) {
            assert(signal_of(summary_of(events), semantic).failures == 0);
        }
    }
}

} // verus!
