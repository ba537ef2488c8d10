//! A bounded, chronological audit of completed reads and observed responses.

use std::collections::VecDeque;

use vstd::prelude::*;

use crate::capture_events::{ResponderEvidence, ResponderEvidenceView};
use crate::signals::{now_ms, Transaction};
use crate::text::{byte_vec, concat, owned};

verus! {

/// One audited read.
#[derive(Clone, Debug, PartialEq)]
pub struct AuditEntry {
    pub timestamp_ms: u128,
    pub source: String,
    pub semantic: &'static str,
    pub request: Vec<u8>,
    pub response: Vec<u8>,
}

/// The model of an audit entry.
pub struct AuditEntryView {
    pub timestamp_ms: u128,
    pub source: Seq<char>,
    pub semantic: Seq<char>,
    pub request: Seq<u8>,
    pub response: Seq<u8>,
}

impl View for AuditEntry {
    type V = AuditEntryView;

    open spec fn view(&self) -> AuditEntryView {
        AuditEntryView {
            timestamp_ms: self.timestamp_ms,
            source: self.source@,
            semantic: self.semantic@,
            request: self.request@,
            response: self.response@,
        }
    }
}

impl AuditEntry {
    /// A copy of this entry.
    pub fn duplicate(&self) -> (r: Self)
        ensures
            r@ == self@,
    {
        AuditEntry {
            timestamp_ms: self.timestamp_ms,
            source: self.source.clone(),
            semantic: self.semantic,
            request: self.request.clone(),
            response: self.response.clone(),
        }
    }
}

/// One audited set of responses to a request, with the responder selection.
#[derive(Clone, Debug, PartialEq, Eq)]
pub struct ResponseAuditEntry {
    pub timestamp_ms: u128,
    pub semantic: String,
    pub request: Vec<u8>,
    pub responses: Vec<ResponderEvidence>,
    pub selected_responder: Option<String>,
    pub selection_error: Option<String>,
}

/// The model of a response audit entry.
pub struct ResponseAuditEntryView {
    pub timestamp_ms: u128,
    pub semantic: Seq<char>,
    pub request: Seq<u8>,
    pub responses: Seq<ResponderEvidenceView>,
    pub selected_responder: Option<Seq<char>>,
    pub selection_error: Option<Seq<char>>,
}

pub open spec fn optional_text(value: Option<String>) -> Option<Seq<char>> {
    match value {
        Some(text) => Some(text@),
        None => None,
    }
}

impl View for ResponseAuditEntry {
    type V = ResponseAuditEntryView;

    open spec fn view(&self) -> ResponseAuditEntryView {
        ResponseAuditEntryView {
            timestamp_ms: self.timestamp_ms,
            semantic: self.semantic@,
            request: self.request@,
            responses: self.responses@.map_values(|e: ResponderEvidence| e@),
            selected_responder: optional_text(self.selected_responder),
            selection_error: optional_text(self.selection_error),
        }
    }
}

fn copy_text(value: &Option<String>) -> (r: Option<String>)
    ensures
        optional_text(r) == optional_text(*value),
{
    match value {
        Some(text) => Some(text.clone()),
        None => None,
    }
}

fn copy_evidence(list: &Vec<ResponderEvidence>) -> (r: Vec<ResponderEvidence>)
    ensures
        r@.map_values(|e: ResponderEvidence| e@) == list@.map_values(|e: ResponderEvidence| e@),
{
    let mut r: Vec<ResponderEvidence> = Vec::new();
    let mut i: usize = 0;
    while i < list.len()
        invariant
            i <= list@.len(),
            r@.map_values(|e: ResponderEvidence| e@) == list@.take(i as int).map_values(
                |e: ResponderEvidence| e@,
            ),
        decreases list@.len() - i,
    {
        let ghost before = r@;
        r.push(list[i].duplicate());
        assert(r@.map_values(|e: ResponderEvidence| e@) =~= before.map_values(
            |e: ResponderEvidence| e@,
        ).push(list@[i as int]@));
        assert(list@.take(i + 1).map_values(|e: ResponderEvidence| e@) =~= list@.take(
            i as int,
        ).map_values(|e: ResponderEvidence| e@).push(list@[i as int]@));
        i += 1;
    }
    assert(list@.take(list@.len() as int) =~= list@);
    r
}

impl ResponseAuditEntry {
    /// A copy of this entry.
    pub fn duplicate(&self) -> (r: Self)
        ensures
            r@ == self@,
    {
        ResponseAuditEntry {
            timestamp_ms: self.timestamp_ms,
            semantic: self.semantic.clone(),
            request: self.request.clone(),
            responses: copy_evidence(&self.responses),
            selected_responder: copy_text(&self.selected_responder),
            selection_error: copy_text(&self.selection_error),
        }
    }
}

/// `entries` with `entry` appended, the oldest dropped first when already
/// holding `capacity` entries.
pub open spec fn bounded_push<A>(entries: Seq<A>, entry: A, capacity: nat) -> Seq<A> {
    if entries.len() == capacity {
        entries.drop_first().push(entry)
    } else {
        entries.push(entry)
    }
}

/// Neither entry list of an audit holds more than its capacity.
pub open spec fn within_capacity(audit: AuditStateView) -> bool {
    &&& audit.entries.len() <= audit.capacity
    &&& audit.response_entries.len() <= audit.capacity
}

/// A bounded, chronological audit.
pub struct AuditState {
    capacity: usize,
    entries: VecDeque<AuditEntry>,
    response_entries: VecDeque<ResponseAuditEntry>,
}

/// The model of an audit: its capacity and both entry lists, oldest first.
pub struct AuditStateView {
    pub capacity: nat,
    pub entries: Seq<AuditEntryView>,
    pub response_entries: Seq<ResponseAuditEntryView>,
}

impl View for AuditState {
    type V = AuditStateView;

    closed spec fn view(&self) -> AuditStateView {
        AuditStateView {
            capacity: self.capacity as nat,
            entries: self.entries@.map_values(|e: AuditEntry| e@),
            response_entries: self.response_entries@.map_values(|e: ResponseAuditEntry| e@),
        }
    }
}

impl AuditState {
    /// The capacity is positive and neither list exceeds it.
    pub closed spec fn wf(&self) -> bool {
        &&& self.capacity > 0
        &&& self.entries@.len() <= self.capacity
        &&& self.response_entries@.len() <= self.capacity
    }

    /// An empty audit holding at most `capacity` entries of each kind.
    pub fn new(capacity: usize) -> (r: Result<Self, String>)
        ensures
            capacity == 0 <==> r is Err,
            r matches Err(message) ==> message@ == "audit capacity must be greater than zero"@,
            r matches Ok(state) ==> within_capacity(state@),
            r matches Ok(state) ==> state.wf() && state@ == (AuditStateView {
                capacity: capacity as nat,
                entries: Seq::empty(),
                response_entries: Seq::empty(),
            }),
    {
        if capacity == 0 {
            return Err(owned("audit capacity must be greater than zero"));
        }
        let state = Self {
            capacity,
            entries: VecDeque::new(),
            response_entries: VecDeque::new(),
        };
        assert(state@.entries =~= Seq::<AuditEntryView>::empty());
        assert(state@.response_entries =~= Seq::<ResponseAuditEntryView>::empty());
        Ok(state)
    }

    fn push_entry(&mut self, entry: AuditEntry)
        requires
            old(self).wf(),
        ensures
            final(self).wf(),
            within_capacity(final(self)@),
            final(self)@ == (AuditStateView {
                entries: bounded_push(old(self)@.entries, entry@, old(self)@.capacity),
                ..old(self)@
            }),
    {
        let ghost before = self.entries@;
        if self.entries.len() == self.capacity {
            self.entries.pop_front();
        }
        self.entries.push_back(entry);
        proof {
            let views = self.entries@.map_values(|e: AuditEntry| e@);
            let old_views = before.map_values(|e: AuditEntry| e@);
            if before.len() == self.capacity {
                assert(views =~= old_views.drop_first().push(entry@));
            } else {
                assert(views =~= old_views.push(entry@));
            }
        }
    }

    /// Record a completed read.
    pub fn ingest(&mut self, transaction: &Transaction)
        requires
            old(self).wf(),
        ensures
            final(self).wf(),
            within_capacity(final(self)@),
            final(self)@ == (AuditStateView {
                entries: bounded_push(
                    old(self)@.entries,
                    AuditEntryView {
                        timestamp_ms: transaction@.timestamp_ms,
                        source: transaction@.source,
                        semantic: transaction@.metadata.semantic@,
                        request: seq![transaction@.metadata.mode, transaction@.metadata.pid],
                        response: transaction@.response,
                    },
                    old(self)@.capacity,
                ),
                ..old(self)@
            }),
    {
        let request = transaction.request();
        let entry = AuditEntry {
            timestamp_ms: transaction.timestamp_ms(),
            source: owned(transaction.source()),
            semantic: transaction.semantic(),
            request: vec![request[0], request[1]],
            response: byte_vec(transaction.response()),
        };
        assert(entry@.request =~= seq![transaction@.metadata.mode, transaction@.metadata.pid]);
        self.push_entry(entry);
    }

    /// Record an error in place of a read. The entry's time is the system
    /// clock's, of which nothing is stated.
    pub fn record_error(&mut self, error: &str)
        requires
            old(self).wf(),
        ensures
            final(self).wf(),
            within_capacity(final(self)@),
            final(self)@.capacity == old(self)@.capacity,
            final(self)@.response_entries == old(self)@.response_entries,
            final(self)@.entries.len() > 0,
            final(self)@.entries.drop_last() == bounded_push(
                old(self)@.entries,
                final(self)@.entries.last(),
                old(self)@.capacity,
            ).drop_last(),
            final(self)@.entries.last().source == "error: "@ + error@,
            final(self)@.entries.last().semantic == "scheduler.error"@,
            final(self)@.entries.last().request.len() == 0,
            final(self)@.entries.last().response.len() == 0,
    {
        let entry = AuditEntry {
            timestamp_ms: now_ms(),
            source: concat("error: ", error),
            semantic: "scheduler.error",
            request: Vec::new(),
            response: Vec::new(),
        };
        assert(entry@.request =~= Seq::<u8>::empty());
        assert(entry@.response =~= Seq::<u8>::empty());
        self.push_entry(entry);
    }

    /// The audited reads, oldest first.
    pub fn snapshot(&self) -> (r: Vec<AuditEntry>)
        ensures
            r@.map_values(|e: AuditEntry| e@) == self@.entries,
    {
        let mut r: Vec<AuditEntry> = Vec::new();
        let mut i: usize = 0;
        while i < self.entries.len()
            invariant
                i <= self.entries@.len(),
                r@.map_values(|e: AuditEntry| e@) == self.entries@.take(i as int).map_values(
                    |e: AuditEntry| e@,
                ),
            decreases self.entries@.len() - i,
        {
            let ghost before = r@;
            r.push(self.entries[i].duplicate());
            assert(r@.map_values(|e: AuditEntry| e@) =~= before.map_values(|e: AuditEntry| e@).push(
                self.entries@[i as int]@,
            ));
            assert(self.entries@.take(i + 1).map_values(|e: AuditEntry| e@) =~= self.entries@.take(
                i as int,
            ).map_values(|e: AuditEntry| e@).push(self.entries@[i as int]@));
            i += 1;
        }
        assert(self.entries@.take(self.entries@.len() as int) =~= self.entries@);
        r
    }

    /// Record every response observed for one request. A request without
    /// bytes, or without any response, is refused and nothing is recorded.
    pub fn ingest_responses(
        &mut self,
        timestamp_ms: u128,
        semantic: &str,
        request: Vec<u8>,
        responses: Vec<ResponderEvidence>,
        selected_responder: Option<String>,
        selection_error: Option<String>,
    ) -> (r: Result<(), String>)
        requires
            old(self).wf(),
        ensures
            final(self).wf(),
            within_capacity(final(self)@),
            request@.len() == 0 ==> (r matches Err(message) && message@
                == "response audit request must not be empty"@) && final(self)@ == old(self)@,
            request@.len() > 0 && responses@.len() == 0 ==> (r matches Err(message) && message@
                == "response audit list must not be empty"@) && final(self)@ == old(self)@,
            request@.len() > 0 && responses@.len() > 0 ==> r is Ok && final(self)@ == (
            AuditStateView {
                response_entries: bounded_push(
                    old(self)@.response_entries,
                    ResponseAuditEntryView {
                        timestamp_ms,
                        semantic: semantic@,
                        request: request@,
                        responses: responses@.map_values(|e: ResponderEvidence| e@),
                        selected_responder: optional_text(selected_responder),
                        selection_error: optional_text(selection_error),
                    },
                    old(self)@.capacity,
                ),
                ..old(self)@
            }),
    {
        if request.len() == 0 {
            return Err(owned("response audit request must not be empty"));
        }
        if responses.len() == 0 {
            return Err(owned("response audit list must not be empty"));
        }
        let entry = ResponseAuditEntry {
            timestamp_ms,
            semantic: owned(semantic),
            request,
            responses,
            selected_responder,
            selection_error,
        };
        let ghost before = self.response_entries@;
        if self.response_entries.len() == self.capacity {
            self.response_entries.pop_front();
        }
        self.response_entries.push_back(entry);
        proof {
            let views = self.response_entries@.map_values(|e: ResponseAuditEntry| e@);
            let old_views = before.map_values(|e: ResponseAuditEntry| e@);
            if before.len() == self.capacity {
                assert(views =~= old_views.drop_first().push(entry@));
            } else {
                assert(views =~= old_views.push(entry@));
            }
        }
        Ok(())
    }

    /// The audited response sets, oldest first.
    pub fn response_snapshot(&self) -> (r: Vec<ResponseAuditEntry>)
        ensures
            r@.map_values(|e: ResponseAuditEntry| e@) == self@.response_entries,
    {
        let mut r: Vec<ResponseAuditEntry> = Vec::new();
        let mut i: usize = 0;
        while i < self.response_entries.len()
            invariant
                i <= self.response_entries@.len(),
                r@.map_values(|e: ResponseAuditEntry| e@) == self.response_entries@.take(
                    i as int,
                ).map_values(|e: ResponseAuditEntry| e@),
            decreases self.response_entries@.len() - i,
        {
            let ghost before = r@;
            r.push(self.response_entries[i].duplicate());
            assert(r@.map_values(|e: ResponseAuditEntry| e@) =~= before.map_values(
                |e: ResponseAuditEntry| e@,
            ).push(self.response_entries@[i as int]@));
            assert(self.response_entries@.take(i + 1).map_values(|e: ResponseAuditEntry| e@)
                =~= self.response_entries@.take(i as int).map_values(|e: ResponseAuditEntry| e@).push(
                self.response_entries@[i as int]@,
            ));
            i += 1;
        }
        assert(self.response_entries@.take(self.response_entries@.len() as int)
            =~= self.response_entries@);
        r
    }

    /// The number of audited reads.
    pub fn len(&self) -> (r: usize)
        ensures
            r == self@.entries.len(),
    {
        self.entries.len()
    }

    pub fn is_empty(&self) -> (r: bool)
        ensures
            r == (self@.entries.len() == 0),
    {
        self.entries.len() == 0
    }
}


/// What an audit of capacity `capacity` holds after recording `history`,
/// oldest first, from empty.
pub open spec fn recorded<A>(history: Seq<A>, capacity: nat) -> Seq<A>
    decreases history.len(),
{
    if history.len() == 0 {
        Seq::empty()
    } else {
        bounded_push(recorded(history.drop_last(), capacity), history.last(), capacity)
    }
}

/// Whatever sequence of reads and errors an audit records, neither of its
/// lists ever holds more entries than its capacity.
pub proof fn law_audit_never_exceeds_its_capacity(audit: &AuditState)
    requires
        audit.wf(),
    ensures
        within_capacity(audit@),
        audit@.capacity > 0,
{
}

/// An audit holds exactly the most recent `capacity` records, in the order
/// they were recorded; older records are evicted first.
pub proof fn law_audit_keeps_the_most_recent_records<A>(history: Seq<A>, capacity: nat)
    requires
        capacity > 0,
    ensures
        recorded(history, capacity) == history.skip(
            if history.len() > capacity {
                history.len() - capacity
            } else {
                0
            },
        ),
        recorded(history, capacity).len() <= capacity,
    decreases history.len(),
{
    if history.len() > 0 {
        let rest = history.drop_last();
        law_audit_keeps_the_most_recent_records(rest, capacity);
        let kept = recorded(rest, capacity);
        if rest.len() >= capacity {
            assert(kept.len() == capacity);
            assert(kept.drop_first().push(history.last()) =~= history.skip(history.len() - capacity));
        } else {
            assert(kept =~= rest);
            assert(kept.push(history.last()) =~= history.skip(0));
        }
    } else {
        assert(history.skip(0) =~= Seq::<A>::empty());
    }
}

} // verus!
