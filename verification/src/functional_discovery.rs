//! Read-only functional OBD responder discovery.
//!
//! The session already performs the bounded Mode 01 support-page exchange.
//! This module validates and preserves the resulting evidence per responder
//! without assigning ECU roles or probing addresses.

use vstd::prelude::*;

use crate::dtc::{dedup_adjacent, lemma_dedup_last};
use crate::elm::{be_u32, SupportDiscovery};
use crate::order::{int_values, ints_le, ints_le_exec, lemma_keyed_total_ordering, lemma_terminated_split,
    byte_key, push_terminated_bytes, terminated, Ordered, models, model_leq, sort_by_model};
use crate::signals::{catalog_entry, names_entry, prepare_read, supported_signals, describes, CATALOG_SIZE};
use crate::text::{is_blank, is_blank_spec, owned};
use crate::topology::{
    lemma_provenance_key_split, lemma_responder_key_split, provenance_key, responder_key, AddressingContext,
    Confidence, EcuNode, EcuNodeView, EcuTopology, ObservedResponder, ObservedResponderView, Protocol,
    ProtocolContext, Provenance, ProvenanceView, ResponderIdentity, ResponderIdentityView, TopologyError,
};

verus! {

/// Whether a continuation page was observed for a responder.
#[derive(Clone, Copy, Debug, Eq, Hash, Ord, PartialEq, PartialOrd, Structural)]
pub enum DiscoveryStatus {
    Observed,
    NotObserved,
    Unsupported,
    Unknown,
}

/// Capability status for one known Mode 01 semantic on one responder.
#[derive(Clone, Copy, Debug, Eq, Hash, Ord, PartialEq, PartialOrd, Structural)]
pub enum CapabilityStatus {
    Supported,
    Unsupported,
    Unknown,
}

/// Why discovery evidence was refused.
#[derive(Clone, Debug, Eq, PartialEq)]
pub enum DiscoveryError {
    RequestNotAllowlisted([u8; 2]),
    MalformedPayload { request: [u8; 2], payload: Vec<u8> },
    MalformedResponderMetadata,
    UnsupportedSemantic(String),
    InvalidProvenance(TopologyError),
}

/// The support page a PID belongs to.
pub open spec fn page_of(pid: u8) -> u8 {
    (pid / 32 * 32) as u8
}

/// A page that holds a catalog signal, or the first page.
pub open spec fn is_known_page(page: u8) -> bool {
    page == 0 || exists|i: int| 0 <= i < CATALOG_SIZE && #[trigger] page_of(catalog_entry(i).pid) == page
}

/// The known pages from candidate `k` on, in ascending order.
pub open spec fn known_pages_from(k: int) -> Seq<u8>
    decreases 8 - k,
{
    if k >= 8 || k < 0 {
        Seq::empty()
    } else if is_known_page((k * 32) as u8) {
        seq![(k * 32) as u8] + known_pages_from(k + 1)
    } else {
        known_pages_from(k + 1)
    }
}

/// The known support pages, ascending.
pub open spec fn known_pages() -> Seq<u8> {
    known_pages_from(0)
}

/// An allowlisted functional support-page request.
pub open spec fn is_allowlisted(request: Seq<u8>) -> bool {
    request.len() == 2 && request[0] == 0x01 && is_known_page(request[1])
}

fn is_known_page_exec(page: u8) -> (r: bool)
    ensures
        r == is_known_page(page),
{
    if page == 0 {
        return true;
    }
    let signals = supported_signals();
    let mut i: usize = 0;
    while i < signals.len()
        invariant
            signals@.len() == CATALOG_SIZE,
            forall|j: int| 0 <= j < CATALOG_SIZE ==> describes(#[trigger] signals@[j], j),
            i <= CATALOG_SIZE,
            forall|j: int| 0 <= j < i ==> #[trigger] page_of(catalog_entry(j).pid) != page,
        decreases CATALOG_SIZE - i,
    {
        let pid = signals[i].pid;
        assert(describes(signals@[i as int], i as int));
        if pid / 32 * 32 == page {
            assert(page_of(catalog_entry(i as int).pid) == page);
            return true;
        }
        i += 1;
    }
    false
}

fn known_pages_exec() -> (r: Vec<u8>)
    ensures
        r@ == known_pages(),
{
    let mut r: Vec<u8> = Vec::new();
    let mut k: u8 = 0;
    assert(r@ + known_pages_from(0) =~= known_pages_from(0));
    while k < 8
        invariant
            k <= 8,
            r@ + known_pages_from(k as int) == known_pages_from(0),
        decreases 8 - k,
    {
        let page: u8 = k * 32;
        if is_known_page_exec(page) {
            let ghost before = r@;
            r.push(page);
            assert(before + known_pages_from(k as int) =~= r@ + known_pages_from(k + 1));
        }
        k += 1;
    }
    assert(known_pages_from(8) =~= Seq::<u8>::empty());
    assert(r@ =~= r@ + known_pages_from(8));
    r
}

fn validate_request(request: [u8; 2]) -> (r: Result<(), DiscoveryError>)
    ensures
        is_allowlisted(request@) <==> r is Ok,
        r is Err ==> (r matches Err(DiscoveryError::RequestNotAllowlisted(rejected)) && rejected@ == request@),
{
    if request[0] != 0x01 || !is_known_page_exec(request[1]) {
        return Err(DiscoveryError::RequestNotAllowlisted(request));
    }
    Ok(())
}

/// Every allowlisted functional support-page request, by ascending page.
pub fn known_functional_requests() -> (r: Vec<[u8; 2]>)
    ensures
        r@.len() == known_pages().len(),
        forall|i: int| 0 <= i < r@.len() ==> (#[trigger] r@[i])@ == seq![0x01u8, known_pages()[i]],
{
    let pages = known_pages_exec();
    let mut r: Vec<[u8; 2]> = Vec::new();
    let mut i: usize = 0;
    while i < pages.len()
        invariant
            i <= pages@.len(),
            pages@ == known_pages(),
            r@.len() == i,
            forall|j: int| 0 <= j < i ==> (#[trigger] r@[j])@ == seq![0x01u8, known_pages()[j]],
        decreases pages@.len() - i,
    {
        let request = [0x01, pages[i]];
        assert(request@ =~= seq![0x01u8, pages@[i as int]]);
        r.push(request);
        i += 1;
    }
    r
}


/// A single response to one allowlisted functional support-page request.
#[derive(Debug, Eq, PartialEq)]
pub struct FunctionalPageObservation {
    request: [u8; 2],
    responder: ResponderIdentity,
    payload: Vec<u8>,
    provenance: Provenance,
}

/// The model of a page observation.
pub struct PageView {
    pub request: Seq<u8>,
    pub responder: ResponderIdentityView,
    pub payload: Seq<u8>,
    pub provenance: ProvenanceView,
}

impl View for FunctionalPageObservation {
    type V = PageView;

    closed spec fn view(&self) -> PageView {
        PageView {
            request: self.request@,
            responder: self.responder@,
            payload: self.payload@,
            provenance: self.provenance@,
        }
    }
}

/// A well-formed support page answers its request: `41`, the page, and a
/// four-byte bitmap.
pub open spec fn is_page_answer(request: Seq<u8>, payload: Seq<u8>) -> bool {
    payload.len() == 6 && payload[0] == 0x41 && payload[1] == request[1]
}

/// The order key of an observation: request, responder, payload, then
/// provenance, as declared.
pub open spec fn page_key(o: PageView) -> Seq<int> {
    terminated(byte_key(o.request)) + responder_key(o.responder) + terminated(byte_key(o.payload))
        + provenance_key(o.provenance)
}

impl FunctionalPageObservation {
    /// Every observation answers an allowlisted request with a support page.
    #[verifier::type_invariant]
    closed spec fn well_formed(self) -> bool {
        is_allowlisted(self.request@) && is_page_answer(self.request@, self.payload@)
    }

    pub fn new(request: [u8; 2], responder: ResponderIdentity, payload: Vec<u8>, provenance: Provenance) -> (r:
        Result<Self, DiscoveryError>)
        ensures
            !is_allowlisted(request@) ==> (r matches Err(DiscoveryError::RequestNotAllowlisted(rejected))
                && rejected@ == request@),
            is_allowlisted(request@) && !is_page_answer(request@, payload@) ==> (r matches Err(
                DiscoveryError::MalformedPayload { request: rejected, payload: kept },
            ) && rejected@ == request@ && kept@ == payload@),
            is_allowlisted(request@) && is_page_answer(request@, payload@) ==> (r matches Ok(o) && o@ == (
            PageView {
                request: request@,
                responder: responder@,
                payload: payload@,
                provenance: provenance@,
            })),
    {
        match validate_request(request) {
            Err(error) => {
                return Err(error);
            },
            Ok(()) => {},
        }
        if payload.len() != 6 || payload[0] != 0x41 || payload[1] != request[1] {
            return Err(DiscoveryError::MalformedPayload { request, payload });
        }
        Ok(Self { request, responder, payload, provenance })
    }

    /// Convert adapter metadata to an opaque responder identity. A header
    /// such as `7E8` is not promoted to an address here.
    pub fn from_responder_metadata(
        request: [u8; 2],
        metadata: Option<&str>,
        payload: Vec<u8>,
        context: ProtocolContext,
        provenance: Provenance,
    ) -> (r: Result<Self, DiscoveryError>)
        ensures
            (metadata matches Some(value) && is_blank_spec(value@)) ==> r
                == Err::<Self, DiscoveryError>(DiscoveryError::MalformedResponderMetadata),
            !(metadata matches Some(value) && is_blank_spec(value@)) ==> {
                let responder = match metadata {
                    Some(value) => ResponderIdentityView {
                        context,
                        kind: crate::topology::ResponderKind::Opaque,
                        value: Some(value@),
                    },
                    None => ResponderIdentityView {
                        context,
                        kind: crate::topology::ResponderKind::Unknown,
                        value: None,
                    },
                };
                &&& !is_allowlisted(request@) ==> (r matches Err(DiscoveryError::RequestNotAllowlisted(rejected))
                    && rejected@ == request@)
                &&& is_allowlisted(request@) && !is_page_answer(request@, payload@) ==> (r matches Err(
                    DiscoveryError::MalformedPayload { request: rejected, payload: kept },
                ) && rejected@ == request@ && kept@ == payload@)
                &&& is_allowlisted(request@) && is_page_answer(request@, payload@) ==> (r matches Ok(o) && o@
                    == (PageView { request: request@, responder, payload: payload@, provenance: provenance@ }))
            },
    {
        let responder = match metadata {
            Some(value) => {
                if is_blank(value) {
                    return Err(DiscoveryError::MalformedResponderMetadata);
                }
                ResponderIdentity::opaque(context, value)
            },
            None => ResponderIdentity::unknown(context),
        };
        Self::new(request, responder, payload, provenance)
    }

    pub fn request(&self) -> (r: [u8; 2])
        ensures
            r@ == self@.request,
    {
        self.request
    }

    pub fn responder(&self) -> (r: &ResponderIdentity)
        ensures
            r@ == self@.responder,
    {
        &self.responder
    }

    pub fn payload(&self) -> (r: &[u8])
        ensures
            r@ == self@.payload,
    {
        self.payload.as_slice()
    }

    pub fn provenance(&self) -> (r: &Provenance)
        ensures
            r@ == self@.provenance,
    {
        &self.provenance
    }

    /// A copy of this observation.
    pub fn duplicate(&self) -> (r: Self)
        ensures
            r@ == self@,
    {
        proof {
            use_type_invariant(self);
        }
        Self {
            request: self.request,
            responder: self.responder.duplicate(),
            payload: self.payload.clone(),
            provenance: self.provenance.duplicate(),
        }
    }

    fn bitmap(&self) -> (r: u32)
        ensures
            r == bitmap_of(self@.payload),
    {
        proof {
            use_type_invariant(self);
        }
        (self.payload[2] as u32) * 0x1000000 + (self.payload[3] as u32) * 0x10000 + (self.payload[4] as u32)
            * 0x100 + self.payload[5] as u32
    }

    fn advertises_continuation(&self) -> (r: bool)
        ensures
            r == continues(self@.payload),
    {
        proof {
            use_type_invariant(self);
        }
        self.payload[5] % 2 == 1
    }

    /// The order key of this observation.
    fn order_key(&self) -> (r: Vec<i64>)
        ensures
            int_values(r@) == page_key(self@),
    {
        let mut key: Vec<i64> = Vec::new();
        push_terminated_bytes(&mut key, self.request.as_slice());
        let responder = self.responder.order_key();
        let mut i: usize = 0;
        let ghost start = int_values(key@);
        while i < responder.len()
            invariant
                i <= responder@.len(),
                int_values(key@) == start + int_values(responder@).take(i as int),
            decreases responder@.len() - i,
        {
            let ghost before = key@;
            key.push(responder[i]);
            assert(int_values(key@) =~= int_values(before).push(responder@[i as int] as int));
            assert(int_values(responder@).take(i + 1) =~= int_values(responder@).take(i as int).push(
                responder@[i as int] as int,
            ));
            i += 1;
        }
        assert(int_values(responder@).take(responder@.len() as int) =~= int_values(responder@));
        push_terminated_bytes(&mut key, self.payload.as_slice());
        let provenance = self.provenance.order_key();
        let ghost middle = int_values(key@);
        let mut j: usize = 0;
        while j < provenance.len()
            invariant
                j <= provenance@.len(),
                int_values(key@) == middle + int_values(provenance@).take(j as int),
            decreases provenance@.len() - j,
        {
            let ghost before = key@;
            key.push(provenance[j]);
            assert(int_values(key@) =~= int_values(before).push(provenance@[j as int] as int));
            assert(int_values(provenance@).take(j + 1) =~= int_values(provenance@).take(j as int).push(
                provenance@[j as int] as int,
            ));
            j += 1;
        }
        assert(int_values(provenance@).take(provenance@.len() as int) =~= int_values(provenance@));
        assert(int_values(key@) =~= page_key(self@));
        key
    }
}

/// The support bitmap of a page answer.
pub open spec fn bitmap_of(payload: Seq<u8>) -> u32 {
    be_u32(payload[2], payload[3], payload[4], payload[5])
}

/// A page answer advertises the next page.
pub open spec fn continues(payload: Seq<u8>) -> bool {
    payload[5] % 2 == 1
}

impl Ordered for FunctionalPageObservation {
    open spec fn model_le(a: PageView, b: PageView) -> bool {
        ints_le(page_key(a), page_key(b))
    }

    proof fn lemma_model_le_total_ordering() {
        let key = |o: PageView| page_key(o);
        assert forall|a: PageView, b: PageView| #[trigger] key(a) == #[trigger] key(b) implies a == b by {
            let ta = terminated(byte_key(a.payload)) + provenance_key(a.provenance);
            let tb = terminated(byte_key(b.payload)) + provenance_key(b.provenance);
            let ra = responder_key(a.responder) + ta;
            let rb = responder_key(b.responder) + tb;
            assert(page_key(a) =~= terminated(byte_key(a.request)) + ra);
            assert(page_key(b) =~= terminated(byte_key(b.request)) + rb);
            lemma_terminated_split(byte_key(a.request), byte_key(b.request), ra, rb);
            crate::order::lemma_byte_key_injective(a.request, b.request);
            lemma_responder_key_split(a.responder, b.responder, ta, tb);
            lemma_terminated_split(
                byte_key(a.payload),
                byte_key(b.payload),
                provenance_key(a.provenance),
                provenance_key(b.provenance),
            );
            crate::order::lemma_byte_key_injective(a.payload, b.payload);
            assert(provenance_key(a.provenance) + Seq::<int>::empty() =~= provenance_key(a.provenance));
            assert(provenance_key(b.provenance) + Seq::<int>::empty() =~= provenance_key(b.provenance));
            lemma_provenance_key_split(a.provenance, b.provenance, Seq::empty(), Seq::empty());
        }
        lemma_keyed_total_ordering(key);
        let le = |a: PageView, b: PageView| Self::model_le(a, b);
        let keyed = |a: PageView, b: PageView| ints_le(key(a), key(b));
        assert(le =~= keyed);
    }

    fn le(&self, other: &Self) -> (r: bool) {
        let a = self.order_key();
        let b = other.order_key();
        ints_le_exec(&a, &b)
    }
}


/// The support page that holds a PID other than zero.
pub open spec fn pid_page(pid: u8) -> u8 {
    ((pid - 1) / 32 * 32) as u8
}

/// The bitmap of a page answer advertises the PID.
pub open spec fn pid_bit_set(payload: Seq<u8>, pid: u8) -> bool {
    bitmap_of(payload) & (1u32 << ((31 - (pid - 1) % 32) as u32)) != 0
}

pub open spec fn answers_page(o: PageView, page: u8) -> bool {
    o.request[1] == page
}

/// Some observation answers the page.
pub open spec fn any_on_page(pages: Seq<PageView>, page: u8) -> bool {
    exists|i: int| 0 <= i < pages.len() && answers_page(#[trigger] pages[i], page)
}

/// Every answer to the page advertises the PID.
pub open spec fn all_set_on_page(pages: Seq<PageView>, page: u8, pid: u8) -> bool {
    forall|i: int| 0 <= i < pages.len() && answers_page(#[trigger] pages[i], page) ==> pid_bit_set(pages[i].payload, pid)
}

/// No answer to the page advertises the PID.
pub open spec fn all_clear_on_page(pages: Seq<PageView>, page: u8, pid: u8) -> bool {
    forall|i: int| 0 <= i < pages.len() && answers_page(#[trigger] pages[i], page) ==> !pid_bit_set(pages[i].payload, pid)
}

/// No answer to the page advertises a next page.
pub open spec fn none_continue(pages: Seq<PageView>, page: u8) -> bool {
    forall|i: int| 0 <= i < pages.len() && answers_page(#[trigger] pages[i], page) ==> !continues(pages[i].payload)
}

/// The capability status of a PID on one responder's pages: what its own
/// page says when answered, unanimously; unsupported when the previous page
/// was answered and never advertised a next page; unknown otherwise.
pub open spec fn pid_status_of(pages: Seq<PageView>, pid: u8) -> CapabilityStatus {
    if pid == 0 {
        CapabilityStatus::Unknown
    } else if any_on_page(pages, pid_page(pid)) {
        if all_set_on_page(pages, pid_page(pid), pid) {
            CapabilityStatus::Supported
        } else if all_clear_on_page(pages, pid_page(pid), pid) {
            CapabilityStatus::Unsupported
        } else {
            CapabilityStatus::Unknown
        }
    } else if pid_page(pid) == 0 {
        CapabilityStatus::Unknown
    } else if any_on_page(pages, (pid_page(pid) - 32) as u8) && none_continue(pages, (pid_page(pid) - 32) as u8) {
        CapabilityStatus::Unsupported
    } else {
        CapabilityStatus::Unknown
    }
}

fn pid_status_exec(pages: &Vec<FunctionalPageObservation>, pid: u8) -> (r: CapabilityStatus)
    ensures
        r == pid_status_of(models(pages@), pid),
{
    let ghost views = models(pages@);
    if pid == 0 {
        return CapabilityStatus::Unknown;
    }
    let page: u8 = (pid - 1) / 32 * 32;
    let shift: u32 = 31 - ((pid - 1) % 32) as u32;
    let mut any = false;
    let mut all_set = true;
    let mut all_clear = true;
    let mut i: usize = 0;
    while i < pages.len()
        invariant
            i <= pages@.len(),
            views == models(pages@),
            page == pid_page(pid),
            pid > 0,
            shift == (31 - (pid - 1) % 32) as u32,
            any <==> exists|j: int| 0 <= j < i && answers_page(#[trigger] views[j], page),
            all_set <==> forall|j: int| 0 <= j < i && answers_page(#[trigger] views[j], page) ==> pid_bit_set(
                views[j].payload,
                pid,
            ),
            all_clear <==> forall|j: int| 0 <= j < i && answers_page(#[trigger] views[j], page) ==> !pid_bit_set(
                views[j].payload,
                pid,
            ),
        decreases pages@.len() - i,
    {
        let o = &pages[i];
        assert(views[i as int] == o@);
        if o.request[1] == page {
            let set = o.bitmap() & (1u32 << shift) != 0;
            assert(set == pid_bit_set(views[i as int].payload, pid));
            any = true;
            if set {
                all_clear = false;
            } else {
                all_set = false;
            }
        }
        i += 1;
    }
    if any {
        if all_set {
            return CapabilityStatus::Supported;
        }
        if all_clear {
            return CapabilityStatus::Unsupported;
        }
        return CapabilityStatus::Unknown;
    }
    if page == 0 {
        return CapabilityStatus::Unknown;
    }
    let previous: u8 = page - 32;
    let mut seen = false;
    let mut none = true;
    let mut k: usize = 0;
    while k < pages.len()
        invariant
            k <= pages@.len(),
            views == models(pages@),
            seen <==> exists|j: int| 0 <= j < k && answers_page(#[trigger] views[j], previous),
            none <==> forall|j: int| 0 <= j < k && answers_page(#[trigger] views[j], previous) ==> !continues(
                views[j].payload,
            ),
        decreases pages@.len() - k,
    {
        let o = &pages[k];
        assert(views[k as int] == o@);
        if o.request[1] == previous {
            seen = true;
            if o.advertises_continuation() {
                none = false;
            }
        }
        k += 1;
    }
    if seen && none {
        CapabilityStatus::Unsupported
    } else {
        CapabilityStatus::Unknown
    }
}

/// The capability status of a catalog semantic, or why there is none.
pub open spec fn semantic_status(pages: Seq<PageView>, semantic: Seq<char>, r: Result<CapabilityStatus, DiscoveryError>) -> bool {
    &&& !crate::signals::is_catalog_semantic(semantic) ==> (r matches Err(DiscoveryError::UnsupportedSemantic(
        name,
    )) && name@ == semantic)
    &&& crate::signals::is_catalog_semantic(semantic) ==> exists|index: int|
        #[trigger] names_entry(semantic, index) && r == Ok::<CapabilityStatus, DiscoveryError>(
            pid_status_of(pages, catalog_entry(index).pid),
        )
}

fn status_for_semantic(pages: &Vec<FunctionalPageObservation>, semantic: &str) -> (r: Result<CapabilityStatus, DiscoveryError>)
    ensures
        semantic_status(models(pages@), semantic@, r),
{
    match prepare_read(semantic) {
        Err(_) => Err(DiscoveryError::UnsupportedSemantic(owned(semantic))),
        Ok(request) => {
            let r = Ok(pid_status_exec(pages, request.pid()));
            proof {
                let index = choose|index: int|
                    #[trigger] names_entry(semantic@, index) && describes(request.spec_metadata(), index);
                assert(names_entry(semantic@, index));
            }
            r
        },
    }
}

/// Per-responder Mode 01 capability evidence. Pages stay separate and keep
/// their payload and provenance; responders are never merged into one
/// vehicle-wide bitmap.
#[derive(Debug, Eq, PartialEq)]
pub struct EcuCapability {
    responder: ResponderIdentity,
    mode01_pages: Vec<FunctionalPageObservation>,
    request_target: Option<crate::topology::RequestTargetEvidence>,
}

pub struct EcuCapabilityView {
    pub responder: ResponderIdentityView,
    pub pages: Seq<PageView>,
    pub request_target: Option<crate::topology::RequestTargetEvidenceView>,
}

impl View for EcuCapability {
    type V = EcuCapabilityView;

    closed spec fn view(&self) -> EcuCapabilityView {
        EcuCapabilityView {
            responder: self.responder@,
            pages: models(self.mode01_pages@),
            request_target: match self.request_target {
                Some(t) => Some(t@),
                None => None,
            },
        }
    }
}

impl EcuCapability {
    /// A responder's capability from its pages, in their order.
    fn new(responder: ResponderIdentity, pages: Vec<FunctionalPageObservation>) -> (r: Self)
        ensures
            r@ == (EcuCapabilityView {
                responder: responder@,
                pages: models(pages@).sort_by(model_leq::<FunctionalPageObservation>()),
                request_target: None,
            }),
    {
        let mode01_pages = sort_by_model(pages);
        Self { responder, mode01_pages, request_target: None }
    }

    pub fn responder(&self) -> (r: &ResponderIdentity)
        ensures
            r@ == self@.responder,
    {
        &self.responder
    }

    pub fn mode01_pages(&self) -> (r: &[FunctionalPageObservation])
        ensures
            models(r@) == self@.pages,
    {
        self.mode01_pages.as_slice()
    }

    pub fn request_target(&self) -> (r: Option<&crate::topology::RequestTargetEvidence>)
        ensures
            match self@.request_target {
                Some(t) => (r matches Some(x) && x@ == t),
                None => r is None,
            },
    {
        match &self.request_target {
            Some(t) => Some(t),
            None => None,
        }
    }

    /// The capability for a known catalog semantic, without issuing a
    /// request or consulting a vehicle-wide bitmap.
    pub fn status(&self, semantic: &str) -> (r: Result<CapabilityStatus, DiscoveryError>)
        ensures
            semantic_status(self@.pages, semantic@, r),
    {
        status_for_semantic(&self.mode01_pages, semantic)
    }

    /// The capability for a PID. Unknown PIDs stay unknown; this cannot
    /// authorize a probe.
    pub fn pid_status(&self, pid: u8) -> (r: CapabilityStatus)
        ensures
            r == pid_status_of(self@.pages, pid),
    {
        pid_status_exec(&self.mode01_pages, pid)
    }

    /// The provenance of each page, in page order.
    pub fn provenances(&self) -> (r: Vec<&Provenance>)
        ensures
            r@.len() == self@.pages.len(),
            forall|i: int| 0 <= i < r@.len() ==> (#[trigger] r@[i])@ == self@.pages[i].provenance,
    {
        let mut r: Vec<&Provenance> = Vec::new();
        let mut i: usize = 0;
        while i < self.mode01_pages.len()
            invariant
                i <= self.mode01_pages@.len(),
                r@.len() == i,
                forall|j: int| 0 <= j < i ==> (#[trigger] r@[j])@ == self.mode01_pages@[j]@.provenance,
            decreases self.mode01_pages@.len() - i,
        {
            r.push(self.mode01_pages[i].provenance());
            i += 1;
        }
        r
    }
}


/// The protocol context of functional OBD discovery.
pub open spec fn functional_context_spec() -> ProtocolContext {
    ProtocolContext::spec_new(Protocol::Obd2, AddressingContext::Functional)
}

fn functional_context() -> (r: ProtocolContext)
    ensures
        r == functional_context_spec(),
{
    ProtocolContext::new(Protocol::Obd2, AddressingContext::Functional)
}

/// The responders seen in the observations, once each, in identity order.
pub open spec fn responders_of(observations: Seq<PageView>) -> Seq<ResponderIdentityView> {
    dedup_adjacent(
        observations.map_values(|o: PageView| o.responder).sort_by(model_leq::<ResponderIdentity>()),
    )
}

/// The pages one responder answered, in observation order.
pub open spec fn pages_of(observations: Seq<PageView>, responder: ResponderIdentityView) -> Seq<PageView> {
    observations.filter(|o: PageView| o.responder == responder)
}

/// The capability evidence of one responder.
pub open spec fn capability_of(observations: Seq<PageView>, responder: ResponderIdentityView) -> EcuCapabilityView {
    EcuCapabilityView {
        responder,
        pages: pages_of(observations, responder).sort_by(model_leq::<FunctionalPageObservation>()),
        request_target: None,
    }
}

pub open spec fn answered_by(o: PageView, responder: ResponderIdentityView, page: u8) -> bool {
    o.request == seq![0x01u8, page] && o.responder == responder
}

/// The responder answered the page.
pub open spec fn any_answered(observations: Seq<PageView>, responder: ResponderIdentityView, page: u8) -> bool {
    exists|i: int| 0 <= i < observations.len() && answered_by(#[trigger] observations[i], responder, page)
}

/// Every answer of the responder to the page advertises the next page.
pub open spec fn all_continue(observations: Seq<PageView>, responder: ResponderIdentityView, page: u8) -> bool {
    forall|i: int|
        0 <= i < observations.len() && answered_by(#[trigger] observations[i], responder, page) ==> continues(
            observations[i].payload,
        )
}

/// No answer of the responder to the page advertises the next page.
pub open spec fn never_continue(observations: Seq<PageView>, responder: ResponderIdentityView, page: u8) -> bool {
    forall|i: int|
        0 <= i < observations.len() && answered_by(#[trigger] observations[i], responder, page) ==> !continues(
            observations[i].payload,
        )
}

/// The status of one responder on one page: observed when it answered;
/// otherwise judged from its answers to the previous page. `None` when the
/// page is not allowlisted.
pub open spec fn page_status_of(observations: Seq<PageView>, responder: ResponderIdentityView, page: u8) -> Option<
    DiscoveryStatus,
> {
    let previous: u8 = if page >= 32 {
        (page - 32) as u8
    } else {
        0
    };
    if !is_known_page(page) {
        None
    } else if any_answered(observations, responder, page) {
        Some(DiscoveryStatus::Observed)
    } else if page == 0 {
        Some(DiscoveryStatus::Unknown)
    } else if !any_answered(observations, responder, previous) {
        Some(DiscoveryStatus::Unknown)
    } else if all_continue(observations, responder, previous) {
        Some(DiscoveryStatus::NotObserved)
    } else if never_continue(observations, responder, previous) {
        Some(DiscoveryStatus::Unsupported)
    } else {
        Some(DiscoveryStatus::Unknown)
    }
}

/// Some responder advertised the page without answering it.
pub open spec fn needs_request(observations: Seq<PageView>, page: u8) -> bool {
    page != 0 && exists|i: int|
        0 <= i < observations.len() && page_status_of(observations, #[trigger] observations[i].responder, page)
            == Some(DiscoveryStatus::NotObserved)
}

/// The pages that still need a request, in the order given.
pub open spec fn next_pages(observations: Seq<PageView>, pages: Seq<u8>) -> Seq<u8>
    decreases pages.len(),
{
    if pages.len() == 0 {
        Seq::empty()
    } else if needs_request(observations, pages[0]) {
        seq![pages[0]] + next_pages(observations, pages.drop_first())
    } else {
        next_pages(observations, pages.drop_first())
    }
}

/// The topology node of one observation: no role, one observed responder
/// with its payload.
pub open spec fn node_of(o: PageView, context: ProtocolContext) -> EcuNodeView {
    EcuNodeView {
        context,
        provenance: o.provenance,
        role: None,
        observed_responders: seq![
            ObservedResponderView { identity: o.responder, provenance: o.provenance, payload: Some(o.payload) },
        ],
    }
}

/// Ordered observations and the per-responder state derived from them.
#[derive(Debug, Eq, PartialEq)]
pub struct FunctionalResponderDiscovery {
    observations: Vec<FunctionalPageObservation>,
}

impl View for FunctionalResponderDiscovery {
    type V = Seq<PageView>;

    closed spec fn view(&self) -> Seq<PageView> {
        models(self.observations@)
    }
}

impl Default for FunctionalResponderDiscovery {
    fn default() -> (r: Self)
        ensures
            r@ == Seq::<PageView>::empty(),
    {
        let r = Self { observations: Vec::new() };
        assert(r@ =~= Seq::<PageView>::empty());
        r
    }
}

fn status_exec(observations: &Vec<FunctionalPageObservation>, responder: &ResponderIdentity, page: u8) -> (r:
    Result<DiscoveryStatus, DiscoveryError>)
    ensures
        match page_status_of(models(observations@), responder@, page) {
            None => (r matches Err(DiscoveryError::RequestNotAllowlisted(rejected)) && rejected@ == seq![
                0x01u8,
                page,
            ]),
            Some(status) => r == Ok::<DiscoveryStatus, DiscoveryError>(status),
        },
{
    let ghost views = models(observations@);
    let request = [0x01u8, page];
    assert(request@ =~= seq![0x01u8, page]);
    match validate_request(request) {
        Err(error) => {
            return Err(error);
        },
        Ok(()) => {},
    }
    let previous: u8 = if page >= 32 {
        page - 32
    } else {
        0
    };
    let mut observed = false;
    let mut seen_previous = false;
    let mut all = true;
    let mut none = true;
    let mut i: usize = 0;
    while i < observations.len()
        invariant
            i <= observations@.len(),
            views == models(observations@),
            observed <==> exists|j: int| 0 <= j < i && answered_by(#[trigger] views[j], responder@, page),
            seen_previous <==> exists|j: int| 0 <= j < i && answered_by(#[trigger] views[j], responder@, previous),
            all <==> forall|j: int| 0 <= j < i && answered_by(#[trigger] views[j], responder@, previous) ==> continues(
                views[j].payload,
            ),
            none <==> forall|j: int| 0 <= j < i && answered_by(#[trigger] views[j], responder@, previous) ==> !continues(
                views[j].payload,
            ),
        decreases observations@.len() - i,
    {
        let o = &observations[i];
        assert(views[i as int] == o@);
        let same = o.responder.same_as(responder);
        let req = o.request;
        assert(req@ == seq![0x01u8, page] <==> (req[0] == 0x01 && req[1] == page)) by {
            if req[0] == 0x01 && req[1] == page {
                assert(req@ =~= seq![0x01u8, page]);
            }
        }
        assert(req@ == seq![0x01u8, previous] <==> (req[0] == 0x01 && req[1] == previous)) by {
            if req[0] == 0x01 && req[1] == previous {
                assert(req@ =~= seq![0x01u8, previous]);
            }
        }
        if same && req[0] == 0x01 && req[1] == page {
            observed = true;
        }
        if same && req[0] == 0x01 && req[1] == previous {
            seen_previous = true;
            if o.advertises_continuation() {
                none = false;
            } else {
                all = false;
            }
        }
        i += 1;
    }
    if observed {
        return Ok(DiscoveryStatus::Observed);
    }
    if page == 0 {
        return Ok(DiscoveryStatus::Unknown);
    }
    if !seen_previous {
        return Ok(DiscoveryStatus::Unknown);
    }
    if all {
        return Ok(DiscoveryStatus::NotObserved);
    }
    if none {
        return Ok(DiscoveryStatus::Unsupported);
    }
    Ok(DiscoveryStatus::Unknown)
}


/// The responder identities of sorted identities, once each.
fn dedup_identities(sorted: Vec<ResponderIdentity>) -> (r: Vec<ResponderIdentity>)
    ensures
        models(r@) == dedup_adjacent(models(sorted@)),
{
    let ghost s = models(sorted@);
    let mut out: Vec<ResponderIdentity> = Vec::new();
    let mut i: usize = 0;
    while i < sorted.len()
        invariant
            i <= sorted@.len(),
            s == models(sorted@),
            models(out@) == dedup_adjacent(s.take(i as int)),
            i > 0 ==> out@.len() > 0 && out@.last()@ == s[i - 1],
        decreases sorted@.len() - i,
    {
        let ghost prefix = s.take(i as int + 1);
        assert(prefix.drop_last() =~= s.take(i as int));
        proof {
            lemma_dedup_last(s.take(i as int));
        }
        if i == 0 || !sorted[i].same_as(&out[out.len() - 1]) {
            let ghost before = models(out@);
            let copy = sorted[i].duplicate();
            out.push(copy);
            assert(models(out@) =~= before.push(sorted@[i as int]@));
        }
        i += 1;
    }
    assert(s.take(sorted@.len() as int) =~= s);
    out
}

/// The pages one responder answered, copied in observation order.
fn pages_exec(observations: &Vec<FunctionalPageObservation>, responder: &ResponderIdentity) -> (r: Vec<
    FunctionalPageObservation,
>)
    ensures
        models(r@) == pages_of(models(observations@), responder@),
{
    let ghost views = models(observations@);
    let ghost pred = |o: PageView| o.responder == responder@;
    let mut out: Vec<FunctionalPageObservation> = Vec::new();
    let mut i: usize = 0;
    assert(views.take(0) =~= Seq::<PageView>::empty());
    while i < observations.len()
        invariant
            i <= observations@.len(),
            views == models(observations@),
            pred == (|o: PageView| o.responder == responder@),
            models(out@) == views.take(i as int).filter(pred),
        decreases observations@.len() - i,
    {
        let ghost next = views.take(i + 1);
        assert(next.drop_last() =~= views.take(i as int));
        assert(next.last() == observations@[i as int]@);
        proof {
            reveal_with_fuel(Seq::filter, 2);
        }
        if observations[i].responder.same_as(responder) {
            let ghost before = models(out@);
            let copy = observations[i].duplicate();
            out.push(copy);
            assert(models(out@) =~= before.push(next.last()));
        }
        i += 1;
    }
    assert(views.take(observations@.len() as int) =~= views);
    out
}

impl FunctionalResponderDiscovery {
    /// Observations in a deterministic order, whatever order they arrived in.
    pub fn new(observations: Vec<FunctionalPageObservation>) -> (r: Self)
        ensures
            r@ == models(observations@).sort_by(model_leq::<FunctionalPageObservation>()),
    {
        Self { observations: sort_by_model(observations) }
    }

    /// Use the support pages the session already collected. Their answers
    /// carry no responder metadata here, so every responder stays explicitly
    /// unknown rather than guessed.
    pub fn from_support_discovery(pages: &[SupportDiscovery]) -> (r: Result<Self, DiscoveryError>)
        ensures
            (forall|i: int| 0 <= i < pages@.len() ==> #[trigger] support_page_ok(pages@[i]@)) ==> (r matches Ok(
                discovery,
            ) && discovery@ == pages@.map_values(|p: SupportDiscovery| support_page_view(p@)).sort_by(
                model_leq::<FunctionalPageObservation>(),
            )),
            forall|k: int|
                0 <= k < pages@.len() && (forall|j: int| 0 <= j < k ==> #[trigger] support_page_ok(pages@[j]@))
                    && !support_page_ok(#[trigger] pages@[k]@) ==> support_page_error(pages@[k]@, r),
    {
        let context = functional_context();
        let provenance = match Provenance::new("Mode 01 functional support discovery", Confidence::High) {
            Ok(provenance) => provenance,
            Err(error) => {
                proof {
                    reveal_strlit("Mode 01 functional support discovery");
                    assert(!crate::text::is_whitespace_spec("Mode 01 functional support discovery"@[0]));
                }
                return Err(DiscoveryError::InvalidProvenance(error));
            },
        };
        proof {
            reveal_strlit("Mode 01 functional support discovery");
            assert(!crate::text::is_whitespace_spec("Mode 01 functional support discovery"@[0]));
        }
        let mut observations: Vec<FunctionalPageObservation> = Vec::new();
        let mut i: usize = 0;
        while i < pages.len()
            invariant
                i <= pages@.len(),
                context == functional_context_spec(),
                provenance@ == support_provenance(),
                forall|j: int| 0 <= j < i ==> #[trigger] support_page_ok(pages@[j]@),
                models(observations@) == pages@.take(i as int).map_values(
                    |p: SupportDiscovery| support_page_view(p@),
                ),
            decreases pages@.len() - i,
        {
            let page = &pages[i];
            let payload = crate::text::byte_vec(&page.response);
            let ghost payload_view = payload@;
            match FunctionalPageObservation::new(
                page.request,
                ResponderIdentity::unknown(context),
                payload,
                provenance.duplicate(),
            ) {
                Ok(observation) => {
                    let ghost before = models(observations@);
                    observations.push(observation);
                    assert(models(observations@) =~= before.push(observation@));
                    assert(pages@.take(i + 1).map_values(|p: SupportDiscovery| support_page_view(p@)) =~= pages@.take(
                        i as int,
                    ).map_values(|p: SupportDiscovery| support_page_view(p@)).push(support_page_view(pages@[i as int]@)));
                    assert(support_page_view(pages@[i as int]@) == observation@);
                },
                Err(error) => {
                    let r: Result<Self, DiscoveryError> = Err(error);
                    proof {
                        let bad = pages@[i as int]@;
                        assert(payload_view == bad.response);
                        assert(!support_page_ok(bad));
                        assert(support_page_error(bad, r));
                        assert forall|k: int|
                            0 <= k < pages@.len() && (forall|j: int| 0 <= j < k ==> #[trigger] support_page_ok(
                                pages@[j]@,
                            )) && !support_page_ok(#[trigger] pages@[k]@) implies support_page_error(
                            pages@[k]@,
                            r,
                        ) by {
                            if k < i {
                                assert(support_page_ok(pages@[k]@));
                            } else if k > i {
                                assert(support_page_ok(pages@[i as int]@));
                            }
                        }
                    }
                    return r;
                },
            }
            i += 1;
        }
        assert(pages@.take(pages@.len() as int) =~= pages@);
        Ok(Self::new(observations))
    }

    pub fn observations(&self) -> (r: &[FunctionalPageObservation])
        ensures
            models(r@) == self@,
    {
        self.observations.as_slice()
    }

    /// Every responder seen, once, in identity order.
    pub fn responders(&self) -> (r: Vec<ResponderIdentity>)
        ensures
            models(r@) == responders_of(self@),
    {
        let mut identities: Vec<ResponderIdentity> = Vec::new();
        let mut i: usize = 0;
        while i < self.observations.len()
            invariant
                i <= self.observations@.len(),
                models(identities@) == models(self.observations@).take(i as int).map_values(
                    |o: PageView| o.responder,
                ),
            decreases self.observations@.len() - i,
        {
            let ghost before = models(identities@);
            identities.push(self.observations[i].responder.duplicate());
            assert(models(identities@) =~= before.push(self.observations@[i as int]@.responder));
            assert(models(self.observations@).take(i + 1).map_values(|o: PageView| o.responder) =~= models(
                self.observations@,
            ).take(i as int).map_values(|o: PageView| o.responder).push(self.observations@[i as int]@.responder));
            i += 1;
        }
        assert(models(self.observations@).take(self.observations@.len() as int) =~= models(self.observations@));
        let sorted = sort_by_model(identities);
        dedup_identities(sorted)
    }

    /// Independent, deterministically ordered capability evidence for every
    /// responder seen.
    pub fn capabilities(&self) -> (r: Vec<EcuCapability>)
        ensures
            models(r@) == responders_of(self@).map_values(|responder: ResponderIdentityView| capability_of(self@, responder)),
    {
        let responders = self.responders();
        let mut out: Vec<EcuCapability> = Vec::new();
        let mut i: usize = 0;
        while i < responders.len()
            invariant
                i <= responders@.len(),
                models(responders@) == responders_of(self@),
                models(out@) == models(responders@).take(i as int).map_values(
                    |responder: ResponderIdentityView| capability_of(self@, responder),
                ),
            decreases responders@.len() - i,
        {
            let responder = &responders[i];
            let pages = pages_exec(&self.observations, responder);
            let capability = EcuCapability::new(responder.duplicate(), pages);
            let ghost before = models(out@);
            out.push(capability);
            assert(models(out@) =~= before.push(capability@));
            assert(models(responders@).take(i + 1).map_values(
                |responder: ResponderIdentityView| capability_of(self@, responder),
            ) =~= models(responders@).take(i as int).map_values(
                |responder: ResponderIdentityView| capability_of(self@, responder),
            ).push(capability_of(self@, responders@[i as int]@)));
            i += 1;
        }
        assert(models(responders@).take(responders@.len() as int) =~= models(responders@));
        out
    }

    /// The capability of one responder for one catalog semantic; unknown
    /// for a responder that was not seen.
    pub fn capability(&self, responder: &ResponderIdentity, semantic: &str) -> (r: Result<
        CapabilityStatus,
        DiscoveryError,
    >)
        ensures
            (exists|i: int| 0 <= i < self@.len() && (#[trigger] self@[i]).responder == responder@) ==> semantic_status(
                capability_of(self@, responder@).pages,
                semantic@,
                r,
            ),
            !(exists|i: int| 0 <= i < self@.len() && (#[trigger] self@[i]).responder == responder@) ==> semantic_status(
                Seq::empty(),
                semantic@,
                r,
            ),
    {
        let ghost views = self@;
        let mut found = false;
        let mut i: usize = 0;
        while i < self.observations.len()
            invariant
                i <= self.observations@.len(),
                views == models(self.observations@),
                found <==> exists|j: int| 0 <= j < i && (#[trigger] views[j]).responder == responder@,
            decreases self.observations@.len() - i,
        {
            assert(views[i as int] == self.observations@[i as int]@);
            if self.observations[i].responder.same_as(responder) {
                found = true;
            }
            i += 1;
        }
        if found {
            let pages = pages_exec(&self.observations, responder);
            let sorted = sort_by_model(pages);
            status_for_semantic(&sorted, semantic)
        } else {
            let empty: Vec<FunctionalPageObservation> = Vec::new();
            assert(models(empty@) =~= Seq::<PageView>::empty());
            status_for_semantic(&empty, semantic)
        }
    }

    /// The status of one responder on one allowlisted page.
    pub fn status(&self, responder: &ResponderIdentity, page: u8) -> (r: Result<DiscoveryStatus, DiscoveryError>)
        ensures
            match page_status_of(self@, responder@, page) {
                None => (r matches Err(DiscoveryError::RequestNotAllowlisted(rejected)) && rejected@ == seq![
                    0x01u8,
                    page,
                ]),
                Some(status) => r == Ok::<DiscoveryStatus, DiscoveryError>(status),
            },
    {
        status_exec(&self.observations, responder, page)
    }

    /// The continuation pages some responder advertised without answering,
    /// ascending. The requests stay functional; no address is fabricated.
    pub fn next_requests(&self) -> (r: Vec<[u8; 2]>)
        ensures
            r@.len() == next_pages(self@, known_pages()).len(),
            forall|i: int| 0 <= i < r@.len() ==> (#[trigger] r@[i])@ == seq![0x01u8, next_pages(self@, known_pages())[i]],
    {
        let ghost views = self@;
        let pages = known_pages_exec();
        let mut r: Vec<[u8; 2]> = Vec::new();
        let ghost mut chosen: Seq<u8> = Seq::empty();
        let mut k: usize = 0;
        assert(pages@.skip(0) =~= pages@);
        while k < pages.len()
            invariant
                k <= pages@.len(),
                views == self@,
                views == models(self.observations@),
                pages@ == known_pages(),
                chosen + next_pages(views, pages@.skip(k as int)) == next_pages(views, pages@),
                r@.len() == chosen.len(),
                forall|j: int| 0 <= j < r@.len() ==> (#[trigger] r@[j])@ == seq![0x01u8, chosen[j]],
            decreases pages@.len() - k,
        {
            let page = pages[k];
            let ghost rest = pages@.skip(k as int);
            assert(rest[0] == page);
            assert(rest.drop_first() =~= pages@.skip(k + 1));
            let mut needed = false;
            if page != 0 {
                let mut i: usize = 0;
                while i < self.observations.len()
                    invariant
                        i <= self.observations@.len(),
                        views == models(self.observations@),
                        needed <==> exists|j: int|
                            0 <= j < i && page_status_of(views, #[trigger] views[j].responder, page) == Some(
                                DiscoveryStatus::NotObserved,
                            ),
                    decreases self.observations@.len() - i,
                {
                    assert(views[i as int] == self.observations@[i as int]@);
                    match status_exec(&self.observations, &self.observations[i].responder, page) {
                        Ok(DiscoveryStatus::NotObserved) => {
                            needed = true;
                        },
                        _ => {},
                    }
                    i += 1;
                }
            }
            assert(needed == needs_request(views, page));
            if needed {
                let request = [0x01u8, page];
                assert(request@ =~= seq![0x01u8, page]);
                r.push(request);
                proof {
                    chosen = chosen.push(page);
                }
                assert(chosen.drop_last() + next_pages(views, rest) =~= chosen + next_pages(views, pages@.skip(k + 1)));
            }
            k += 1;
        }
        assert(pages@.skip(pages@.len() as int) =~= Seq::<u8>::empty());
        assert(chosen =~= chosen + next_pages(views, pages@.skip(pages@.len() as int)));
        r
    }

    /// Each preserved answer as an independent topology observation. No node
    /// receives a logical ECU role.
    pub fn topology(&self) -> (r: EcuTopology)
        ensures
            r@.len() == self@.len(),
            forall|i: int| 0 <= i < self@.len() ==> (#[trigger] r@[i]) == node_of(self@[i], functional_context_spec()),
    {
        let context = functional_context();
        let mut nodes: Vec<EcuNode> = Vec::new();
        let mut i: usize = 0;
        while i < self.observations.len()
            invariant
                i <= self.observations@.len(),
                context == functional_context_spec(),
                nodes@.len() == i,
                forall|j: int| 0 <= j < i ==> (#[trigger] nodes@[j])@ == node_of(self.observations@[j]@, context),
            decreases self.observations@.len() - i,
        {
            let o = &self.observations[i];
            let observed = ObservedResponder::new(o.responder.duplicate(), o.provenance.duplicate()).with_payload(
                o.payload.clone(),
            );
            let node = EcuNode::new(context, o.provenance.duplicate()).with_observed_responder(observed);
            assert(node@.observed_responders =~= seq![observed@]);
            nodes.push(node);
            i += 1;
        }
        let r = EcuTopology::from_nodes(nodes);
        assert forall|i: int| 0 <= i < self@.len() implies (#[trigger] r@[i]) == node_of(self@[i], functional_context_spec()) by {
            assert(r@[i] == nodes@[i]@);
        }
        r
    }
}

/// The provenance every support-discovery observation carries.
pub open spec fn support_provenance() -> ProvenanceView {
    ProvenanceView { source: "Mode 01 functional support discovery"@, confidence: Confidence::High }
}

/// A support-page answer the session collected is a valid observation.
pub open spec fn support_page_ok(page: crate::elm::SupportDiscoveryView) -> bool {
    is_allowlisted(page.request) && is_page_answer(page.request, page.response)
}

/// The observation of a collected support-page answer: an unknown functional
/// responder.
pub open spec fn support_page_view(page: crate::elm::SupportDiscoveryView) -> PageView {
    PageView {
        request: page.request,
        responder: ResponderIdentityView {
            context: functional_context_spec(),
            kind: crate::topology::ResponderKind::Unknown,
            value: None,
        },
        payload: page.response,
        provenance: support_provenance(),
    }
}

/// The error for the first invalid collected answer.
pub open spec fn support_page_error(
    page: crate::elm::SupportDiscoveryView,
    r: Result<FunctionalResponderDiscovery, DiscoveryError>,
) -> bool {
    &&& !is_allowlisted(page.request) ==> (r matches Err(DiscoveryError::RequestNotAllowlisted(rejected))
        && rejected@ == page.request)
    &&& is_allowlisted(page.request) ==> (r matches Err(DiscoveryError::MalformedPayload { request, payload })
        && request@ == page.request && payload@ == page.response)
}


/// The order in which support-page answers arrive does not change the
/// discovery built from them.
pub proof fn law_arrival_order_does_not_change_discovery(
    first: Seq<FunctionalPageObservation>,
    second: Seq<FunctionalPageObservation>,
)
    requires
        first.to_multiset() == second.to_multiset(),
    ensures
        models(first).sort_by(model_leq::<FunctionalPageObservation>()) == models(second).sort_by(
            model_leq::<FunctionalPageObservation>(),
        ),
{
    crate::order::lemma_map_values_multiset(first, second, |o: FunctionalPageObservation| o@);
    FunctionalPageObservation::lemma_model_le_total_ordering();
    crate::order::lemma_sort_by_permutation(
        models(first),
        models(second),
        model_leq::<FunctionalPageObservation>(),
    );
}

/// A responder's capability evidence is its own: answers from other
/// responders never change it.
pub proof fn law_capability_ignores_other_responders(
    observations: Seq<PageView>,
    others: Seq<PageView>,
    responder: ResponderIdentityView,
)
    requires
        forall|i: int| 0 <= i < others.len() ==> (#[trigger] others[i]).responder != responder,
    ensures
        capability_of(observations + others, responder) == capability_of(observations, responder),
{
    let pred = |o: PageView| o.responder == responder;
    Seq::filter_distributes_over_add(observations, others, pred);
    assert(others.filter(pred).len() == 0) by {
        if others.filter(pred).len() > 0 {
            others.lemma_filter_pred(pred, 0);
            assert(others.filter(pred).contains(others.filter(pred)[0]));
            others.lemma_filter_contains_rev(pred, others.filter(pred)[0]);
        }
    }
    assert(observations.filter(pred) + others.filter(pred) =~= observations.filter(pred));
}


/// A two-byte request as `[01, 20]`, in upper-case hex.
pub open spec fn request_text(request: Seq<u8>) -> Seq<char> {
    "["@ + crate::elm_text::hex2(request[0]) + ", "@ + crate::elm_text::hex2(request[1]) + "]"@
}

fn request_text_exec(prefix: &str, request: [u8; 2]) -> (r: String)
    ensures
        r@ == prefix@ + request_text(request@),
{
    let mut chars = crate::text::chars_of(prefix);
    let first = crate::elm_text::hex2_chars(request[0]);
    let second = crate::elm_text::hex2_chars(request[1]);
    chars.push('[');
    chars.push(first[0]);
    chars.push(first[1]);
    chars.push(',');
    chars.push(' ');
    chars.push(second[0]);
    chars.push(second[1]);
    chars.push(']');
    proof {
        reveal_strlit("[");
        reveal_strlit(", ");
        reveal_strlit("]");
    }
    assert(chars@ =~= prefix@ + request_text(request@));
    crate::text::string_from_chars(chars.as_slice())
}

impl DiscoveryError {
    /// The message of this error.
    pub fn message(&self) -> (r: String)
        ensures
            match self {
                DiscoveryError::RequestNotAllowlisted(request) => r@
                    == "functional discovery request is not allowlisted: "@ + request_text(request@),
                DiscoveryError::MalformedPayload { request, .. } => r@ == "malformed functional discovery payload for "@
                    + request_text(request@),
                DiscoveryError::MalformedResponderMetadata => r@ == "functional discovery responder metadata is empty"@,
                DiscoveryError::UnsupportedSemantic(semantic) => r@
                    == "functional discovery semantic is not allowlisted: "@ + semantic@,
                DiscoveryError::InvalidProvenance(error) => r@ == "provenance source must not be empty"@,
            },
    {
        match self {
            DiscoveryError::RequestNotAllowlisted(request) => request_text_exec(
                "functional discovery request is not allowlisted: ",
                *request,
            ),
            DiscoveryError::MalformedPayload { request, .. } => request_text_exec(
                "malformed functional discovery payload for ",
                *request,
            ),
            DiscoveryError::MalformedResponderMetadata => owned("functional discovery responder metadata is empty"),
            DiscoveryError::UnsupportedSemantic(semantic) => crate::text::concat(
                "functional discovery semantic is not allowlisted: ",
                semantic.as_str(),
            ),
            DiscoveryError::InvalidProvenance(error) => owned(error.message()),
        }
    }
}

} // verus!
