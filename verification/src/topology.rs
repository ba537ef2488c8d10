//! Evidence-bearing vocabulary for ECU targets and responders.
//!
//! Every fact here carries the context it was observed in and, where it is
//! an inference, the provenance that admitted it. Nothing in this module
//! derives an address from another one.

use vstd::prelude::*;

use crate::order::{
    char_codes, int_values, ints_le, ints_le_exec, lemma_char_codes_injective, lemma_keyed_total_ordering,
    lemma_terminated_split, push_terminated_chars, terminated, Ordered,
};
use crate::text::{is_blank, is_blank_spec, owned};

verus! {

/// The diagnostic protocol a fact was observed with.
#[derive(Clone, Copy, Debug, Eq, Hash, Ord, PartialEq, PartialOrd, Structural)]
pub enum Protocol {
    Obd2,
    Uds,
}

/// Whether a request went to one ECU or to all of them.
#[derive(Clone, Copy, Debug, Eq, Hash, Ord, PartialEq, PartialOrd, Structural)]
pub enum AddressingContext {
    Physical,
    Functional,
}

/// How far a fact may be trusted.
#[derive(Clone, Copy, Debug, Eq, Hash, Ord, PartialEq, PartialOrd, Structural)]
pub enum Confidence {
    Low,
    Medium,
    High,
    Verified,
}

/// The protocol and addressing a fact belongs to.
#[derive(Clone, Copy, Debug, Eq, Hash, Ord, PartialEq, PartialOrd, Structural)]
pub struct ProtocolContext {
    protocol: Protocol,
    addressing: AddressingContext,
}

impl ProtocolContext {
    pub closed spec fn spec_protocol(self) -> Protocol {
        self.protocol
    }

    pub closed spec fn spec_addressing(self) -> AddressingContext {
        self.addressing
    }

    /// The context of a protocol and an addressing.
    pub closed spec fn spec_new(protocol: Protocol, addressing: AddressingContext) -> Self {
        Self { protocol, addressing }
    }

    pub fn new(protocol: Protocol, addressing: AddressingContext) -> (r: Self)
        ensures
            r.spec_protocol() == protocol,
            r.spec_addressing() == addressing,
            r == Self::spec_new(protocol, addressing),
    {
        Self { protocol, addressing }
    }

    pub fn protocol(&self) -> (r: &Protocol)
        ensures
            *r == self.spec_protocol(),
    {
        &self.protocol
    }

    pub fn addressing(&self) -> (r: &AddressingContext)
        ensures
            *r == self.spec_addressing(),
    {
        &self.addressing
    }

    /// Two contexts are the same exactly when protocol and addressing are.
    pub proof fn lemma_eq(a: Self, b: Self)
        ensures
            (a == b) <==> (a.spec_protocol() == b.spec_protocol() && a.spec_addressing()
                == b.spec_addressing()),
    {
    }
}

/// Errors of the topology vocabulary.
#[derive(Clone, Copy, Debug, Eq, Hash, Ord, PartialEq, PartialOrd, Structural)]
pub enum TopologyError {
    EmptyProvenance,
}

/// Where a fact came from and how far it is trusted.
#[derive(Clone, Debug, Eq, Hash, Ord, PartialEq, PartialOrd)]
pub struct Provenance {
    source: String,
    confidence: Confidence,
}

/// The model of a provenance.
pub struct ProvenanceView {
    pub source: Seq<char>,
    pub confidence: Confidence,
}

impl View for Provenance {
    type V = ProvenanceView;

    closed spec fn view(&self) -> ProvenanceView {
        ProvenanceView { source: self.source@, confidence: self.confidence }
    }
}

impl Provenance {
    /// A provenance always names a non-blank source.
    pub fn new(source: &str, confidence: Confidence) -> (r: Result<Self, TopologyError>)
        ensures
            is_blank_spec(source@) ==> r == Err::<Self, TopologyError>(TopologyError::EmptyProvenance),
            !is_blank_spec(source@) ==> (r matches Ok(p) && p@ == (ProvenanceView {
                source: source@,
                confidence,
            })),
    {
        if is_blank(source) {
            return Err(TopologyError::EmptyProvenance);
        }
        Ok(Self { source: owned(source), confidence })
    }

    pub fn source(&self) -> (r: &str)
        ensures
            r@ == self@.source,
    {
        self.source.as_str()
    }

    pub fn confidence(&self) -> (r: Confidence)
        ensures
            r == self@.confidence,
    {
        self.confidence
    }

    /// A copy of this provenance.
    pub fn duplicate(&self) -> (r: Self)
        ensures
            r@ == self@,
    {
        Self { source: self.source.clone(), confidence: self.confidence }
    }
}

/// A request address in the namespace of the adapter that uses it, such as an
/// ELM header.
#[derive(Clone, Debug, Eq, Hash, Ord, PartialEq, PartialOrd)]
pub struct RequestAddress {
    namespace: String,
    value: String,
}

/// The model of a request address.
pub struct RequestAddressView {
    pub namespace: Seq<char>,
    pub value: Seq<char>,
}

impl View for RequestAddress {
    type V = RequestAddressView;

    closed spec fn view(&self) -> RequestAddressView {
        RequestAddressView { namespace: self.namespace@, value: self.value@ }
    }
}

impl RequestAddress {
    pub fn new(namespace: &str, value: &str) -> (r: Self)
        ensures
            r@ == (RequestAddressView { namespace: namespace@, value: value@ }),
    {
        Self { namespace: owned(namespace), value: owned(value) }
    }

    pub fn namespace(&self) -> (r: &str)
        ensures
            r@ == self@.namespace,
    {
        self.namespace.as_str()
    }

    pub fn value(&self) -> (r: &str)
        ensures
            r@ == self@.value,
    {
        self.value.as_str()
    }

    /// A copy of this address.
    pub fn duplicate(&self) -> (r: Self)
        ensures
            r@ == self@,
    {
        Self { namespace: self.namespace.clone(), value: self.value.clone() }
    }
}

/// Where a request is sent: one concrete address, or functionally to all.
#[derive(Clone, Debug, Eq, Hash, Ord, PartialEq, PartialOrd)]
pub struct RequestTarget {
    context: ProtocolContext,
    address: Option<RequestAddress>,
}

/// The model of a request target.
pub struct RequestTargetView {
    pub context: ProtocolContext,
    pub address: Option<RequestAddressView>,
}

impl View for RequestTarget {
    type V = RequestTargetView;

    closed spec fn view(&self) -> RequestTargetView {
        RequestTargetView {
            context: self.context,
            address: match self.address {
                Some(address) => Some(address@),
                None => None,
            },
        }
    }
}

impl RequestTarget {
    pub fn concrete(context: ProtocolContext, address: RequestAddress) -> (r: Self)
        ensures
            r@ == (RequestTargetView { context, address: Some(address@) }),
    {
        Self { context, address: Some(address) }
    }

    pub fn functional(context: ProtocolContext) -> (r: Self)
        ensures
            r@ == (RequestTargetView { context, address: None }),
    {
        Self { context, address: None }
    }

    pub fn context(&self) -> (r: &ProtocolContext)
        ensures
            *r == self@.context,
    {
        &self.context
    }

    pub fn address(&self) -> (r: Option<&RequestAddress>)
        ensures
            match self@.address {
                Some(address) => (r matches Some(a) && a@ == address),
                None => r is None,
            },
    {
        match &self.address {
            Some(address) => Some(address),
            None => None,
        }
    }

    /// A copy of this target.
    pub fn duplicate(&self) -> (r: Self)
        ensures
            r@ == self@,
    {
        let address = match &self.address {
            Some(address) => Some(address.duplicate()),
            None => None,
        };
        Self { context: self.context, address }
    }
}

/// A request target together with the evidence that admitted it.
#[derive(Clone, Debug, Eq, Hash, Ord, PartialEq, PartialOrd)]
pub struct RequestTargetEvidence {
    target: RequestTarget,
    provenance: Provenance,
}

/// The model of evidenced request target.
pub struct RequestTargetEvidenceView {
    pub target: RequestTargetView,
    pub provenance: ProvenanceView,
}

impl View for RequestTargetEvidence {
    type V = RequestTargetEvidenceView;

    closed spec fn view(&self) -> RequestTargetEvidenceView {
        RequestTargetEvidenceView { target: self.target@, provenance: self.provenance@ }
    }
}

impl RequestTargetEvidence {
    pub fn new(target: RequestTarget, provenance: Provenance) -> (r: Self)
        ensures
            r@ == (RequestTargetEvidenceView { target: target@, provenance: provenance@ }),
    {
        Self { target, provenance }
    }

    pub fn target(&self) -> (r: &RequestTarget)
        ensures
            r@ == self@.target,
    {
        &self.target
    }

    pub fn provenance(&self) -> (r: &Provenance)
        ensures
            r@ == self@.provenance,
    {
        &self.provenance
    }

    /// A copy of this evidence.
    pub fn duplicate(&self) -> (r: Self)
        ensures
            r@ == self@,
    {
        Self { target: self.target.duplicate(), provenance: self.provenance.duplicate() }
    }
}

/// How a responder is known: by its address, by an opaque adapter label that
/// is not promoted to an address, or not at all.
#[derive(Clone, Copy, Debug, Eq, Hash, Ord, PartialEq, PartialOrd, Structural)]
pub enum ResponderKind {
    Address,
    Opaque,
    Unknown,
}

/// The identity of a responder within one protocol context.
#[derive(Clone, Debug, Eq, Hash, Ord, PartialEq, PartialOrd)]
pub struct ResponderIdentity {
    context: ProtocolContext,
    kind: ResponderKind,
    value: Option<String>,
}

/// The model of a responder identity.
pub struct ResponderIdentityView {
    pub context: ProtocolContext,
    pub kind: ResponderKind,
    pub value: Option<Seq<char>>,
}

impl View for ResponderIdentity {
    type V = ResponderIdentityView;

    closed spec fn view(&self) -> ResponderIdentityView {
        ResponderIdentityView {
            context: self.context,
            kind: self.kind,
            value: match self.value {
                Some(value) => Some(value@),
                None => None,
            },
        }
    }
}

impl ResponderIdentity {
    pub fn address(context: ProtocolContext, value: &str) -> (r: Self)
        ensures
            r@ == (ResponderIdentityView { context, kind: ResponderKind::Address, value: Some(value@) }),
    {
        Self { context, kind: ResponderKind::Address, value: Some(owned(value)) }
    }

    pub fn opaque(context: ProtocolContext, value: &str) -> (r: Self)
        ensures
            r@ == (ResponderIdentityView { context, kind: ResponderKind::Opaque, value: Some(value@) }),
    {
        Self { context, kind: ResponderKind::Opaque, value: Some(owned(value)) }
    }

    pub fn unknown(context: ProtocolContext) -> (r: Self)
        ensures
            r@ == (ResponderIdentityView { context, kind: ResponderKind::Unknown, value: None }),
    {
        Self { context, kind: ResponderKind::Unknown, value: None }
    }

    pub fn context(&self) -> (r: &ProtocolContext)
        ensures
            *r == self@.context,
    {
        &self.context
    }

    pub fn kind(&self) -> (r: ResponderKind)
        ensures
            r == self@.kind,
    {
        self.kind
    }

    pub fn value(&self) -> (r: Option<&str>)
        ensures
            match self@.value {
                Some(value) => (r matches Some(v) && v@ == value),
                None => r is None,
            },
    {
        match &self.value {
            Some(value) => Some(value.as_str()),
            None => None,
        }
    }

    /// A copy of this identity.
    pub fn duplicate(&self) -> (r: Self)
        ensures
            r@ == self@,
    {
        let value = match &self.value {
            Some(value) => Some(value.clone()),
            None => None,
        };
        Self { context: self.context, kind: self.kind, value }
    }
}

/// The role an ECU plays in the vehicle.
#[derive(Clone, Copy, Debug, Eq, Hash, Ord, PartialEq, PartialOrd, Structural)]
pub enum EcuRole {
    Engine,
    Transmission,
    Gateway,
}

/// A role together with the evidence that assigned it.
#[derive(Clone, Debug, Eq, Hash, Ord, PartialEq, PartialOrd)]
pub struct RoleAssignment {
    role: EcuRole,
    provenance: Provenance,
}

/// The model of a role assignment.
pub struct RoleAssignmentView {
    pub role: EcuRole,
    pub provenance: ProvenanceView,
}

impl View for RoleAssignment {
    type V = RoleAssignmentView;

    closed spec fn view(&self) -> RoleAssignmentView {
        RoleAssignmentView { role: self.role, provenance: self.provenance@ }
    }
}

impl RoleAssignment {
    pub fn new(role: EcuRole, provenance: Provenance) -> (r: Self)
        ensures
            r@ == (RoleAssignmentView { role, provenance: provenance@ }),
    {
        Self { role, provenance }
    }

    pub fn role(&self) -> (r: &EcuRole)
        ensures
            *r == self@.role,
    {
        &self.role
    }

    pub fn provenance(&self) -> (r: &Provenance)
        ensures
            r@ == self@.provenance,
    {
        &self.provenance
    }

    /// A copy of this assignment.
    pub fn duplicate(&self) -> (r: Self)
        ensures
            r@ == self@,
    {
        Self { role: self.role, provenance: self.provenance.duplicate() }
    }
}

/// An ECU role bound to the request target that reaches it and the
/// responder expected to answer.
#[derive(Clone, Debug, Eq, Hash, Ord, PartialEq, PartialOrd)]
pub struct EcuTargetMapping {
    role: RoleAssignment,
    target: RequestTargetEvidence,
    expected_responder: ResponderIdentity,
}

/// The model of a target mapping.
pub struct EcuTargetMappingView {
    pub role: RoleAssignmentView,
    pub target: RequestTargetEvidenceView,
    pub expected_responder: ResponderIdentityView,
}

impl View for EcuTargetMapping {
    type V = EcuTargetMappingView;

    closed spec fn view(&self) -> EcuTargetMappingView {
        EcuTargetMappingView {
            role: self.role@,
            target: self.target@,
            expected_responder: self.expected_responder@,
        }
    }
}

impl EcuTargetMapping {
    pub fn new(
        role: RoleAssignment,
        target: RequestTargetEvidence,
        expected_responder: ResponderIdentity,
    ) -> (r: Self)
        ensures
            r@ == (EcuTargetMappingView {
                role: role@,
                target: target@,
                expected_responder: expected_responder@,
            }),
    {
        Self { role, target, expected_responder }
    }

    pub fn role(&self) -> (r: &RoleAssignment)
        ensures
            r@ == self@.role,
    {
        &self.role
    }

    pub fn target(&self) -> (r: &RequestTargetEvidence)
        ensures
            r@ == self@.target,
    {
        &self.target
    }

    pub fn expected_responder(&self) -> (r: &ResponderIdentity)
        ensures
            r@ == self@.expected_responder,
    {
        &self.expected_responder
    }
}


/// Rank of each protocol in declaration order.
pub open spec fn protocol_rank(protocol: Protocol) -> int {
    match protocol {
        Protocol::Obd2 => 0,
        Protocol::Uds => 1,
    }
}

pub open spec fn addressing_rank(addressing: AddressingContext) -> int {
    match addressing {
        AddressingContext::Physical => 0,
        AddressingContext::Functional => 1,
    }
}

pub open spec fn kind_rank(kind: ResponderKind) -> int {
    match kind {
        ResponderKind::Address => 0,
        ResponderKind::Opaque => 1,
        ResponderKind::Unknown => 2,
    }
}

pub open spec fn confidence_rank(confidence: Confidence) -> int {
    match confidence {
        Confidence::Low => 0,
        Confidence::Medium => 1,
        Confidence::High => 2,
        Confidence::Verified => 3,
    }
}

/// The order key of a responder identity: context, kind, then value, with
/// an absent value first; the order of the declarations.
pub open spec fn responder_key(r: ResponderIdentityView) -> Seq<int> {
    seq![
        protocol_rank(r.context.spec_protocol()),
        addressing_rank(r.context.spec_addressing()),
        kind_rank(r.kind),
    ] + match r.value {
        None => seq![0int],
        Some(value) => seq![1int] + terminated(char_codes(value)),
    }
}

/// The order key of a provenance: source, then confidence.
pub open spec fn provenance_key(p: ProvenanceView) -> Seq<int> {
    terminated(char_codes(p.source)) + seq![confidence_rank(p.confidence)]
}

/// A concatenation that starts with a responder key determines it.
pub proof fn lemma_responder_key_split(a: ResponderIdentityView, b: ResponderIdentityView, x: Seq<int>, y: Seq<int>)
    requires
        responder_key(a) + x == responder_key(b) + y,
    ensures
        a == b,
        x == y,
{
    let left = responder_key(a) + x;
    let right = responder_key(b) + y;
    assert(left[0] == responder_key(a)[0] && right[0] == responder_key(b)[0]);
    assert(left[1] == responder_key(a)[1] && right[1] == responder_key(b)[1]);
    assert(left[2] == responder_key(a)[2] && right[2] == responder_key(b)[2]);
    assert(left[3] == responder_key(a)[3] && right[3] == responder_key(b)[3]);
    assert(a.context.spec_protocol() == b.context.spec_protocol());
    assert(a.context.spec_addressing() == b.context.spec_addressing());
    ProtocolContext::lemma_eq(a.context, b.context);
    assert(a.kind == b.kind);
    assert(left[3] == right[3]);
    let la = left.skip(4);
    let lb = right.skip(4);
    match (a.value, b.value) {
        (None, None) => {
            assert(x =~= la);
            assert(y =~= lb);
        },
        (Some(va), Some(vb)) => {
            assert(terminated(char_codes(va)) + x =~= la);
            assert(terminated(char_codes(vb)) + y =~= lb);
            lemma_terminated_split(char_codes(va), char_codes(vb), x, y);
            lemma_char_codes_injective(va, vb);
        },
        (None, Some(_)) => {
            assert(left[3] == 0);
            assert(right[3] == 1);
        },
        (Some(_), None) => {
            assert(left[3] == 1);
            assert(right[3] == 0);
        },
    }
}

/// A concatenation that starts with a provenance key determines it.
pub proof fn lemma_provenance_key_split(a: ProvenanceView, b: ProvenanceView, x: Seq<int>, y: Seq<int>)
    requires
        provenance_key(a) + x == provenance_key(b) + y,
    ensures
        a == b,
        x == y,
{
    assert(terminated(char_codes(a.source)) + (seq![confidence_rank(a.confidence)] + x) =~= provenance_key(a)
        + x);
    assert(terminated(char_codes(b.source)) + (seq![confidence_rank(b.confidence)] + y) =~= provenance_key(b)
        + y);
    lemma_terminated_split(
        char_codes(a.source),
        char_codes(b.source),
        seq![confidence_rank(a.confidence)] + x,
        seq![confidence_rank(b.confidence)] + y,
    );
    lemma_char_codes_injective(a.source, b.source);
    assert((seq![confidence_rank(a.confidence)] + x)[0] == (seq![confidence_rank(b.confidence)] + y)[0]);
    assert(x =~= (seq![confidence_rank(a.confidence)] + x).drop_first());
    assert(y =~= (seq![confidence_rank(b.confidence)] + y).drop_first());
}

impl ResponderIdentity {
    /// The order key of this identity.
    pub fn order_key(&self) -> (r: Vec<i64>)
        ensures
            int_values(r@) == responder_key(self@),
    {
        let protocol: i64 = match self.context.protocol {
            Protocol::Obd2 => 0,
            Protocol::Uds => 1,
        };
        let addressing: i64 = match self.context.addressing {
            AddressingContext::Physical => 0,
            AddressingContext::Functional => 1,
        };
        let kind: i64 = match self.kind {
            ResponderKind::Address => 0,
            ResponderKind::Opaque => 1,
            ResponderKind::Unknown => 2,
        };
        let mut key: Vec<i64> = vec![protocol, addressing, kind];
        match &self.value {
            None => {
                key.push(0);
            },
            Some(value) => {
                key.push(1);
                let chars = crate::text::chars_of(value.as_str());
                push_terminated_chars(&mut key, chars.as_slice());
            },
        }
        assert(int_values(key@) =~= responder_key(self@));
        key
    }
}

impl Provenance {
    /// The order key of this provenance.
    pub fn order_key(&self) -> (r: Vec<i64>)
        ensures
            int_values(r@) == provenance_key(self@),
    {
        let mut key: Vec<i64> = Vec::new();
        let chars = crate::text::chars_of(self.source.as_str());
        push_terminated_chars(&mut key, chars.as_slice());
        let rank: i64 = match self.confidence {
            Confidence::Low => 0,
            Confidence::Medium => 1,
            Confidence::High => 2,
            Confidence::Verified => 3,
        };
        let ghost before = key@;
        key.push(rank);
        assert(int_values(key@) =~= int_values(before).push(rank as int));
        assert(int_values(key@) =~= provenance_key(self@));
        key
    }
}

impl Ordered for ResponderIdentity {
    open spec fn model_le(a: ResponderIdentityView, b: ResponderIdentityView) -> bool {
        ints_le(responder_key(a), responder_key(b))
    }

    proof fn lemma_model_le_total_ordering() {
        let key = |r: ResponderIdentityView| responder_key(r);
        assert forall|a: ResponderIdentityView, b: ResponderIdentityView| #[trigger] key(a) == #[trigger] key(b)
            implies a == b by {
            assert(responder_key(a) + Seq::<int>::empty() =~= responder_key(a));
            assert(responder_key(b) + Seq::<int>::empty() =~= responder_key(b));
            lemma_responder_key_split(a, b, Seq::empty(), Seq::empty());
        }
        lemma_keyed_total_ordering(key);
        let le = |a: ResponderIdentityView, b: ResponderIdentityView| Self::model_le(a, b);
        let keyed = |a: ResponderIdentityView, b: ResponderIdentityView| ints_le(key(a), key(b));
        assert(le =~= keyed);
    }

    fn le(&self, other: &Self) -> (r: bool) {
        let a = self.order_key();
        let b = other.order_key();
        ints_le_exec(&a, &b)
    }
}


impl ResponderIdentity {
    /// Whether two identities are the same.
    pub fn same_as(&self, other: &Self) -> (r: bool)
        ensures
            r == (self@ == other@),
    {
        let values_equal = match (&self.value, &other.value) {
            (Some(a), Some(b)) => crate::text::str_eq(a.as_str(), b.as_str()),
            (None, None) => true,
            _ => false,
        };
        proof {
            ProtocolContext::lemma_eq(self.context, other.context);
        }
        self.context == other.context && self.kind == other.kind && values_equal
    }
}

/// A responder observed for a node, with its evidence and the payload it
/// answered, if any.
#[derive(Clone, Debug, Eq, PartialEq)]
pub struct ObservedResponder {
    identity: ResponderIdentity,
    provenance: Provenance,
    payload: Option<Vec<u8>>,
}

pub struct ObservedResponderView {
    pub identity: ResponderIdentityView,
    pub provenance: ProvenanceView,
    pub payload: Option<Seq<u8>>,
}

impl View for ObservedResponder {
    type V = ObservedResponderView;

    closed spec fn view(&self) -> ObservedResponderView {
        ObservedResponderView {
            identity: self.identity@,
            provenance: self.provenance@,
            payload: match self.payload {
                Some(p) => Some(p@),
                None => None,
            },
        }
    }
}

impl ObservedResponder {
    pub fn new(identity: ResponderIdentity, provenance: Provenance) -> (r: Self)
        ensures
            r@ == (ObservedResponderView { identity: identity@, provenance: provenance@, payload: None }),
    {
        Self { identity, provenance, payload: None }
    }

    /// The same observation carrying the payload the responder answered.
    pub fn with_payload(self, payload: Vec<u8>) -> (r: Self)
        ensures
            r@ == (ObservedResponderView { payload: Some(payload@), ..self@ }),
    {
        Self { identity: self.identity, provenance: self.provenance, payload: Some(payload) }
    }

    pub fn identity(&self) -> (r: &ResponderIdentity)
        ensures
            r@ == self@.identity,
    {
        &self.identity
    }

    pub fn provenance(&self) -> (r: &Provenance)
        ensures
            r@ == self@.provenance,
    {
        &self.provenance
    }

    pub fn payload(&self) -> (r: Option<&[u8]>)
        ensures
            match self@.payload {
                Some(p) => (r matches Some(q) && q@ == p),
                None => r is None,
            },
    {
        match &self.payload {
            Some(p) => Some(p.as_slice()),
            None => None,
        }
    }
}

/// One ECU as observed: the context and evidence it was seen with, the role
/// assigned to it (only by explicit evidence) and its observed responders.
#[derive(Clone, Debug, Eq, PartialEq)]
pub struct EcuNode {
    context: ProtocolContext,
    provenance: Provenance,
    role: Option<RoleAssignment>,
    observed_responders: Vec<ObservedResponder>,
}

pub struct EcuNodeView {
    pub context: ProtocolContext,
    pub provenance: ProvenanceView,
    pub role: Option<RoleAssignmentView>,
    pub observed_responders: Seq<ObservedResponderView>,
}

impl View for EcuNode {
    type V = EcuNodeView;

    closed spec fn view(&self) -> EcuNodeView {
        EcuNodeView {
            context: self.context,
            provenance: self.provenance@,
            role: match self.role {
                Some(role) => Some(role@),
                None => None,
            },
            observed_responders: self.observed_responders@.map_values(|o: ObservedResponder| o@),
        }
    }
}

impl EcuNode {
    /// A node without a role and without observed responders.
    pub fn new(context: ProtocolContext, provenance: Provenance) -> (r: Self)
        ensures
            r@ == (EcuNodeView {
                context,
                provenance: provenance@,
                role: None,
                observed_responders: Seq::empty(),
            }),
    {
        let r = Self { context, provenance, role: None, observed_responders: Vec::new() };
        assert(r@.observed_responders =~= Seq::<ObservedResponderView>::empty());
        r
    }

    /// The same node with one more observed responder.
    pub fn with_observed_responder(self, responder: ObservedResponder) -> (r: Self)
        ensures
            r@ == (EcuNodeView {
                observed_responders: self@.observed_responders.push(responder@),
                ..self@
            }),
    {
        let Self { context, provenance, role, observed_responders } = self;
        let ghost before = observed_responders@.map_values(|o: ObservedResponder| o@);
        let mut observed_responders = observed_responders;
        observed_responders.push(responder);
        let r = Self { context, provenance, role, observed_responders };
        assert(r@.observed_responders =~= before.push(responder@));
        r
    }

    pub fn context(&self) -> (r: &ProtocolContext)
        ensures
            *r == self@.context,
    {
        &self.context
    }

    pub fn provenance(&self) -> (r: &Provenance)
        ensures
            r@ == self@.provenance,
    {
        &self.provenance
    }

    pub fn role(&self) -> (r: Option<&RoleAssignment>)
        ensures
            match self@.role {
                Some(role) => (r matches Some(x) && x@ == role),
                None => r is None,
            },
    {
        match &self.role {
            Some(role) => Some(role),
            None => None,
        }
    }

    pub fn observed_responders(&self) -> (r: &[ObservedResponder])
        ensures
            r@.map_values(|o: ObservedResponder| o@) == self@.observed_responders,
    {
        self.observed_responders.as_slice()
    }
}

/// The observed ECUs, in the order they were observed.
#[derive(Clone, Debug, Eq, PartialEq)]
pub struct EcuTopology {
    nodes: Vec<EcuNode>,
}

impl View for EcuTopology {
    type V = Seq<EcuNodeView>;

    closed spec fn view(&self) -> Seq<EcuNodeView> {
        self.nodes@.map_values(|n: EcuNode| n@)
    }
}

impl EcuTopology {
    pub fn from_nodes(nodes: Vec<EcuNode>) -> (r: Self)
        ensures
            r@ == nodes@.map_values(|n: EcuNode| n@),
    {
        Self { nodes }
    }

    pub fn nodes(&self) -> (r: &[EcuNode])
        ensures
            r@.map_values(|n: EcuNode| n@) == self@,
    {
        self.nodes.as_slice()
    }
}


impl TopologyError {
    /// The message of this error.
    pub fn message(&self) -> (r: &'static str)
        ensures
            r@ == "provenance source must not be empty"@,
    {
        "provenance source must not be empty"
    }
}

} // verus!
