//! Deterministic, transport-neutral diagnostic jobs.
//!
//! A job is a bounded semantic request. This module contains no transport
//! handle, protocol payload builder, retry loop or executor. Raw
//! request/response data stays in the capture/audit layer and is referred to
//! here by an opaque [`EvidenceRef`].

use vstd::prelude::*;
use vstd::relations::*;

use crate::ea189::{probe_at, Ea189DpfProbe, EA189_DPF_PROBE_COUNT};
use crate::order::{model_leq, models, sort_by_model, Ordered};
use crate::text::{chars_le, concat, is_blank, is_blank_spec, occurs_at, owned, str_eq};

verus! {

broadcast use {vstd::seq_lib::group_to_multiset_ensures, vstd::multiset::group_multiset_axioms};

/// Version of the stable job vocabulary and its deterministic plan shape.
pub const JOB_MODEL_VERSION: u16 = 1;

/// Stable public identifier for a diagnostic job.
#[derive(Clone, Copy, Debug, Eq, Hash, Ord, PartialEq, PartialOrd)]
pub enum JobId {
    /// Read the bounded set of DTC information represented by this job.
    DtcScan,
    /// Read the closed, candidate-only EA189 DPF probe set.
    Ea189DpfProbe,
}

/// The stable text of a job identifier.
pub open spec fn job_id_text(id: JobId) -> Seq<char> {
    match id {
        JobId::DtcScan => "dtc.scan"@,
        JobId::Ea189DpfProbe => "ea189.dpf.probe"@,
    }
}

/// The job identifier named by a text, if any.
pub open spec fn job_id_named(value: Seq<char>) -> Option<JobId> {
    if value == "dtc.scan"@ {
        Some(JobId::DtcScan)
    } else if value == "ea189.dpf.probe"@ {
        Some(JobId::Ea189DpfProbe)
    } else {
        None
    }
}

impl JobId {
    pub fn id(self) -> (r: &'static str)
        ensures
            r@ == job_id_text(self),
    {
        match self {
            Self::DtcScan => "dtc.scan",
            Self::Ea189DpfProbe => "ea189.dpf.probe",
        }
    }

    pub fn as_str(self) -> (r: &'static str)
        ensures
            r@ == job_id_text(self),
    {
        self.id()
    }

    /// The stable serialization of this identifier.
    pub fn to_string(&self) -> (r: String)
        ensures
            r@ == job_id_text(*self),
    {
        owned(self.id())
    }

    pub fn parse(value: &str) -> (r: Result<Self, JobError>)
        ensures
            match job_id_named(value@) {
                Some(id) => r == Ok::<Self, JobError>(id),
                None => r matches Err(JobError::UnknownJobId(text)) && text@ == value@,
            },
    {
        if str_eq(value, "dtc.scan") {
            Ok(Self::DtcScan)
        } else if str_eq(value, "ea189.dpf.probe") {
            Ok(Self::Ea189DpfProbe)
        } else {
            Err(JobError::UnknownJobId(owned(value)))
        }
    }
}

/// Closed semantic vocabulary for currently supported jobs.
#[derive(Clone, Copy, Debug, Eq, Hash, Ord, PartialEq, PartialOrd)]
pub enum JobKind {
    DtcScan,
    Ea189DpfProbe,
}

/// The identifier that belongs to each kind.
pub open spec fn kind_job_id(kind: JobKind) -> JobId {
    match kind {
        JobKind::DtcScan => JobId::DtcScan,
        JobKind::Ea189DpfProbe => JobId::Ea189DpfProbe,
    }
}

/// The kind that belongs to each identifier.
pub open spec fn job_id_kind(id: JobId) -> JobKind {
    match id {
        JobId::DtcScan => JobKind::DtcScan,
        JobId::Ea189DpfProbe => JobKind::Ea189DpfProbe,
    }
}

impl JobKind {
    pub fn job_id(self) -> (r: JobId)
        ensures
            r == kind_job_id(self),
    {
        match self {
            Self::DtcScan => JobId::DtcScan,
            Self::Ea189DpfProbe => JobId::Ea189DpfProbe,
        }
    }

    pub fn from_job_id(id: JobId) -> (r: Self)
        ensures
            r == job_id_kind(id),
    {
        match id {
            JobId::DtcScan => Self::DtcScan,
            JobId::Ea189DpfProbe => Self::Ea189DpfProbe,
        }
    }

    pub fn id(self) -> (r: &'static str)
        ensures
            r@ == job_id_text(kind_job_id(self)),
    {
        self.job_id().id()
    }

    pub fn as_str(self) -> (r: &'static str)
        ensures
            r@ == job_id_text(kind_job_id(self)),
    {
        self.id()
    }

    pub fn parse(value: &str) -> (r: Result<Self, JobError>)
        ensures
            match job_id_named(value@) {
                Some(id) => r == Ok::<Self, JobError>(job_id_kind(id)),
                None => r matches Err(JobError::UnknownJobId(text)) && text@ == value@,
            },
    {
        match JobId::parse(value) {
            Ok(id) => Ok(Self::from_job_id(id)),
            Err(error) => Err(error),
        }
    }
}

/// An explicitly known ECU role. The role is metadata; it is not an address
/// range and cannot make a plan scan for ECUs.
#[derive(Clone, Debug, Eq, Hash, Ord, PartialEq, PartialOrd)]
pub enum EcuRole {
    Engine,
    Transmission,
    Gateway,
    Unknown,
    VendorSpecific(String),
}

/// The text of a role.
pub open spec fn role_text(role: EcuRole) -> Seq<char> {
    match role {
        EcuRole::Engine => "engine"@,
        EcuRole::Transmission => "transmission"@,
        EcuRole::Gateway => "gateway"@,
        EcuRole::Unknown => "unknown"@,
        EcuRole::VendorSpecific(value) => value@,
    }
}

impl EcuRole {
    pub fn vendor_specific(value: &str) -> (r: Result<Self, ScopeError>)
        ensures
            is_blank_spec(value@) ==> r == Err::<Self, ScopeError>(ScopeError::EmptyRole),
            !is_blank_spec(value@) ==> (r matches Ok(EcuRole::VendorSpecific(text)) && text@
                == value@),
    {
        if is_blank(value) {
            return Err(ScopeError::EmptyRole);
        }
        Ok(Self::VendorSpecific(owned(value)))
    }

    pub fn as_str(&self) -> (r: &str)
        ensures
            r@ == role_text(*self),
    {
        match self {
            Self::Engine => "engine",
            Self::Transmission => "transmission",
            Self::Gateway => "gateway",
            Self::Unknown => "unknown",
            Self::VendorSpecific(value) => value.as_str(),
        }
    }

    /// A copy of this role.
    pub fn duplicate(&self) -> (r: Self)
        ensures
            r == *self,
    {
        match self {
            Self::Engine => Self::Engine,
            Self::Transmission => Self::Transmission,
            Self::Gateway => Self::Gateway,
            Self::Unknown => Self::Unknown,
            Self::VendorSpecific(value) => Self::VendorSpecific(value.clone()),
        }
    }
}

/// A non-empty opaque identifier for an evidenced request target.
///
/// This is intentionally not a CAN/UDS address type. A caller can only put a
/// known target into a scope, never an address range or an implicit scan.
#[derive(Clone, Debug, Eq, Hash, Ord, PartialEq, PartialOrd)]
pub struct KnownTarget(String);

impl View for KnownTarget {
    type V = Seq<char>;

    closed spec fn view(&self) -> Seq<char> {
        self.0@
    }
}

impl KnownTarget {
    /// A target is never blank.
    pub closed spec fn wf(&self) -> bool {
        !is_blank_spec(self.0@)
    }

    pub fn new(value: &str) -> (r: Result<Self, ScopeError>)
        ensures
            is_blank_spec(value@) ==> r == Err::<Self, ScopeError>(ScopeError::EmptyTarget),
            !is_blank_spec(value@) ==> (r matches Ok(target) && target@ == value@ && target.wf()),
    {
        if is_blank(value) {
            return Err(ScopeError::EmptyTarget);
        }
        Ok(Self(owned(value)))
    }

    pub fn as_str(&self) -> (r: &str)
        ensures
            r@ == self@,
    {
        self.0.as_str()
    }

    /// A copy of this target.
    pub fn duplicate(&self) -> (r: Self)
        ensures
            r == *self,
    {
        Self(self.0.clone())
    }
}

/// A non-empty opaque identifier for one already-known OBD responder.
#[derive(Clone, Debug, Eq, Hash, Ord, PartialEq, PartialOrd)]
pub struct KnownResponder(String);

impl View for KnownResponder {
    type V = Seq<char>;

    closed spec fn view(&self) -> Seq<char> {
        self.0@
    }
}

impl KnownResponder {
    /// A responder is never blank.
    pub closed spec fn wf(&self) -> bool {
        !is_blank_spec(self.0@)
    }

    pub fn new(value: &str) -> (r: Result<Self, ScopeError>)
        ensures
            is_blank_spec(value@) ==> r == Err::<Self, ScopeError>(ScopeError::EmptyResponder),
            !is_blank_spec(value@) ==> (r matches Ok(responder) && responder@ == value@
                && responder.wf()),
    {
        if is_blank(value) {
            return Err(ScopeError::EmptyResponder);
        }
        Ok(Self(owned(value)))
    }

    pub fn as_str(&self) -> (r: &str)
        ensures
            r@ == self@,
    {
        self.0.as_str()
    }

    /// A copy of this responder.
    pub fn duplicate(&self) -> (r: Self)
        ensures
            r == *self,
    {
        Self(self.0.clone())
    }
}

impl Ordered for KnownResponder {
    open spec fn model_le(a: Seq<char>, b: Seq<char>) -> bool {
        chars_le(a, b)
    }

    proof fn lemma_model_le_total_ordering() {
        let leq = |a: Seq<char>, b: Seq<char>| Self::model_le(a, b);
        assert(reflexive(leq)) by {
            assert forall|x: Seq<char>| #[trigger] leq(x, x) by {
                crate::text::lemma_chars_le_reflexive(x);
            }
        }
        assert(antisymmetric(leq)) by {
            assert forall|x: Seq<char>, y: Seq<char>| #[trigger] leq(x, y) && #[trigger] leq(y, x)
                implies x == y by {
                crate::text::lemma_chars_le_antisymmetric(x, y);
            }
        }
        assert(transitive(leq)) by {
            assert forall|x: Seq<char>, y: Seq<char>, z: Seq<char>|
                #[trigger] leq(x, y) && #[trigger] leq(y, z) implies leq(x, z) by {
                crate::text::lemma_chars_le_transitive(x, y, z);
            }
        }
        assert(strongly_connected(leq)) by {
            assert forall|x: Seq<char>, y: Seq<char>| #[trigger] leq(x, y) || #[trigger] leq(y, x) by {
                crate::text::lemma_chars_le_total(x, y);
            }
        }
    }

    fn le(&self, other: &Self) -> (r: bool) {
        crate::text::str_le(self.0.as_str(), other.0.as_str())
    }
}

/// Two entries of a sequence carry the same responder identity.
pub open spec fn has_duplicate_responder(responders: Seq<KnownResponder>) -> bool {
    exists|i: int, j: int|
        0 <= i < j < responders.len() && #[trigger] responders[i]@ == #[trigger] responders[j]@
}

/// A closed scope vocabulary. Every address-bearing member is explicitly
/// named `Known`; there is no `all_ecus` or address-discovery variant.
#[derive(Clone, Debug, Eq, Hash, Ord, PartialEq, PartialOrd)]
pub enum DiagnosticScope {
    KnownEcu { role: EcuRole, target: KnownTarget },
    KnownObdResponders(Vec<KnownResponder>),
    VehicleWide,
}

/// The model of a scope.
pub enum ScopeView {
    KnownEcu { role: EcuRole, target: KnownTarget },
    KnownObdResponders(Seq<KnownResponder>),
    VehicleWide,
}

impl View for DiagnosticScope {
    type V = ScopeView;

    open spec fn view(&self) -> ScopeView {
        match self {
            DiagnosticScope::KnownEcu { role, target } => ScopeView::KnownEcu {
                role: *role,
                target: *target,
            },
            DiagnosticScope::KnownObdResponders(responders) => ScopeView::KnownObdResponders(
                responders@,
            ),
            DiagnosticScope::VehicleWide => ScopeView::VehicleWide,
        }
    }
}

/// The job targets selected by a scope, in scope order.
pub open spec fn scope_targets(scope: ScopeView) -> Seq<JobTarget> {
    match scope {
        ScopeView::KnownEcu { role, target } => seq![JobTarget::KnownEcu { role, target }],
        ScopeView::KnownObdResponders(responders) => responders.map_values(
            |r: KnownResponder| JobTarget::KnownObdResponder(r),
        ),
        ScopeView::VehicleWide => seq![JobTarget::Vehicle],
    }
}

/// The responders named by a scope.
pub open spec fn scope_responders(scope: ScopeView) -> Seq<KnownResponder> {
    match scope {
        ScopeView::KnownObdResponders(responders) => responders,
        _ => Seq::empty(),
    }
}

/// A copy of a list of responders.
fn copy_responders(responders: &Vec<KnownResponder>) -> (r: Vec<KnownResponder>)
    ensures
        r@ == responders@,
{
    let mut r: Vec<KnownResponder> = Vec::new();
    let mut i: usize = 0;
    while i < responders.len()
        invariant
            i <= responders@.len(),
            r@ == responders@.take(i as int),
        decreases responders@.len() - i,
    {
        r.push(responders[i].duplicate());
        assert(responders@.take(i as int).push(responders@[i as int]) =~= responders@.take(i + 1));
        i += 1;
    }
    assert(responders@.take(responders@.len() as int) =~= responders@);
    r
}

impl DiagnosticScope {
    pub fn known_ecu(role: EcuRole, target: KnownTarget) -> (r: Self)
        ensures
            r@ == (ScopeView::KnownEcu { role, target }),
    {
        Self::KnownEcu { role, target }
    }

    /// A scope over already-known responders. The responders are held in
    /// ascending order of their identity; an empty or repeated set is refused.
    pub fn known_obd_responders(responders: Vec<KnownResponder>) -> (r: Result<Self, ScopeError>)
        ensures
            responders@.len() == 0 ==> r == Err::<Self, ScopeError>(
                ScopeError::EmptyResponderSet,
            ),
            responders@.len() > 0 && has_duplicate_responder(responders@) ==> r == Err::<
                Self,
                ScopeError,
            >(ScopeError::DuplicateResponder),
            responders@.len() > 0 && !has_duplicate_responder(responders@) ==> (r matches Ok(
                scope,
            ) && scope@ matches ScopeView::KnownObdResponders(sorted) && models(sorted) == models(
                responders@,
            ).sort_by(model_leq::<KnownResponder>()) && sorted.to_multiset()
                == responders@.to_multiset()),
    {
        if responders.len() == 0 {
            return Err(ScopeError::EmptyResponderSet);
        }
        let ghost input = responders@;
        let sorted = sort_by_model(responders);
        let ghost leq = model_leq::<KnownResponder>();
        proof {
            KnownResponder::lemma_model_le_total_ordering();
            models(input).lemma_sort_by_ensures(leq);
        }
        assert(sorted@.to_multiset().len() == input.to_multiset().len());
        let mut i: usize = 1;
        while i < sorted.len()
            invariant
                1 <= i <= sorted@.len(),
                sorted@.to_multiset() == input.to_multiset(),
                input.len() > 0,
                input == responders@,
                models(sorted@) == models(input).sort_by(leq),
                leq == model_leq::<KnownResponder>(),
                forall|k: int| 0 < k < i ==> sorted@[k - 1]@ != #[trigger] sorted@[k]@,
            decreases sorted@.len() - i,
        {
            if str_eq(sorted[i - 1].as_str(), sorted[i].as_str()) {
                proof {
                    lemma_adjacent_duplicate(input, sorted@, (i - 1) as int);
                }
                return Err(ScopeError::DuplicateResponder);
            }
            i += 1;
        }
        proof {
            lemma_no_adjacent_duplicate(input, sorted@);
        }
        Ok(Self::KnownObdResponders(sorted))
    }

    pub fn vehicle_wide() -> (r: Self)
        ensures
            r@ == ScopeView::VehicleWide,
    {
        Self::VehicleWide
    }

    pub fn targets(&self) -> (r: Vec<JobTarget>)
        ensures
            r@ == scope_targets(self@),
    {
        match self {
            Self::KnownEcu { role, target } => {
                let mut r = Vec::new();
                r.push(JobTarget::KnownEcu { role: role.duplicate(), target: target.duplicate() });
                assert(r@ =~= scope_targets(self@));
                r
            },
            Self::KnownObdResponders(responders) => {
                let mut r: Vec<JobTarget> = Vec::new();
                let mut i: usize = 0;
                while i < responders.len()
                    invariant
                        i <= responders@.len(),
                        r@ =~= responders@.take(i as int).map_values(
                            |x: KnownResponder| JobTarget::KnownObdResponder(x),
                        ),
                    decreases responders@.len() - i,
                {
                    r.push(JobTarget::KnownObdResponder(responders[i].duplicate()));
                    i += 1;
                }
                assert(responders@.take(responders@.len() as int) =~= responders@);
                r
            },
            Self::VehicleWide => {
                let mut r = Vec::new();
                r.push(JobTarget::Vehicle);
                assert(r@ =~= scope_targets(self@));
                r
            },
        }
    }

    pub fn responders(&self) -> (r: &[KnownResponder])
        ensures
            r@ == scope_responders(self@),
    {
        match self {
            Self::KnownObdResponders(responders) => responders.as_slice(),
            Self::KnownEcu { .. } | Self::VehicleWide => {
                let empty: &[KnownResponder] = &[];
                assert(empty@ =~= Seq::<KnownResponder>::empty());
                empty
            },
        }
    }

    /// A copy of this scope.
    pub fn duplicate(&self) -> (r: Self)
        ensures
            r@ == self@,
    {
        match self {
            Self::KnownEcu { role, target } => Self::KnownEcu {
                role: role.duplicate(),
                target: target.duplicate(),
            },
            Self::KnownObdResponders(responders) => Self::KnownObdResponders(
                copy_responders(responders),
            ),
            Self::VehicleWide => Self::VehicleWide,
        }
    }
}

/// In a sorted sequence with the elements of `input`, two adjacent equal
/// identities mean the input repeats an identity.
proof fn lemma_adjacent_duplicate(input: Seq<KnownResponder>, sorted: Seq<KnownResponder>, k: int)
    requires
        0 <= k,
        k + 1 < sorted.len(),
        sorted[k]@ == sorted[k + 1]@,
        sorted.to_multiset() == input.to_multiset(),
    ensures
        has_duplicate_responder(input),
{
    let a = sorted[k];
    let b = sorted[k + 1];
    assert(sorted.to_multiset().count(a) > 0);
    assert(input.contains(a));
    let i = choose|i: int| 0 <= i < input.len() && input[i] == a;
    if a == b {
        // The same element twice: count in the sorted sequence is at least two.
        let rest = sorted.remove(k);
        assert(rest[k] == b);
        assert(rest.to_multiset() == sorted.to_multiset().remove(a));
        assert(rest.contains(b));
        assert(rest.to_multiset().count(b) > 0);
        assert(input.to_multiset().count(a) >= 2);
        let rest_in = input.remove(i);
        assert(rest_in.to_multiset() == input.to_multiset().remove(a));
        assert(rest_in.to_multiset().count(a) > 0);
        assert(rest_in.contains(a));
        let j = choose|j: int| 0 <= j < rest_in.len() && rest_in[j] == a;
        if j < i {
            assert(input[j] == a);
            assert(input[j]@ == input[i]@);
        } else {
            assert(input[j + 1] == a);
            assert(input[i]@ == input[j + 1]@);
        }
    } else {
        assert(sorted.to_multiset().count(b) > 0);
        assert(input.contains(b));
        let j = choose|j: int| 0 <= j < input.len() && input[j] == b;
        assert(i != j);
        if i < j {
            assert(input[i]@ == input[j]@);
        } else {
            assert(input[j]@ == input[i]@);
        }
    }
}

/// A sorted sequence without adjacent equal identities holds no repeated
/// identity, and neither does any input with the same elements.
proof fn lemma_no_adjacent_duplicate(input: Seq<KnownResponder>, sorted: Seq<KnownResponder>)
    requires
        models(sorted) == models(input).sort_by(model_leq::<KnownResponder>()),
        sorted.to_multiset() == input.to_multiset(),
        forall|k: int| 0 < k < sorted.len() ==> sorted[k - 1]@ != #[trigger] sorted[k]@,
        sorted_by(models(input).sort_by(model_leq::<KnownResponder>()), model_leq::<KnownResponder>()),
        total_ordering(model_leq::<KnownResponder>()),
    ensures
        !has_duplicate_responder(input),
{
    let leq = model_leq::<KnownResponder>();
    let m = models(sorted);
    assert(sorted_by(m, leq));
    // Strictly increasing: any two positions carry different identities.
    assert forall|p: int, q: int| 0 <= p < q < sorted.len() implies sorted[p]@ != sorted[q]@ by {
        if sorted[p]@ == sorted[q]@ {
            assert(leq(m[p], m[p + 1]));
            if p + 1 < q {
                assert(leq(m[p + 1], m[q]));
            }
            assert(m[p + 1] == m[p]);
            assert(sorted[p]@ == sorted[p + 1]@);
        }
    }
    if has_duplicate_responder(input) {
        let (i, j) = choose|i: int, j: int|
            0 <= i < j < input.len() && #[trigger] input[i]@ == #[trigger] input[j]@;
        assert(input.to_multiset().count(input[i]) > 0);
        assert(sorted.contains(input[i]));
        let p = choose|p: int| 0 <= p < sorted.len() && sorted[p] == input[i];
        if input[i] == input[j] {
            let rest_in = input.remove(i);
            assert(rest_in[j - 1] == input[j]);
            assert(rest_in.to_multiset() == input.to_multiset().remove(input[i]));
            assert(rest_in.to_multiset().count(input[i]) > 0);
            let rest = sorted.remove(p);
            assert(rest.to_multiset() == sorted.to_multiset().remove(input[i]));
            assert(rest.to_multiset().count(input[i]) > 0);
            assert(rest.contains(input[i]));
            let q = choose|q: int| 0 <= q < rest.len() && rest[q] == input[i];
            if q < p {
                assert(sorted[q]@ == sorted[p]@);
            } else {
                assert(sorted[q + 1]@ == sorted[p]@);
            }
        } else {
            assert(input.to_multiset().count(input[j]) > 0);
            assert(sorted.contains(input[j]));
            let q = choose|q: int| 0 <= q < sorted.len() && sorted[q] == input[j];
            assert(p != q);
            if p < q {
                assert(sorted[p]@ == sorted[q]@);
            } else {
                assert(sorted[q]@ == sorted[p]@);
            }
        }
    }
}

/// A concrete target selected by a validated scope.
#[derive(Clone, Debug, Eq, Hash, Ord, PartialEq, PartialOrd)]
pub enum JobTarget {
    KnownEcu { role: EcuRole, target: KnownTarget },
    KnownObdResponder(KnownResponder),
    Vehicle,
}

impl JobTarget {
    /// A copy of this target.
    pub fn duplicate(&self) -> (r: Self)
        ensures
            r == *self,
    {
        match self {
            Self::KnownEcu { role, target } => Self::KnownEcu {
                role: role.duplicate(),
                target: target.duplicate(),
            },
            Self::KnownObdResponder(responder) => Self::KnownObdResponder(responder.duplicate()),
            Self::Vehicle => Self::Vehicle,
        }
    }
}

/// Safety classification attached to a job and plan.
#[derive(Clone, Copy, Debug, Eq, Hash, Ord, PartialEq, PartialOrd)]
pub enum SafetyClass {
    ReadOnly,
}

/// A semantic diagnostic job request. Its private fields make the request
/// immutable after construction and leave no slot for raw protocol bytes.
#[derive(Clone, Debug, Eq, Hash, Ord, PartialEq, PartialOrd)]
pub struct DiagnosticJob {
    id: JobId,
    kind: JobKind,
    scope: DiagnosticScope,
    safety: SafetyClass,
}

/// The model of a diagnostic job.
pub struct DiagnosticJobView {
    pub id: JobId,
    pub kind: JobKind,
    pub scope: ScopeView,
    pub safety: SafetyClass,
}

impl View for DiagnosticJob {
    type V = DiagnosticJobView;

    closed spec fn view(&self) -> DiagnosticJobView {
        DiagnosticJobView { id: self.id, kind: self.kind, scope: self.scope@, safety: self.safety }
    }
}

/// A scope admitted for the EA189 DPF probe: one known engine ECU.
pub open spec fn is_known_engine_scope(scope: ScopeView) -> bool {
    scope matches ScopeView::KnownEcu { role: EcuRole::Engine, .. }
}

impl DiagnosticJob {
    pub fn new(kind: JobKind, scope: DiagnosticScope) -> (r: Self)
        ensures
            r@ == (DiagnosticJobView {
                id: kind_job_id(kind),
                kind,
                scope: scope@,
                safety: SafetyClass::ReadOnly,
            }),
    {
        Self { id: kind.job_id(), kind, scope, safety: SafetyClass::ReadOnly }
    }

    pub fn try_new(kind: JobKind, scope: DiagnosticScope) -> (r: Result<Self, JobError>)
        ensures
            kind == JobKind::Ea189DpfProbe && !is_known_engine_scope(scope@) ==> r == Err::<
                Self,
                JobError,
            >(JobError::RequiresKnownEngineEcu),
            !(kind == JobKind::Ea189DpfProbe && !is_known_engine_scope(scope@)) ==> (r matches Ok(
                job,
            ) && job@ == (DiagnosticJobView {
                id: kind_job_id(kind),
                kind,
                scope: scope@,
                safety: SafetyClass::ReadOnly,
            })),
    {
        let engine = match &scope {
            DiagnosticScope::KnownEcu { role: EcuRole::Engine, .. } => true,
            _ => false,
        };
        if matches!(kind, JobKind::Ea189DpfProbe) && !engine {
            return Err(JobError::RequiresKnownEngineEcu);
        }
        Ok(Self::new(kind, scope))
    }

    pub fn from_id(id: &str, scope: DiagnosticScope) -> (r: Result<Self, JobError>)
        ensures
            job_id_named(id@) is None ==> (r matches Err(JobError::UnknownJobId(text)) && text@
                == id@),
            job_id_named(id@) matches Some(job_id) ==> {
                let kind = job_id_kind(job_id);
                &&& kind == JobKind::Ea189DpfProbe && !is_known_engine_scope(scope@) ==> r
                    == Err::<Self, JobError>(JobError::RequiresKnownEngineEcu)
                &&& !(kind == JobKind::Ea189DpfProbe && !is_known_engine_scope(scope@)) ==> (r
                    matches Ok(job) && job@ == (DiagnosticJobView {
                    id: job_id,
                    kind,
                    scope: scope@,
                    safety: SafetyClass::ReadOnly,
                })
            )},
    {
        let kind = JobKind::parse(id)?;
        Self::try_new(kind, scope)
    }

    pub fn dtc_scan(scope: DiagnosticScope) -> (r: Self)
        ensures
            r@ == (DiagnosticJobView {
                id: JobId::DtcScan,
                kind: JobKind::DtcScan,
                scope: scope@,
                safety: SafetyClass::ReadOnly,
            }),
    {
        Self::new(JobKind::DtcScan, scope)
    }

    /// Build the bounded EA189 DPF probe against one already-known engine
    /// ECU. The constructor cannot create a vehicle-wide or functional scan.
    pub fn ea189_dpf_probe(target: KnownTarget) -> (r: Self)
        ensures
            r@ == (DiagnosticJobView {
                id: JobId::Ea189DpfProbe,
                kind: JobKind::Ea189DpfProbe,
                scope: ScopeView::KnownEcu { role: EcuRole::Engine, target },
                safety: SafetyClass::ReadOnly,
            }),
    {
        Self::new(JobKind::Ea189DpfProbe, DiagnosticScope::known_ecu(EcuRole::Engine, target))
    }

    pub fn id(&self) -> (r: JobId)
        ensures
            r == self@.id,
    {
        self.id
    }

    pub fn kind(&self) -> (r: JobKind)
        ensures
            r == self@.kind,
    {
        self.kind
    }

    pub fn scope(&self) -> (r: &DiagnosticScope)
        ensures
            r@ == self@.scope,
    {
        &self.scope
    }

    pub fn safety(&self) -> (r: SafetyClass)
        ensures
            r == self@.safety,
    {
        self.safety
    }

    pub fn plan(&self) -> (r: JobPlan)
        ensures
            r@ == plan_of(self@),
    {
        JobPlan::for_job(self)
    }
}

/// The only step operations: read DTCs, or read one EA189 DPF candidate.
#[derive(Clone, Copy, Debug, Eq, Hash, Ord, PartialEq, PartialOrd)]
pub enum JobStepKind {
    ReadDtc,
    ReadEa189Dpf(Ea189DpfProbe),
}

/// One planned, ordered semantic read. The sequence is zero-based and is
/// assigned by [`JobPlan`], not by a transport executor.
#[derive(Clone, Debug, Eq, Hash, Ord, PartialEq, PartialOrd)]
pub struct JobStep {
    sequence: usize,
    kind: JobStepKind,
    target: JobTarget,
}

/// The model of a planned step.
pub struct JobStepView {
    pub sequence: int,
    pub kind: JobStepKind,
    pub target: JobTarget,
}

impl View for JobStep {
    type V = JobStepView;

    closed spec fn view(&self) -> JobStepView {
        JobStepView { sequence: self.sequence as int, kind: self.kind, target: self.target }
    }
}

/// The EA189 DPF probe a step kind reads, if any.
pub open spec fn step_dpf_probe(kind: JobStepKind) -> Option<Ea189DpfProbe> {
    match kind {
        JobStepKind::ReadEa189Dpf(probe) => Some(probe),
        JobStepKind::ReadDtc => None,
    }
}

impl JobStep {
    pub fn sequence(&self) -> (r: usize)
        ensures
            r == self@.sequence,
    {
        self.sequence
    }

    pub fn kind(&self) -> (r: JobStepKind)
        ensures
            r == self@.kind,
    {
        self.kind
    }

    pub fn dpf_probe(&self) -> (r: Option<Ea189DpfProbe>)
        ensures
            r == step_dpf_probe(self@.kind),
    {
        match self.kind {
            JobStepKind::ReadEa189Dpf(probe) => Some(probe),
            JobStepKind::ReadDtc => None,
        }
    }

    pub fn target(&self) -> (r: &JobTarget)
        ensures
            *r == self@.target,
    {
        &self.target
    }

    /// A copy of this step.
    pub fn duplicate(&self) -> (r: Self)
        ensures
            r@ == self@,
    {
        Self { sequence: self.sequence, kind: self.kind, target: self.target.duplicate() }
    }
}

/// A fully expanded, deterministic and bounded execution plan.
#[derive(Clone, Debug, Eq, Hash, Ord, PartialEq, PartialOrd)]
pub struct JobPlan {
    model_version: u16,
    id: JobId,
    kind: JobKind,
    scope: DiagnosticScope,
    safety: SafetyClass,
    steps: Vec<JobStep>,
}

/// The model of a plan.
pub struct JobPlanView {
    pub model_version: u16,
    pub id: JobId,
    pub kind: JobKind,
    pub scope: ScopeView,
    pub safety: SafetyClass,
    pub steps: Seq<JobStepView>,
}

impl View for JobPlan {
    type V = JobPlanView;

    closed spec fn view(&self) -> JobPlanView {
        JobPlanView {
            model_version: self.model_version,
            id: self.id,
            kind: self.kind,
            scope: self.scope@,
            safety: self.safety,
            steps: models(self.steps@),
        }
    }
}

/// The steps planned for a job: one DTC read per scope target, or the seven
/// DPF candidates against a known engine ECU (nothing for any other scope).
pub open spec fn planned_steps(job: DiagnosticJobView) -> Seq<JobStepView> {
    match job.kind {
        JobKind::DtcScan => {
            let targets = scope_targets(job.scope);
            Seq::new(
                targets.len(),
                |i: int| JobStepView { sequence: i, kind: JobStepKind::ReadDtc, target: targets[i] },
            )
        },
        JobKind::Ea189DpfProbe => match job.scope {
            ScopeView::KnownEcu { role: EcuRole::Engine, target } => Seq::new(
                7,
                |i: int|
                    JobStepView {
                        sequence: i,
                        kind: JobStepKind::ReadEa189Dpf(probe_at(i)),
                        target: JobTarget::KnownEcu { role: EcuRole::Engine, target },
                    },
            ),
            _ => Seq::empty(),
        },
    }
}

/// The plan of a job.
pub open spec fn plan_of(job: DiagnosticJobView) -> JobPlanView {
    JobPlanView {
        model_version: JOB_MODEL_VERSION,
        id: job.id,
        kind: job.kind,
        scope: job.scope,
        safety: job.safety,
        steps: planned_steps(job),
    }
}

impl JobPlan {
    pub fn for_job(job: &DiagnosticJob) -> (r: Self)
        ensures
            r@ == plan_of(job@),
    {
        let ghost expected = planned_steps(job@);
        let mut steps: Vec<JobStep> = Vec::new();
        match job.kind {
            JobKind::DtcScan => {
                let targets = job.scope.targets();
                let mut i: usize = 0;
                while i < targets.len()
                    invariant
                        i <= targets@.len(),
                        targets@ == scope_targets(job@.scope),
                        job@.kind == JobKind::DtcScan,
                        expected == planned_steps(job@),
                        models(steps@) =~= expected.take(i as int),
                    decreases targets@.len() - i,
                {
                    let step = JobStep {
                        sequence: i,
                        kind: JobStepKind::ReadDtc,
                        target: targets[i].duplicate(),
                    };
                    let ghost before = steps@;
                    steps.push(step);
                    assert(models(steps@) =~= models(before).push(step@));
                    i += 1;
                }
                assert(expected.take(targets@.len() as int) =~= expected);
            },
            JobKind::Ea189DpfProbe => {
                match &job.scope {
                    DiagnosticScope::KnownEcu { role: EcuRole::Engine, target } => {
                        let all = Ea189DpfProbe::all();
                        let mut i: usize = 0;
                        while i < EA189_DPF_PROBE_COUNT
                            invariant
                                i <= 7,
                                forall|k: int| 0 <= k < 7 ==> #[trigger] all@[k] == probe_at(k),
                                job@.kind == JobKind::Ea189DpfProbe,
                                job@.scope == (ScopeView::KnownEcu {
                                    role: EcuRole::Engine,
                                    target: *target,
                                }),
                                expected == planned_steps(job@),
                                models(steps@) =~= expected.take(i as int),
                            decreases 7 - i,
                        {
                            let step = JobStep {
                                sequence: i,
                                kind: JobStepKind::ReadEa189Dpf(all[i]),
                                target: JobTarget::KnownEcu {
                                    role: EcuRole::Engine,
                                    target: target.duplicate(),
                                },
                            };
                            let ghost before = steps@;
                            steps.push(step);
                            assert(models(steps@) =~= models(before).push(step@));
                            i += 1;
                        }
                        assert(expected.take(7) =~= expected);
                    },
                    _ => {
                        assert(expected =~= Seq::<JobStepView>::empty());
                        assert(models(steps@) =~= expected);
                    },
                }
            },
        }
        Self {
            model_version: JOB_MODEL_VERSION,
            id: job.id,
            kind: job.kind,
            scope: job.scope.duplicate(),
            safety: job.safety,
            steps,
        }
    }

    pub fn model_version(&self) -> (r: u16)
        ensures
            r == self@.model_version,
    {
        self.model_version
    }

    pub fn id(&self) -> (r: JobId)
        ensures
            r == self@.id,
    {
        self.id
    }

    pub fn kind(&self) -> (r: JobKind)
        ensures
            r == self@.kind,
    {
        self.kind
    }

    pub fn scope(&self) -> (r: &DiagnosticScope)
        ensures
            r@ == self@.scope,
    {
        &self.scope
    }

    pub fn safety(&self) -> (r: SafetyClass)
        ensures
            r == self@.safety,
    {
        self.safety
    }

    pub fn steps(&self) -> (r: &[JobStep])
        ensures
            models(r@) == self@.steps,
    {
        self.steps.as_slice()
    }

    pub fn is_empty(&self) -> (r: bool)
        ensures
            r == (self@.steps.len() == 0),
    {
        self.steps.len() == 0
    }
}

/// Opaque link to capture/audit data. It carries no raw protocol payload and
/// therefore cannot be used to construct a mutating request.
#[derive(Clone, Debug, Eq, Hash, Ord, PartialEq, PartialOrd)]
pub struct EvidenceRef(String);

impl View for EvidenceRef {
    type V = Seq<char>;

    closed spec fn view(&self) -> Seq<char> {
        self.0@
    }
}

impl EvidenceRef {
    pub fn new(value: &str) -> (r: Result<Self, EvidenceError>)
        ensures
            is_blank_spec(value@) ==> r == Err::<Self, EvidenceError>(
                EvidenceError::EmptyReference,
            ),
            !is_blank_spec(value@) ==> (r matches Ok(reference) && reference@ == value@),
    {
        if is_blank(value) {
            return Err(EvidenceError::EmptyReference);
        }
        Ok(Self(owned(value)))
    }

    pub fn as_str(&self) -> (r: &str)
        ensures
            r@ == self@,
    {
        self.0.as_str()
    }
}

/// Evidence retained for one successful or recoverably failed step.
#[derive(Clone, Debug, Eq, Hash, Ord, PartialEq, PartialOrd)]
pub struct StepEvidence {
    reference: EvidenceRef,
    responder: Option<KnownResponder>,
}

/// The model of retained step evidence.
pub struct StepEvidenceView {
    pub reference: EvidenceRef,
    pub responder: Option<KnownResponder>,
}

impl View for StepEvidence {
    type V = StepEvidenceView;

    closed spec fn view(&self) -> StepEvidenceView {
        StepEvidenceView { reference: self.reference, responder: self.responder }
    }
}

impl StepEvidence {
    pub fn new(reference: EvidenceRef, responder: Option<KnownResponder>) -> (r: Self)
        ensures
            r@ == (StepEvidenceView { reference, responder }),
    {
        Self { reference, responder }
    }

    pub fn reference(&self) -> (r: &EvidenceRef)
        ensures
            *r == self@.reference,
    {
        &self.reference
    }

    pub fn responder(&self) -> (r: Option<&KnownResponder>)
        ensures
            match self@.responder {
                Some(responder) => r == Some(&responder),
                None => r is None,
            },
    {
        match &self.responder {
            Some(responder) => Some(responder),
            None => None,
        }
    }
}

/// A bounded, recoverable failure belonging to one planned step.
#[derive(Clone, Debug, Eq, Hash, Ord, PartialEq, PartialOrd)]
pub enum StepError {
    Unsupported,
    NegativeResponse,
    Timeout,
    MalformedEvidence,
    Other(String),
}

impl StepError {
    pub fn other(value: &str) -> (r: Self)
        ensures
            r matches StepError::Other(text) && text@ == value@,
    {
        Self::Other(owned(value))
    }
}

/// A fatal session-level failure. It stops all remaining steps.
#[derive(Clone, Debug, Eq, Hash, Ord, PartialEq, PartialOrd)]
pub enum SessionError {
    Disconnected,
    Transport,
    Fault,
    Other(String),
}

impl SessionError {
    pub fn other(value: &str) -> (r: Self)
        ensures
            r matches SessionError::Other(text) && text@ == value@,
    {
        Self::Other(owned(value))
    }
}

/// Why a planned step did not run after a terminal job condition.
#[derive(Clone, Copy, Debug, Eq, Hash, Ord, PartialEq, PartialOrd)]
pub enum SkipReason {
    SessionFailed,
    Cancelled,
}

/// Outcome of one planned step. Evidence is kept alongside recoverable
/// errors so a negative/invalid read cannot discard earlier observations.
#[derive(Clone, Debug, Eq, Hash, Ord, PartialEq, PartialOrd)]
pub enum StepOutcome {
    Succeeded { evidence: Vec<StepEvidence> },
    RecoverableError { error: StepError, evidence: Vec<StepEvidence> },
    NotRun { reason: SkipReason },
}

/// The evidence an outcome retains.
pub open spec fn outcome_evidence(outcome: StepOutcome) -> Seq<StepEvidence> {
    match outcome {
        StepOutcome::Succeeded { evidence } => evidence@,
        StepOutcome::RecoverableError { evidence, .. } => evidence@,
        StepOutcome::NotRun { .. } => Seq::empty(),
    }
}

impl StepOutcome {
    pub fn succeeded(evidence: Vec<StepEvidence>) -> (r: Self)
        ensures
            r == (StepOutcome::Succeeded { evidence }),
    {
        Self::Succeeded { evidence }
    }

    pub fn recoverable(error: StepError, evidence: Vec<StepEvidence>) -> (r: Self)
        ensures
            r == (StepOutcome::RecoverableError { error, evidence }),
    {
        Self::RecoverableError { error, evidence }
    }

    pub fn not_run(reason: SkipReason) -> (r: Self)
        ensures
            r == (StepOutcome::NotRun { reason }),
    {
        Self::NotRun { reason }
    }

    pub fn evidence(&self) -> (r: &[StepEvidence])
        ensures
            r@ == outcome_evidence(*self),
    {
        match self {
            Self::Succeeded { evidence } => evidence.as_slice(),
            Self::RecoverableError { evidence, .. } => evidence.as_slice(),
            Self::NotRun { .. } => {
                let empty: &[StepEvidence] = &[];
                assert(empty@ =~= Seq::<StepEvidence>::empty());
                empty
            },
        }
    }
}

/// Terminal condition supplied by the executor when it turns observations
/// into an immutable result.
#[derive(Clone, Debug, Eq, Hash, Ord, PartialEq, PartialOrd)]
pub enum Termination {
    Completed,
    SessionFailed(SessionError),
    Cancelled,
}

/// Stable status of a diagnostic job.
#[derive(Clone, Copy, Debug, Eq, Hash, Ord, PartialEq, PartialOrd)]
pub enum JobStatus {
    Planned,
    Running,
    Completed,
    CompletedWithErrors,
    Failed,
    Cancelled,
}

/// The stable text of a status.
pub open spec fn status_text(status: JobStatus) -> Seq<char> {
    match status {
        JobStatus::Planned => "planned"@,
        JobStatus::Running => "running"@,
        JobStatus::Completed => "completed"@,
        JobStatus::CompletedWithErrors => "completed_with_errors"@,
        JobStatus::Failed => "failed"@,
        JobStatus::Cancelled => "cancelled"@,
    }
}

impl JobStatus {
    pub fn as_str(self) -> (r: &'static str)
        ensures
            r@ == status_text(self),
    {
        match self {
            Self::Planned => "planned",
            Self::Running => "running",
            Self::Completed => "completed",
            Self::CompletedWithErrors => "completed_with_errors",
            Self::Failed => "failed",
            Self::Cancelled => "cancelled",
        }
    }
}

/// Immutable result of executing every step prefix represented by a plan.
#[derive(Clone, Debug, Eq, Hash, Ord, PartialEq, PartialOrd)]
pub struct JobResult {
    model_version: u16,
    id: JobId,
    kind: JobKind,
    status: JobStatus,
    steps: Vec<JobStepResult>,
    session_error: Option<SessionError>,
}

/// The model of a job result.
pub struct JobResultView {
    pub model_version: u16,
    pub id: JobId,
    pub kind: JobKind,
    pub status: JobStatus,
    pub steps: Seq<JobStepResultView>,
    pub session_error: Option<SessionError>,
}

impl View for JobResult {
    type V = JobResultView;

    closed spec fn view(&self) -> JobResultView {
        JobResultView {
            model_version: self.model_version,
            id: self.id,
            kind: self.kind,
            status: self.status,
            steps: models(self.steps@),
            session_error: self.session_error,
        }
    }
}

/// Result paired with its planned step, retaining stable ordering.
#[derive(Clone, Debug, Eq, Hash, Ord, PartialEq, PartialOrd)]
pub struct JobStepResult {
    step: JobStep,
    outcome: StepOutcome,
}

/// The model of one step result.
pub struct JobStepResultView {
    pub step: JobStepView,
    pub outcome: StepOutcome,
}

impl View for JobStepResult {
    type V = JobStepResultView;

    closed spec fn view(&self) -> JobStepResultView {
        JobStepResultView { step: self.step@, outcome: self.outcome }
    }
}

impl JobStepResult {
    pub fn step(&self) -> (r: &JobStep)
        ensures
            r@ == self@.step,
    {
        &self.step
    }

    pub fn outcome(&self) -> (r: &StepOutcome)
        ensures
            *r == self@.outcome,
    {
        &self.outcome
    }
}

/// The outcome is a skipped step.
pub open spec fn is_not_run(outcome: StepOutcome) -> bool {
    outcome is NotRun
}

/// Some outcome was skipped.
pub open spec fn any_not_run(outcomes: Seq<StepOutcome>) -> bool {
    exists|i: int| 0 <= i < outcomes.len() && is_not_run(#[trigger] outcomes[i])
}

/// Some outcome is a recoverable error.
pub open spec fn any_recoverable(outcomes: Seq<StepOutcome>) -> bool {
    exists|i: int| 0 <= i < outcomes.len() && #[trigger] outcomes[i] is RecoverableError
}

/// The skipped steps form one suffix, all skipped for `reason`: every
/// skipped step has that reason and every step after a skipped one is skipped.
pub open spec fn skipped_suffix(outcomes: Seq<StepOutcome>, reason: SkipReason) -> bool {
    &&& forall|i: int| 0 <= i < outcomes.len() && is_not_run(#[trigger] outcomes[i]) ==> outcomes[i] == (StepOutcome::NotRun { reason })
    &&& forall|i: int, j: int| #![trigger outcomes[i], outcomes[j]] 0 <= i < j < outcomes.len() && is_not_run(outcomes[i]) ==> is_not_run(outcomes[j])
}

/// The error refusing a set of outcomes for a plan, if any.
pub open spec fn outcome_error(plan: JobPlanView, outcomes: Seq<StepOutcome>, termination: Termination) -> Option<ResultError> {
    if outcomes.len() != plan.steps.len() {
        Some(ResultError::StepCountMismatch { expected: plan.steps.len() as usize, actual: outcomes.len() as usize })
    } else {
        match termination {
            Termination::Completed => if any_not_run(outcomes) {
                Some(ResultError::IncompleteCompletedJob)
            } else {
                None
            },
            Termination::SessionFailed(_) => if !any_not_run(outcomes) {
                Some(ResultError::TerminalWithoutSkippedSteps)
            } else if !skipped_suffix(outcomes, SkipReason::SessionFailed) {
                Some(ResultError::InvalidSkippedSteps)
            } else {
                None
            },
            Termination::Cancelled => if !any_not_run(outcomes) {
                Some(ResultError::TerminalWithoutSkippedSteps)
            } else if !skipped_suffix(outcomes, SkipReason::Cancelled) {
                Some(ResultError::InvalidSkippedSteps)
            } else {
                None
            },
        }
    }
}

/// The status of an accepted result.
pub open spec fn result_status(outcomes: Seq<StepOutcome>, termination: Termination) -> JobStatus {
    match termination {
        Termination::Completed => if any_recoverable(outcomes) {
            JobStatus::CompletedWithErrors
        } else {
            JobStatus::Completed
        },
        Termination::SessionFailed(_) => JobStatus::Failed,
        Termination::Cancelled => JobStatus::Cancelled,
    }
}

/// The accepted result of a plan.
pub open spec fn result_of(plan: JobPlanView, outcomes: Seq<StepOutcome>, termination: Termination) -> JobResultView {
    JobResultView {
        model_version: plan.model_version,
        id: plan.id,
        kind: plan.kind,
        status: result_status(outcomes, termination),
        steps: Seq::new(plan.steps.len(), |i: int| JobStepResultView { step: plan.steps[i], outcome: outcomes[i] }),
        session_error: match termination {
            Termination::SessionFailed(error) => Some(error),
            _ => None,
        },
    }
}

/// Index of the first skipped outcome, if any.
fn first_not_run(outcomes: &Vec<StepOutcome>) -> (r: Option<usize>)
    ensures
        match r {
            Some(k) => k < outcomes@.len() && is_not_run(outcomes@[k as int])
                && forall|i: int| 0 <= i < k ==> !is_not_run(#[trigger] outcomes@[i]),
            None => !any_not_run(outcomes@),
        },
{
    let mut i: usize = 0;
    while i < outcomes.len()
        invariant
            i <= outcomes@.len(),
            forall|j: int| 0 <= j < i ==> !is_not_run(#[trigger] outcomes@[j]),
        decreases outcomes@.len() - i,
    {
        if let StepOutcome::NotRun { .. } = &outcomes[i] {
            return Some(i);
        }
        i += 1;
    }
    None
}

fn validate_not_run_suffix(outcomes: &Vec<StepOutcome>, reason: SkipReason) -> (r: Result<(), ResultError>)
    ensures
        !any_not_run(outcomes@) ==> r == Err::<(), ResultError>(ResultError::TerminalWithoutSkippedSteps),
        any_not_run(outcomes@) && !skipped_suffix(outcomes@, reason) ==> r == Err::<(), ResultError>(ResultError::InvalidSkippedSteps),
        any_not_run(outcomes@) && skipped_suffix(outcomes@, reason) ==> r is Ok,
{
    let first = match first_not_run(outcomes) {
        Some(first) => first,
        None => return Err(ResultError::TerminalWithoutSkippedSteps),
    };
    let mut i = first;
    while i < outcomes.len()
        invariant
            first <= i <= outcomes@.len(),
            first < outcomes@.len(),
            is_not_run(outcomes@[first as int]),
            forall|j: int| 0 <= j < first ==> !is_not_run(#[trigger] outcomes@[j]),
            forall|j: int| first <= j < i ==> #[trigger] outcomes@[j] == (StepOutcome::NotRun { reason }),
        decreases outcomes@.len() - i,
    {
        let matches_reason = match &outcomes[i] {
            StepOutcome::NotRun { reason: observed } => match (observed, reason) {
                (SkipReason::SessionFailed, SkipReason::SessionFailed) => true,
                (SkipReason::Cancelled, SkipReason::Cancelled) => true,
                _ => false,
            },
            _ => false,
        };
        if !matches_reason {
            proof {
                if skipped_suffix(outcomes@, reason) {
                    assert(is_not_run(outcomes@[first as int]));
                    if i > first {
                        assert(is_not_run(outcomes@[i as int]));
                    }
                    assert(outcomes@[i as int] == (StepOutcome::NotRun { reason }));
                }
            }
            return Err(ResultError::InvalidSkippedSteps);
        }
        i += 1;
    }
    assert(skipped_suffix(outcomes@, reason));
    Ok(())
}

fn any_recoverable_exec(outcomes: &Vec<StepOutcome>) -> (r: bool)
    ensures
        r == any_recoverable(outcomes@),
{
    let mut i: usize = 0;
    while i < outcomes.len()
        invariant
            i <= outcomes@.len(),
            forall|j: int| 0 <= j < i ==> !(#[trigger] outcomes@[j] is RecoverableError),
        decreases outcomes@.len() - i,
    {
        if let StepOutcome::RecoverableError { .. } = &outcomes[i] {
            return true;
        }
        i += 1;
    }
    false
}

impl JobResult {
    /// Pair every planned step with its outcome. The outcomes must match the
    /// plan one to one; a terminal condition must skip exactly one suffix.
    pub fn from_outcomes(plan: &JobPlan, outcomes: Vec<StepOutcome>, termination: Termination) -> (r: Result<Self, ResultError>)
        ensures
            match outcome_error(plan@, outcomes@, termination) {
                Some(error) => r == Err::<Self, ResultError>(error),
                None => r matches Ok(result) && result@ == result_of(plan@, outcomes@, termination),
            },
    {
        if outcomes.len() != plan.steps.len() {
            return Err(ResultError::StepCountMismatch { expected: plan.steps.len(), actual: outcomes.len() });
        }
        match &termination {
            Termination::Completed => {
                if first_not_run(&outcomes).is_some() {
                    return Err(ResultError::IncompleteCompletedJob);
                }
            },
            Termination::SessionFailed(_) => {
                validate_not_run_suffix(&outcomes, SkipReason::SessionFailed)?;
            },
            Termination::Cancelled => {
                validate_not_run_suffix(&outcomes, SkipReason::Cancelled)?;
            },
        }
        let status = match &termination {
            Termination::Completed => if any_recoverable_exec(&outcomes) {
                JobStatus::CompletedWithErrors
            } else {
                JobStatus::Completed
            },
            Termination::SessionFailed(_) => JobStatus::Failed,
            Termination::Cancelled => JobStatus::Cancelled,
        };
        let ghost expected = result_of(plan@, outcomes@, termination);
        let ghost all_outcomes = outcomes@;
        let ghost plan_steps = plan@.steps;
        let n = outcomes.len();
        let mut rest = outcomes;
        let mut reversed: Vec<JobStepResult> = Vec::new();
        while rest.len() > 0
            invariant
                n == plan_steps.len(),
                n == all_outcomes.len(),
                plan_steps == plan@.steps,
                rest@ == all_outcomes.take(rest@.len() as int),
                rest@.len() <= n,
                reversed@.len() == n - rest@.len(),
                forall|k: int| 0 <= k < reversed@.len() ==> (#[trigger] reversed@[k])@ == (JobStepResultView {
                    step: plan_steps[n - 1 - k],
                    outcome: all_outcomes[n - 1 - k],
                }),
            decreases rest@.len(),
        {
            let outcome = rest.pop().unwrap();
            let index = rest.len();
            reversed.push(JobStepResult { step: plan.steps[index].duplicate(), outcome });
            assert(all_outcomes.take(index as int) =~= rest@);
        }
        let mut steps: Vec<JobStepResult> = Vec::new();
        while reversed.len() > 0
            invariant
                n == plan_steps.len(),
                n == all_outcomes.len(),
                reversed@.len() + steps@.len() == n,
                forall|k: int| 0 <= k < reversed@.len() ==> (#[trigger] reversed@[k])@ == (JobStepResultView {
                    step: plan_steps[n - 1 - k],
                    outcome: all_outcomes[n - 1 - k],
                }),
                forall|k: int| 0 <= k < steps@.len() ==> (#[trigger] steps@[k])@ == (JobStepResultView {
                    step: plan_steps[k],
                    outcome: all_outcomes[k],
                }),
            decreases reversed@.len(),
        {
            let step = reversed.pop().unwrap();
            steps.push(step);
        }
        let session_error = match termination {
            Termination::SessionFailed(error) => Some(error),
            _ => None,
        };
        let r = Self {
            model_version: plan.model_version,
            id: plan.id,
            kind: plan.kind,
            status,
            steps,
            session_error,
        };
        assert(r@.steps =~= expected.steps);
        Ok(r)
    }

    pub fn model_version(&self) -> (r: u16)
        ensures
            r == self@.model_version,
    {
        self.model_version
    }

    pub fn id(&self) -> (r: JobId)
        ensures
            r == self@.id,
    {
        self.id
    }

    pub fn kind(&self) -> (r: JobKind)
        ensures
            r == self@.kind,
    {
        self.kind
    }

    pub fn status(&self) -> (r: JobStatus)
        ensures
            r == self@.status,
    {
        self.status
    }

    pub fn steps(&self) -> (r: &[JobStepResult])
        ensures
            models(r@) == self@.steps,
    {
        self.steps.as_slice()
    }

    pub fn session_error(&self) -> (r: Option<&SessionError>)
        ensures
            match self@.session_error {
                Some(error) => r == Some(&error),
                None => r is None,
            },
    {
        match &self.session_error {
            Some(error) => Some(error),
            None => None,
        }
    }
}

#[derive(Clone, Debug, Eq, Hash, Ord, PartialEq, PartialOrd)]
pub enum JobError {
    UnknownJobId(String),
    RequiresKnownEngineEcu,
}

#[derive(Clone, Copy, Debug, Eq, Hash, Ord, PartialEq, PartialOrd)]
pub enum ScopeError {
    EmptyRole,
    EmptyTarget,
    EmptyResponder,
    EmptyResponderSet,
    DuplicateResponder,
}

#[derive(Clone, Copy, Debug, Eq, Hash, Ord, PartialEq, PartialOrd)]
pub enum EvidenceError {
    EmptyReference,
}

#[derive(Clone, Copy, Debug, Eq, Hash, Ord, PartialEq, PartialOrd)]
pub enum ResultError {
    StepCountMismatch { expected: usize, actual: usize },
    IncompleteCompletedJob,
    TerminalWithoutSkippedSteps,
    InvalidSkippedSteps,
}


/// A job identifier's stable text names that identifier again, and the
/// kind of an identifier belongs to it: serialization round-trips.
pub proof fn law_job_id_text_round_trips(id: JobId, kind: JobKind)
    ensures
        job_id_named(job_id_text(id)) == Some(id),
        kind_job_id(job_id_kind(id)) == id,
        job_id_kind(kind_job_id(kind)) == kind,
{
    reveal_strlit("dtc.scan");
    reveal_strlit("ea189.dpf.probe");
    assert("dtc.scan"@.len() != "ea189.dpf.probe"@.len());
}


impl ScopeError {
    /// The message of this error.
    pub fn message(&self) -> (r: &'static str)
        ensures
            match self {
                ScopeError::EmptyRole => r@ == "ECU role must not be empty"@,
                ScopeError::EmptyTarget => r@ == "known target must not be empty"@,
                ScopeError::EmptyResponder => r@ == "known responder must not be empty"@,
                ScopeError::EmptyResponderSet => r@ == "known responder scope must not be empty"@,
                ScopeError::DuplicateResponder => r@ == "known responder scope must not contain duplicates"@,
            },
    {
        match self {
            ScopeError::EmptyRole => "ECU role must not be empty",
            ScopeError::EmptyTarget => "known target must not be empty",
            ScopeError::EmptyResponder => "known responder must not be empty",
            ScopeError::EmptyResponderSet => "known responder scope must not be empty",
            ScopeError::DuplicateResponder => "known responder scope must not contain duplicates",
        }
    }
}

impl EvidenceError {
    /// The message of this error.
    pub fn message(&self) -> (r: &'static str)
        ensures
            match self {
                EvidenceError::EmptyReference => r@ == "evidence reference must not be empty"@,
            },
    {
        match self {
            EvidenceError::EmptyReference => "evidence reference must not be empty",
        }
    }
}

impl JobError {
    /// The message of this error.
    pub fn message(&self) -> (r: String)
        ensures
            match self {
                JobError::UnknownJobId(value) => r@ == "unsupported diagnostic job id: "@ + value@,
                JobError::RequiresKnownEngineEcu => r@ == "EA189 DPF probe requires a known engine ECU scope"@,
            },
    {
        match self {
            JobError::UnknownJobId(value) => concat("unsupported diagnostic job id: ", value.as_str()),
            JobError::RequiresKnownEngineEcu => owned("EA189 DPF probe requires a known engine ECU scope"),
        }
    }
}

impl ResultError {
    /// The message of this error, with step counts written in decimal.
    pub fn message(&self) -> (r: String)
        ensures
            match self {
                ResultError::StepCountMismatch { expected, actual } => r@ == "job result has "@
                    + crate::text::decimal(*actual as nat) + " steps; expected "@ + crate::text::decimal(
                    *expected as nat,
                ),
                ResultError::IncompleteCompletedJob => r@ == "completed job cannot contain skipped steps"@,
                ResultError::TerminalWithoutSkippedSteps => r@ == "terminal job result must identify skipped steps"@,
                ResultError::InvalidSkippedSteps => r@ == "skipped steps must form one matching suffix"@,
            },
    {
        match self {
            ResultError::StepCountMismatch { expected, actual } => {
                let actual_text = crate::text::decimal_text(*actual as u64);
                let expected_text = crate::text::decimal_text(*expected as u64);
                let head = concat("job result has ", actual_text.as_str());
                let middle = concat(head.as_str(), " steps; expected ");
                concat(middle.as_str(), expected_text.as_str())
            },
            ResultError::IncompleteCompletedJob => owned("completed job cannot contain skipped steps"),
            ResultError::TerminalWithoutSkippedSteps => owned("terminal job result must identify skipped steps"),
            ResultError::InvalidSkippedSteps => owned("skipped steps must form one matching suffix"),
        }
    }
}


impl From<JobKind> for JobId {
    fn from(kind: JobKind) -> (r: Self) {
        kind.job_id()
    }
}

impl vstd::std_specs::convert::FromSpecImpl<JobKind> for JobId {
    open spec fn obeys_from_spec() -> bool {
        true
    }

    open spec fn from_spec(v: JobKind) -> JobId {
        kind_job_id(v)
    }
}

impl From<JobId> for JobKind {
    fn from(id: JobId) -> (r: Self) {
        JobKind::from_job_id(id)
    }
}

impl vstd::std_specs::convert::FromSpecImpl<JobId> for JobKind {
    open spec fn obeys_from_spec() -> bool {
        true
    }

    open spec fn from_spec(v: JobId) -> JobKind {
        job_id_kind(v)
    }
}

impl core::str::FromStr for JobId {
    type Err = JobError;

    fn from_str(value: &str) -> Result<Self, JobError> {
        JobId::parse(value)
    }
}


} // verus!
