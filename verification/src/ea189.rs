//! Evidence-gated VW EA189 vehicle knowledge.
//!
//! The profile contains no guessed ECU address and no manufacturer-specific
//! request. It can only bind an existing generic, read-only semantic to
//! target evidence supplied by discovery or a validated cache.

use vstd::prelude::*;

use crate::diagnostic_job::{
    is_known_engine_scope, DiagnosticScope, EcuRole as JobEcuRole, KnownTarget, ScopeView,
};
use crate::signals::{
    describes, names_entry, is_catalog_semantic, prepare_read, ReadRequest, SignalMetadata,
    GENERIC_PROFILE,
};
use crate::elm_text::{hex2, hex2_chars};
use crate::text::{concat, string_from_chars, chars_le, is_blank, is_blank_spec, lemma_chars_le_antisymmetric,
    lemma_chars_le_reflexive, lemma_chars_le_total, lemma_chars_le_transitive, owned, str_eq, str_le};
use crate::topology::{
    AddressingContext, Confidence, EcuRole, EcuTargetMapping, EcuTargetMappingView, Protocol,
    Provenance, ProvenanceView,
};

verus! {

/// Stable identifier for the first VW vehicle profile.
pub const PROFILE_ID: &'static str = "vw-ea189-v1";

/// Human-readable platform identity (not a vehicle identity).
pub const PLATFORM: &'static str = "VW EA189";

/// One candidate UDS ReadDataByIdentifier definition admitted by the closed
/// DPF probe. It carries no interpretation of the returned payload.
#[derive(Clone, Copy, Debug, Eq, Hash, Ord, PartialEq, PartialOrd)]
pub struct Ea189DpfDid {
    semantic: &'static str,
    id: u16,
    request_bytes: [u8; 3],
}

impl Ea189DpfDid {
    pub closed spec fn spec_semantic(self) -> Seq<char> {
        self.semantic@
    }

    pub closed spec fn spec_id(self) -> u16 {
        self.id
    }

    pub closed spec fn spec_request_bytes(self) -> Seq<u8> {
        self.request_bytes@
    }

    pub fn semantic(self) -> (r: &'static str)
        ensures
            r@ == self.spec_semantic(),
    {
        self.semantic
    }

    pub fn id(self) -> (r: u16)
        ensures
            r == self.spec_id(),
    {
        self.id
    }

    pub fn request_bytes(self) -> (r: [u8; 3])
        ensures
            r@ == self.spec_request_bytes(),
    {
        self.request_bytes
    }
}

/// A closed selection from the DPF candidate set.
#[derive(Clone, Copy, Debug, Eq, Hash, Ord, PartialEq, PartialOrd, Structural)]
pub enum Ea189DpfProbe {
    SootMassMeasured,
    SootMassCalculated,
    DistanceSinceRegeneration,
    TimeSinceRegeneration,
    PreDpfTemperature,
    PostDpfTemperature,
    DifferentialPressure,
}

/// The semantic name of each probe.
pub open spec fn probe_semantic(probe: Ea189DpfProbe) -> Seq<char> {
    match probe {
        Ea189DpfProbe::SootMassMeasured => "dpf.soot_mass_measured"@,
        Ea189DpfProbe::SootMassCalculated => "dpf.soot_mass_calculated"@,
        Ea189DpfProbe::DistanceSinceRegeneration => "dpf.distance_since_regeneration"@,
        Ea189DpfProbe::TimeSinceRegeneration => "dpf.time_since_regeneration"@,
        Ea189DpfProbe::PreDpfTemperature => "exhaust.temperature.pre_dpf"@,
        Ea189DpfProbe::PostDpfTemperature => "exhaust.temperature.post_dpf"@,
        Ea189DpfProbe::DifferentialPressure => "dpf.differential_pressure"@,
    }
}

/// The data identifier read by each probe.
pub open spec fn probe_did(probe: Ea189DpfProbe) -> u16 {
    match probe {
        Ea189DpfProbe::SootMassMeasured => 0x114e,
        Ea189DpfProbe::SootMassCalculated => 0x114f,
        Ea189DpfProbe::DistanceSinceRegeneration => 0x1156,
        Ea189DpfProbe::TimeSinceRegeneration => 0x115e,
        Ea189DpfProbe::PreDpfTemperature => 0x11b2,
        Ea189DpfProbe::PostDpfTemperature => 0x10f9,
        Ea189DpfProbe::DifferentialPressure => 0x14f5,
    }
}

/// The request of a probe: service 0x22 followed by the big-endian DID.
pub open spec fn probe_request(probe: Ea189DpfProbe) -> Seq<u8> {
    seq![0x22u8, (probe_did(probe) / 256) as u8, (probe_did(probe) % 256) as u8]
}

/// The fixed order of the probe set.
pub open spec fn probe_at(index: int) -> Ea189DpfProbe {
    if index == 0 {
        Ea189DpfProbe::SootMassCalculated
    } else if index == 1 {
        Ea189DpfProbe::SootMassMeasured
    } else if index == 2 {
        Ea189DpfProbe::DistanceSinceRegeneration
    } else if index == 3 {
        Ea189DpfProbe::TimeSinceRegeneration
    } else if index == 4 {
        Ea189DpfProbe::PreDpfTemperature
    } else if index == 5 {
        Ea189DpfProbe::PostDpfTemperature
    } else {
        Ea189DpfProbe::DifferentialPressure
    }
}

/// Number of probes in the closed set.
pub const EA189_DPF_PROBE_COUNT: usize = 7;

impl Ea189DpfProbe {
    /// All probes, in their fixed order.
    pub fn all() -> (r: [Ea189DpfProbe; 7])
        ensures
            forall|i: int| 0 <= i < 7 ==> #[trigger] r@[i] == probe_at(i),
    {
        [
            Self::SootMassCalculated,
            Self::SootMassMeasured,
            Self::DistanceSinceRegeneration,
            Self::TimeSinceRegeneration,
            Self::PreDpfTemperature,
            Self::PostDpfTemperature,
            Self::DifferentialPressure,
        ]
    }

    pub fn definition(self) -> (r: Ea189DpfDid)
        ensures
            r.spec_semantic() == probe_semantic(self),
            r.spec_id() == probe_did(self),
            r.spec_request_bytes() == probe_request(self),
    {
        let (semantic, id, request_bytes): (&'static str, u16, [u8; 3]) = match self {
            Self::SootMassMeasured => ("dpf.soot_mass_measured", 0x114e, [0x22, 0x11, 0x4e]),
            Self::SootMassCalculated => ("dpf.soot_mass_calculated", 0x114f, [0x22, 0x11, 0x4f]),
            Self::DistanceSinceRegeneration => (
                "dpf.distance_since_regeneration",
                0x1156,
                [0x22, 0x11, 0x56],
            ),
            Self::TimeSinceRegeneration => (
                "dpf.time_since_regeneration",
                0x115e,
                [0x22, 0x11, 0x5e],
            ),
            Self::PreDpfTemperature => ("exhaust.temperature.pre_dpf", 0x11b2, [0x22, 0x11, 0xb2]),
            Self::PostDpfTemperature => (
                "exhaust.temperature.post_dpf",
                0x10f9,
                [0x22, 0x10, 0xf9],
            ),
            Self::DifferentialPressure => ("dpf.differential_pressure", 0x14f5, [0x22, 0x14, 0xf5]),
        };
        let r = Ea189DpfDid { semantic, id, request_bytes };
        assert(r.spec_request_bytes() =~= probe_request(self));
        r
    }

    pub fn semantic(self) -> (r: &'static str)
        ensures
            r@ == probe_semantic(self),
    {
        self.definition().semantic()
    }

    pub fn id(self) -> (r: u16)
        ensures
            r == probe_did(self),
    {
        self.definition().id()
    }

    pub fn request_bytes(self) -> (r: [u8; 3])
        ensures
            r@ == probe_request(self),
    {
        self.definition().request_bytes()
    }
}

/// The definitions of the closed candidate set, in the fixed probe order.
pub fn ea189_dpf_dids() -> (r: [Ea189DpfDid; 7])
    ensures
        forall|i: int|
            0 <= i < 7 ==> #[trigger] r@[i].spec_id() == probe_did(probe_at(i))
                && r@[i].spec_semantic() == probe_semantic(probe_at(i))
                && r@[i].spec_request_bytes() == probe_request(probe_at(i)),
{
    let all = Ea189DpfProbe::all();
    [
        all[0].definition(),
        all[1].definition(),
        all[2].definition(),
        all[3].definition(),
        all[4].definition(),
        all[5].definition(),
        all[6].definition(),
    ]
}


/// The big-endian unsigned value of two bytes.
pub open spec fn be_u16(high: u8, low: u8) -> int {
    high as int * 256 + low as int
}

/// The big-endian two's-complement value of two bytes.
pub open spec fn be_i16(high: u8, low: u8) -> int {
    if be_u16(high, low) >= 0x8000 {
        be_u16(high, low) - 0x10000
    } else {
        be_u16(high, low)
    }
}

/// A value decoded from a DPF probe response with a still-experimental EA189
/// hypothesis. The value is `scaled_value / scale` in `unit`; a successful
/// decode does not promote a candidate into production knowledge.
#[derive(Clone, Copy, Debug, Eq, PartialEq)]
pub struct Ea189ExperimentalDpfReading {
    probe: Ea189DpfProbe,
    scaled_value: i32,
    scale: i32,
    unit: &'static str,
    decoder: &'static str,
}

/// The decoded reading, as a model: probe, scaled value, scale, unit and the
/// name of the decoding hypothesis.
pub struct DpfReadingView {
    pub probe: Ea189DpfProbe,
    pub scaled_value: int,
    pub scale: int,
    pub unit: Seq<char>,
    pub decoder: Seq<char>,
}

impl View for Ea189ExperimentalDpfReading {
    type V = DpfReadingView;

    closed spec fn view(&self) -> DpfReadingView {
        DpfReadingView {
            probe: self.probe,
            scaled_value: self.scaled_value as int,
            scale: self.scale as int,
            unit: self.unit@,
            decoder: self.decoder@,
        }
    }
}

impl Ea189ExperimentalDpfReading {
    pub fn probe(self) -> (r: Ea189DpfProbe)
        ensures
            r == self@.probe,
    {
        self.probe
    }

    pub fn semantic(self) -> (r: &'static str)
        ensures
            r@ == probe_semantic(self@.probe),
    {
        self.probe.semantic()
    }

    pub fn did(self) -> (r: u16)
        ensures
            r == probe_did(self@.probe),
    {
        self.probe.id()
    }

    /// The numerator of the value.
    pub fn scaled_value(self) -> (r: i32)
        ensures
            r == self@.scaled_value,
    {
        self.scaled_value
    }

    /// The divisor of the value.
    pub fn scale(self) -> (r: i32)
        ensures
            r == self@.scale,
    {
        self.scale
    }

    pub fn unit(self) -> (r: &'static str)
        ensures
            r@ == self@.unit,
    {
        self.unit
    }

    pub fn decoder(self) -> (r: &'static str)
        ensures
            r@ == self@.decoder,
    {
        self.decoder
    }

    /// Every reading returned by this module is experimental by construction.
    pub fn is_experimental(self) -> (r: bool)
        ensures
            r,
    {
        true
    }
}

/// Errors from the closed experimental decoder set.
#[derive(Clone, Copy, Debug, Eq, PartialEq, Structural)]
pub enum Ea189DpfDecodeError {
    UnsupportedProbe(Ea189DpfProbe),
    MalformedPositiveResponse,
    WrongDid { expected: u16, actual: u16 },
}

/// The experimental decoding of one response: exactly `62 <DID> <A> <B>`,
/// where the DID must be the probe's.
pub open spec fn dpf_decode(probe: Ea189DpfProbe, response: Seq<u8>) -> Result<
    DpfReadingView,
    Ea189DpfDecodeError,
> {
    if response.len() != 5 || response[0] != 0x62 {
        Err(Ea189DpfDecodeError::MalformedPositiveResponse)
    } else if be_u16(response[1], response[2]) != probe_did(probe) as int {
        Err(
            Ea189DpfDecodeError::WrongDid {
                expected: probe_did(probe),
                actual: be_u16(response[1], response[2]) as u16,
            },
        )
    } else {
        match probe {
            Ea189DpfProbe::SootMassCalculated => Ok(
                DpfReadingView {
                    probe,
                    scaled_value: be_u16(response[3], response[4]),
                    scale: 100,
                    unit: "g"@,
                    decoder: "BE u16 / 100 (experimental)"@,
                },
            ),
            Ea189DpfProbe::SootMassMeasured => Ok(
                DpfReadingView {
                    probe,
                    scaled_value: be_i16(response[3], response[4]),
                    scale: 100,
                    unit: "g"@,
                    decoder: "BE i16 / 100 (experimental)"@,
                },
            ),
            Ea189DpfProbe::PreDpfTemperature | Ea189DpfProbe::PostDpfTemperature => Ok(
                DpfReadingView {
                    probe,
                    scaled_value: be_u16(response[3], response[4]) - 2731,
                    scale: 10,
                    unit: "°C"@,
                    decoder: "(BE u16 - 2731) / 10 (Kelvin hypothesis; experimental)"@,
                },
            ),
            _ => Err(Ea189DpfDecodeError::UnsupportedProbe(probe)),
        }
    }
}

/// Decode one exact, positive response with an experimental hypothesis.
///
/// The accepted shape is exactly `62 <DID_hi> <DID_lo> <A> <B>`. The three
/// remaining candidates have no decoder yet and are rejected.
pub fn decode_experimental_dpf(probe: Ea189DpfProbe, response: &[u8]) -> (r: Result<
    Ea189ExperimentalDpfReading,
    Ea189DpfDecodeError,
>)
    ensures
        match dpf_decode(probe, response@) {
            Ok(reading) => (r matches Ok(value) && value@ == reading),
            Err(error) => r == Err::<Ea189ExperimentalDpfReading, Ea189DpfDecodeError>(error),
        },
{
    let expected_did = probe.id();
    if response.len() != 5 {
        return Err(Ea189DpfDecodeError::MalformedPositiveResponse);
    }
    if response[0] != 0x62 {
        return Err(Ea189DpfDecodeError::MalformedPositiveResponse);
    }
    let actual_did: u16 = response[1] as u16 * 256 + response[2] as u16;
    if actual_did != expected_did {
        return Err(Ea189DpfDecodeError::WrongDid { expected: expected_did, actual: actual_did });
    }
    let data: u16 = response[3] as u16 * 256 + response[4] as u16;
    let (scaled_value, scale, unit, decoder): (i32, i32, &'static str, &'static str) = match probe {
        Ea189DpfProbe::SootMassCalculated => (data as i32, 100, "g", "BE u16 / 100 (experimental)"),
        Ea189DpfProbe::SootMassMeasured => {
            let signed: i32 = if data >= 0x8000 {
                data as i32 - 0x10000
            } else {
                data as i32
            };
            (signed, 100, "g", "BE i16 / 100 (experimental)")
        },
        Ea189DpfProbe::PreDpfTemperature | Ea189DpfProbe::PostDpfTemperature => (
            data as i32 - 2731,
            10,
            "°C",
            "(BE u16 - 2731) / 10 (Kelvin hypothesis; experimental)",
        ),
        Ea189DpfProbe::DistanceSinceRegeneration
        | Ea189DpfProbe::TimeSinceRegeneration
        | Ea189DpfProbe::DifferentialPressure => {
            return Err(Ea189DpfDecodeError::UnsupportedProbe(probe));
        },
    };
    Ok(Ea189ExperimentalDpfReading { probe, scaled_value, scale, unit, decoder })
}

/// Target-bound DPF probe input. Construction only accepts an engine
/// `KnownEcu` scope, so a candidate cannot be detached into a vehicle-wide or
/// functional operation.
#[derive(Debug, Eq, Hash, Ord, PartialEq, PartialOrd)]
pub struct Ea189DpfProbeRequest {
    probe: Ea189DpfProbe,
    scope: DiagnosticScope,
}

/// The model of a probe request.
pub struct DpfProbeRequestView {
    pub probe: Ea189DpfProbe,
    pub scope: ScopeView,
}

impl View for Ea189DpfProbeRequest {
    type V = DpfProbeRequestView;

    closed spec fn view(&self) -> DpfProbeRequestView {
        DpfProbeRequestView { probe: self.probe, scope: self.scope@ }
    }
}

#[derive(Clone, Copy, Debug, Eq, Hash, Ord, PartialEq, PartialOrd, Structural)]
pub enum Ea189DpfProbeError {
    RequiresEngineKnownEcu,
}

impl Ea189DpfProbeRequest {
    /// A probe request always targets one known engine ECU.
    #[verifier::type_invariant]
    closed spec fn engine_bound(self) -> bool {
        is_known_engine_scope(self.scope@)
    }

    pub fn for_engine(probe: Ea189DpfProbe, target: KnownTarget) -> (r: Self)
        ensures
            r@ == (DpfProbeRequestView {
                probe,
                scope: ScopeView::KnownEcu { role: JobEcuRole::Engine, target },
            }),
    {
        Self { probe, scope: DiagnosticScope::known_ecu(JobEcuRole::Engine, target) }
    }

    pub fn from_scope(probe: Ea189DpfProbe, scope: DiagnosticScope) -> (r: Result<
        Self,
        Ea189DpfProbeError,
    >)
        ensures
            is_known_engine_scope(scope@) ==> (r matches Ok(request) && request@ == (
            DpfProbeRequestView { probe, scope: scope@ })),
            !is_known_engine_scope(scope@) ==> r == Err::<Self, Ea189DpfProbeError>(
                Ea189DpfProbeError::RequiresEngineKnownEcu,
            ),
    {
        let engine = match &scope {
            DiagnosticScope::KnownEcu { role: JobEcuRole::Engine, .. } => true,
            _ => false,
        };
        if engine {
            Ok(Self { probe, scope })
        } else {
            Err(Ea189DpfProbeError::RequiresEngineKnownEcu)
        }
    }

    pub fn probe(&self) -> (r: Ea189DpfProbe)
        ensures
            r == self@.probe,
    {
        self.probe
    }

    pub fn scope(&self) -> (r: &DiagnosticScope)
        ensures
            r@ == self@.scope,
    {
        &self.scope
    }

    /// The engine target of the request.
    pub fn target(&self) -> (r: &KnownTarget)
        ensures
            self@.scope matches ScopeView::KnownEcu { target, .. } && *r == target,
    {
        proof {
            use_type_invariant(self);
        }
        match &self.scope {
            DiagnosticScope::KnownEcu { target, .. } => target,
            DiagnosticScope::KnownObdResponders(_) => {
                proof {
                    assert(false);
                }
                unreached()
            },
            DiagnosticScope::VehicleWide => {
                proof {
                    assert(false);
                }
                unreached()
            },
        }
    }
}

/// Identity of the platform knowledge, independent of any one vehicle.
#[derive(Clone, Copy, Debug, Eq, PartialEq)]
pub struct Ea189ProfileIdentity {
    id: &'static str,
    platform: &'static str,
    engine_family: &'static str,
}

impl Ea189ProfileIdentity {
    pub closed spec fn spec_id(self) -> Seq<char> {
        self.id@
    }

    pub closed spec fn spec_platform(self) -> Seq<char> {
        self.platform@
    }

    pub closed spec fn spec_engine_family(self) -> Seq<char> {
        self.engine_family@
    }

    pub fn id(self) -> (r: &'static str)
        ensures
            r@ == self.spec_id(),
    {
        self.id
    }

    pub fn platform(self) -> (r: &'static str)
        ensures
            r@ == self.spec_platform(),
    {
        self.platform
    }

    pub fn engine_family(self) -> (r: &'static str)
        ensures
            r@ == self.spec_engine_family(),
    {
        self.engine_family
    }
}

/// The EA189 identity contains only platform-level knowledge.
pub fn identity() -> (r: Ea189ProfileIdentity)
    ensures
        r.spec_id() == PROFILE_ID@,
        r.spec_platform() == PLATFORM@,
        r.spec_engine_family() == "EA189"@,
{
    Ea189ProfileIdentity { id: PROFILE_ID, platform: PLATFORM, engine_family: "EA189" }
}

/// Errors of the profile.
#[derive(Clone, Debug, Eq, PartialEq)]
pub enum Ea189ProfileError {
    UnsupportedSemantic(String),
    NotGenericSignal(String),
    InvalidTargetEvidence(String),
    MissingHardwareValidation,
    DuplicateSemantic(String),
}

/// The model of a profile error.
pub enum ProfileErrorView {
    UnsupportedSemantic(Seq<char>),
    NotGenericSignal(Seq<char>),
    InvalidTargetEvidence(Seq<char>),
    MissingHardwareValidation,
    DuplicateSemantic(Seq<char>),
}

impl View for Ea189ProfileError {
    type V = ProfileErrorView;

    open spec fn view(&self) -> ProfileErrorView {
        match self {
            Ea189ProfileError::UnsupportedSemantic(s) => ProfileErrorView::UnsupportedSemantic(s@),
            Ea189ProfileError::NotGenericSignal(s) => ProfileErrorView::NotGenericSignal(s@),
            Ea189ProfileError::InvalidTargetEvidence(s) => ProfileErrorView::InvalidTargetEvidence(
                s@,
            ),
            Ea189ProfileError::MissingHardwareValidation => ProfileErrorView::MissingHardwareValidation,
            Ea189ProfileError::DuplicateSemantic(s) => ProfileErrorView::DuplicateSemantic(s@),
        }
    }
}

/// Evidence attached to a profile binding. Target provenance remains on the
/// supplied mapping; this provenance describes why the generic semantic is
/// admitted to this profile.
#[derive(Clone, Debug, Eq, PartialEq)]
pub struct ProfileEvidence {
    provenance: Provenance,
    hardware_validation: String,
}

/// The model of profile evidence.
pub struct ProfileEvidenceView {
    pub provenance: ProvenanceView,
    pub hardware_validation: Seq<char>,
}

impl View for ProfileEvidence {
    type V = ProfileEvidenceView;

    closed spec fn view(&self) -> ProfileEvidenceView {
        ProfileEvidenceView {
            provenance: self.provenance@,
            hardware_validation: self.hardware_validation@,
        }
    }
}

impl ProfileEvidence {
    /// Evidence must name the hardware validation it rests on.
    pub fn new(provenance: Provenance, hardware_validation: &str) -> (r: Result<
        Self,
        Ea189ProfileError,
    >)
        ensures
            is_blank_spec(hardware_validation@) ==> r == Err::<Self, Ea189ProfileError>(
                Ea189ProfileError::MissingHardwareValidation,
            ),
            !is_blank_spec(hardware_validation@) ==> (r matches Ok(evidence) && evidence@ == (
            ProfileEvidenceView {
                provenance: provenance@,
                hardware_validation: hardware_validation@,
            })),
    {
        if is_blank(hardware_validation) {
            return Err(Ea189ProfileError::MissingHardwareValidation);
        }
        Ok(Self { provenance, hardware_validation: owned(hardware_validation) })
    }

    pub fn provenance(&self) -> (r: &Provenance)
        ensures
            r@ == self@.provenance,
    {
        &self.provenance
    }

    pub fn confidence(&self) -> (r: Confidence)
        ensures
            r == self@.provenance.confidence,
    {
        self.provenance.confidence()
    }

    pub fn hardware_validation(&self) -> (r: &str)
        ensures
            r@ == self@.hardware_validation,
    {
        self.hardware_validation.as_str()
    }
}

/// One valid semantic binding exposed by an [`Ea189Profile`].
#[derive(Clone, Debug, Eq, PartialEq)]
pub struct Ea189SignalBinding {
    request: ReadRequest,
    mapping: EcuTargetMapping,
    evidence: ProfileEvidence,
}

/// The model of a binding.
pub struct SignalBindingView {
    pub request: ReadRequest,
    pub mapping: EcuTargetMappingView,
    pub evidence: ProfileEvidenceView,
}

impl View for Ea189SignalBinding {
    type V = SignalBindingView;

    closed spec fn view(&self) -> SignalBindingView {
        SignalBindingView {
            request: self.request,
            mapping: self.mapping@,
            evidence: self.evidence@,
        }
    }
}

/// The semantic a binding is for.
pub open spec fn binding_semantic(binding: SignalBindingView) -> Seq<char> {
    binding.request.spec_metadata().semantic@
}

impl Ea189SignalBinding {
    pub fn semantic(&self) -> (r: &'static str)
        ensures
            r@ == binding_semantic(self@),
    {
        self.request.semantic()
    }

    pub fn request(&self) -> (r: ReadRequest)
        ensures
            r == self@.request,
    {
        self.request
    }

    pub fn metadata(&self) -> (r: SignalMetadata)
        ensures
            r == self@.request.spec_metadata(),
    {
        self.request.metadata()
    }

    pub fn target_mapping(&self) -> (r: &EcuTargetMapping)
        ensures
            r@ == self@.mapping,
    {
        &self.mapping
    }

    pub fn evidence(&self) -> (r: &ProfileEvidence)
        ensures
            r@ == self@.evidence,
    {
        &self.evidence
    }
}

/// Why a mapping cannot back an EA189 binding, or `None` when it can.
pub open spec fn mapping_rejection(mapping: EcuTargetMappingView) -> Option<Seq<char>> {
    let target = mapping.target.target;
    if target.context.spec_protocol() != Protocol::Obd2 || target.context.spec_addressing()
        != AddressingContext::Physical {
        Some("EA189 bindings require physical OBD-II target evidence"@)
    } else if target.address is None {
        Some("EA189 bindings require a concrete request target"@)
    } else if mapping.expected_responder.context != target.context {
        Some("target and responder contexts differ"@)
    } else if mapping.expected_responder.value is None {
        Some("EA189 bindings require an expected responder"@)
    } else if mapping.role.role != EcuRole::Engine {
        Some("initial EA189 bindings are limited to the engine role"@)
    } else {
        None
    }
}

fn validate_mapping(mapping: &EcuTargetMapping) -> (r: Result<(), Ea189ProfileError>)
    ensures
        match mapping_rejection(mapping@) {
            None => r is Ok,
            Some(reason) => (r matches Err(Ea189ProfileError::InvalidTargetEvidence(text))
                && text@ == reason),
        },
{
    let target = mapping.target().target();
    let context = target.context();
    if *context.protocol() != Protocol::Obd2 || *context.addressing() != AddressingContext::Physical {
        return Err(
            Ea189ProfileError::InvalidTargetEvidence(
                owned("EA189 bindings require physical OBD-II target evidence"),
            ),
        );
    }
    if target.address().is_none() {
        return Err(
            Ea189ProfileError::InvalidTargetEvidence(
                owned("EA189 bindings require a concrete request target"),
            ),
        );
    }
    if *mapping.expected_responder().context() != *context {
        return Err(
            Ea189ProfileError::InvalidTargetEvidence(owned("target and responder contexts differ")),
        );
    }
    if mapping.expected_responder().value().is_none() {
        return Err(
            Ea189ProfileError::InvalidTargetEvidence(
                owned("EA189 bindings require an expected responder"),
            ),
        );
    }
    if *mapping.role().role() != EcuRole::Engine {
        return Err(
            Ea189ProfileError::InvalidTargetEvidence(
                owned("initial EA189 bindings are limited to the engine role"),
            ),
        );
    }
    Ok(())
}

/// `a` sorts strictly before `b`.
pub open spec fn chars_lt(a: Seq<char>, b: Seq<char>) -> bool {
    chars_le(a, b) && a != b
}

/// Bindings in strictly ascending semantic order, so no semantic is bound
/// twice.
pub open spec fn bindings_ordered(bindings: Seq<SignalBindingView>) -> bool {
    forall|i: int, j: int|
        0 <= i < j < bindings.len() ==> chars_lt(
            binding_semantic(#[trigger] bindings[i]),
            binding_semantic(#[trigger] bindings[j]),
        )
}

/// Small, empty-by-default EA189 profile.
#[derive(Clone, Debug, Eq, PartialEq)]
pub struct Ea189Profile {
    bindings: Vec<Ea189SignalBinding>,
}

impl View for Ea189Profile {
    type V = Seq<SignalBindingView>;

    closed spec fn view(&self) -> Seq<SignalBindingView> {
        self.bindings@.map_values(|b: Ea189SignalBinding| b@)
    }
}

/// Whether the semantic is bound in a profile, and by which binding.
pub open spec fn bound_at(bindings: Seq<SignalBindingView>, semantic: Seq<char>, index: int) -> bool {
    0 <= index < bindings.len() && binding_semantic(bindings[index]) == semantic
}

/// The outcome of binding a semantic, as a model: the error, or `None` for
/// success.
pub open spec fn bind_outcome(
    bindings: Seq<SignalBindingView>,
    semantic: Seq<char>,
    mapping: EcuTargetMappingView,
) -> Option<ProfileErrorView> {
    if !is_catalog_semantic(semantic) {
        Some(ProfileErrorView::UnsupportedSemantic(semantic))
    } else if mapping_rejection(mapping) is Some {
        Some(ProfileErrorView::InvalidTargetEvidence(mapping_rejection(mapping).unwrap()))
    } else if exists|i: int| #[trigger] bound_at(bindings, semantic, i) {
        Some(ProfileErrorView::DuplicateSemantic(semantic))
    } else {
        None
    }
}

impl Ea189Profile {
    /// The profile keeps its bindings ordered by semantic.
    pub closed spec fn wf(&self) -> bool {
        bindings_ordered(self@)
    }

    pub fn new() -> (r: Self)
        ensures
            r.wf(),
            r@.len() == 0,
    {
        let r = Self { bindings: Vec::new() };
        assert(r@ =~= Seq::<SignalBindingView>::empty());
        r
    }

    pub fn identity(&self) -> (r: Ea189ProfileIdentity)
        ensures
            r.spec_id() == PROFILE_ID@,
            r.spec_platform() == PLATFORM@,
            r.spec_engine_family() == "EA189"@,
    {
        identity()
    }

    /// Bind an existing generic semantic to independently supplied,
    /// validated physical target evidence. On success the binding is inserted
    /// in semantic order; on failure the profile is unchanged.
    pub fn bind_generic_signal(
        &mut self,
        semantic: &str,
        mapping: EcuTargetMapping,
        evidence: ProfileEvidence,
    ) -> (r: Result<(), Ea189ProfileError>)
        requires
            old(self).wf(),
        ensures
            final(self).wf(),
            match bind_outcome(old(self)@, semantic@, mapping@) {
                Some(error) => (r matches Err(e) && e@ == error) && final(self)@ == old(self)@,
                None => r is Ok && exists|p: int, request: ReadRequest|
                    0 <= p <= old(self)@.len() && #[trigger] final(self)@ == old(self)@.insert(
                        p,
                        SignalBindingView { request, mapping: mapping@, evidence: evidence@ },
                    ) && exists|index: int|
                        #[trigger] names_entry(semantic@, index) && describes(
                            request.spec_metadata(),
                            index,
                        ),
            },
    {
        let request = match prepare_read(semantic) {
            Ok(request) => request,
            Err(_) => {
                return Err(Ea189ProfileError::UnsupportedSemantic(owned(semantic)));
            },
        };
        proof {
            let index = choose|index: int|
                #[trigger] names_entry(semantic@, index) && describes(request.spec_metadata(), index);
            assert(describes(request.spec_metadata(), index));
        }
        if !str_eq(request.metadata().profile, GENERIC_PROFILE) {
            return Err(Ea189ProfileError::NotGenericSignal(owned(semantic)));
        }
        match validate_mapping(&mapping) {
            Ok(()) => {},
            Err(error) => {
                return Err(error);
            },
        }
        let ghost bindings = self@;
        let n = self.bindings.len();
        let mut position: usize = 0;
        while position < n
            invariant
                n == self.bindings@.len(),
                bindings == self@,
                bindings.len() == n,
                position <= n,
                bindings == old(self)@,
                is_catalog_semantic(semantic@),
                mapping_rejection(mapping@) is None,
                bindings_ordered(bindings),
                forall|i: int| 0 <= i < position ==> chars_lt(#[trigger] binding_semantic(bindings[i]), semantic@),
            ensures
                position <= n,
                bindings == self@,
                forall|i: int| 0 <= i < position ==> chars_lt(#[trigger] binding_semantic(bindings[i]), semantic@),
                position < n ==> !chars_le(binding_semantic(bindings[position as int]), semantic@),
            decreases n - position,
        {
            let existing = self.bindings[position].semantic();
            assert(self.bindings@[position as int]@ == bindings[position as int]);
            if str_eq(existing, semantic) {
                assert(bound_at(bindings, semantic@, position as int));
                return Err(Ea189ProfileError::DuplicateSemantic(owned(semantic)));
            }
            if !str_le(existing, semantic) {
                break;
            }
            position += 1;
        }
        proof {
            assert forall|i: int| position <= i < n implies chars_lt(
                semantic@,
                #[trigger] binding_semantic(bindings[i]),
            ) by {
                lemma_chars_le_total(binding_semantic(bindings[position as int]), semantic@);
                lemma_chars_le_reflexive(semantic@);
                if i > position {
                    lemma_chars_le_transitive(
                        semantic@,
                        binding_semantic(bindings[position as int]),
                        binding_semantic(bindings[i]),
                    );
                    if semantic@ == binding_semantic(bindings[i]) {
                        lemma_chars_le_antisymmetric(
                            binding_semantic(bindings[position as int]),
                            binding_semantic(bindings[i]),
                        );
                    }
                }
            }
            assert forall|i: int| 0 <= i < n implies binding_semantic(bindings[i]) != semantic@ by {
                if i < position {
                } else {
                }
            }
        }
        let binding = Ea189SignalBinding { request, mapping, evidence };
        self.bindings.insert(position, binding);
        proof {
            let view = SignalBindingView {
                request,
                mapping: binding@.mapping,
                evidence: binding@.evidence,
            };
            assert(self@ =~= bindings.insert(position as int, view));
            assert forall|i: int, j: int| 0 <= i < j < self@.len() implies chars_lt(
                binding_semantic(#[trigger] self@[i]),
                binding_semantic(#[trigger] self@[j]),
            ) by {
                if j < position {
                } else if j == position {
                } else if i < position {
                    lemma_chars_le_transitive(
                        binding_semantic(self@[i]),
                        semantic@,
                        binding_semantic(self@[j]),
                    );
                    if binding_semantic(self@[i]) == binding_semantic(self@[j]) {
                        lemma_chars_le_antisymmetric(binding_semantic(self@[i]), semantic@);
                    }
                } else if i == position {
                } else {
                }
            }
            assert(!exists|i: int| #[trigger] bound_at(bindings, semantic@, i));
        }
        Ok(())
    }

    /// The binding of a semantic, if there is one.
    pub fn binding(&self, semantic: &str) -> (r: Option<&Ea189SignalBinding>)
        ensures
            (exists|i: int| #[trigger] bound_at(self@, semantic@, i)) ==> (r matches Some(b)
                && exists|i: int| #[trigger] bound_at(self@, semantic@, i) && b@ == self@[i]),
            !(exists|i: int| #[trigger] bound_at(self@, semantic@, i)) ==> r is None,
    {
        let mut i: usize = 0;
        while i < self.bindings.len()
            invariant
                i <= self@.len(),
                self@.len() == self.bindings@.len(),
                forall|j: int| 0 <= j < i ==> !#[trigger] bound_at(self@, semantic@, j),
            decreases self@.len() - i,
        {
            assert(self.bindings@[i as int]@ == self@[i as int]);
            if str_eq(self.bindings[i].semantic(), semantic) {
                assert(bound_at(self@, semantic@, i as int));
                return Some(&self.bindings[i]);
            }
            i += 1;
        }
        None
    }

    /// Only externally evidenced bindings are visible as EA189 signals, in
    /// semantic order.
    pub fn signals(&self) -> (r: &[Ea189SignalBinding])
        ensures
            r@.map_values(|b: Ea189SignalBinding| b@) == self@,
    {
        self.bindings.as_slice()
    }
}


impl Ea189DpfProbeError {
    /// The message of this error.
    pub fn message(&self) -> (r: &'static str)
        ensures
            r@ == "EA189 DPF probe requires a known engine ECU target"@,
    {
        "EA189 DPF probe requires a known engine ECU target"
    }
}

impl Ea189ProfileError {
    /// The message of this error.
    pub fn message(&self) -> (r: String)
        ensures
            match self {
                Ea189ProfileError::UnsupportedSemantic(s) => r@ == "EA189 profile rejected unsupported semantic: "@ + s@,
                Ea189ProfileError::NotGenericSignal(s) => r@ == "EA189 profile requires a generic signal: "@ + s@,
                Ea189ProfileError::InvalidTargetEvidence(s) => r@ == "EA189 profile rejected target evidence: "@ + s@,
                Ea189ProfileError::MissingHardwareValidation => r@ == "EA189 profile evidence requires hardware validation"@,
                Ea189ProfileError::DuplicateSemantic(s) => r@ == "EA189 profile already binds semantic: "@ + s@,
            },
    {
        match self {
            Ea189ProfileError::UnsupportedSemantic(s) => concat("EA189 profile rejected unsupported semantic: ", s.as_str()),
            Ea189ProfileError::NotGenericSignal(s) => concat("EA189 profile requires a generic signal: ", s.as_str()),
            Ea189ProfileError::InvalidTargetEvidence(s) => concat("EA189 profile rejected target evidence: ", s.as_str()),
            Ea189ProfileError::MissingHardwareValidation => owned("EA189 profile evidence requires hardware validation"),
            Ea189ProfileError::DuplicateSemantic(s) => concat("EA189 profile already binds semantic: ", s.as_str()),
        }
    }
}

impl Ea189DpfDecodeError {
    /// The message of this error; DIDs are written as four upper-case hex
    /// digits.
    pub fn message(&self) -> (r: String)
        ensures
            match self {
                Ea189DpfDecodeError::UnsupportedProbe(probe) => r@ == "no experimental decoder for DID "@ + hex2(
                    (probe_did(*probe) / 256) as u8,
                ) + hex2((probe_did(*probe) % 256) as u8),
                Ea189DpfDecodeError::MalformedPositiveResponse => r@ == "malformed UDS positive DPF response"@,
                Ea189DpfDecodeError::WrongDid { expected, actual } => r@ == "UDS response DID "@ + hex2(
                    (*actual / 256) as u8,
                ) + hex2((*actual % 256) as u8) + " does not match requested DID "@ + hex2((*expected / 256) as u8)
                    + hex2((*expected % 256) as u8),
            },
    {
        match self {
            Ea189DpfDecodeError::UnsupportedProbe(probe) => {
                let head = hex4_text("no experimental decoder for DID ", probe.id());
                head
            },
            Ea189DpfDecodeError::MalformedPositiveResponse => owned("malformed UDS positive DPF response"),
            Ea189DpfDecodeError::WrongDid { expected, actual } => {
                let head = hex4_text("UDS response DID ", *actual);
                let tail = hex4_text(" does not match requested DID ", *expected);
                concat(head.as_str(), tail.as_str())
            },
        }
    }
}

/// `prefix` followed by the four upper-case hex digits of `value`.
fn hex4_text(prefix: &str, value: u16) -> (r: String)
    ensures
        r@ == prefix@ + hex2((value / 256) as u8) + hex2((value % 256) as u8),
{
    let mut chars = crate::text::chars_of(prefix);
    let high = hex2_chars((value / 256) as u8);
    let low = hex2_chars((value % 256) as u8);
    chars.push(high[0]);
    chars.push(high[1]);
    chars.push(low[0]);
    chars.push(low[1]);
    assert(chars@ =~= prefix@ + hex2((value / 256) as u8) + hex2((value % 256) as u8));
    string_from_chars(chars.as_slice())
}

} // verus!
