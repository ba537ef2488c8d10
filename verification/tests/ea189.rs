use obdentic::diagnostic_job::{DiagnosticScope, EcuRole as JobEcuRole, KnownTarget};
use obdentic::ea189::{
    decode_experimental_dpf, ea189_dpf_dids, Ea189DpfDecodeError, Ea189DpfProbe,
    Ea189DpfProbeRequest, Ea189ExperimentalDpfReading, Ea189Profile, Ea189ProfileError,
    ProfileEvidence, PROFILE_ID,
};
use obdentic::signals::prepare_read;
use obdentic::topology::{
    AddressingContext, Confidence, EcuRole, EcuTargetMapping, Protocol, ProtocolContext,
    Provenance, RequestAddress, RequestTarget, RequestTargetEvidence, ResponderIdentity,
    RoleAssignment,
};

fn provenance(source: &str) -> Provenance {
    Provenance::new(source, Confidence::High).unwrap()
}

fn mapping() -> EcuTargetMapping {
    let context = ProtocolContext::new(Protocol::Obd2, AddressingContext::Physical);
    EcuTargetMapping::new(
        RoleAssignment::new(EcuRole::Engine, provenance("validated topology")),
        RequestTargetEvidence::new(
            RequestTarget::concrete(context.clone(), RequestAddress::new("elm-header", "7E0")),
            provenance("validated topology"),
        ),
        ResponderIdentity::address(context, "7E8"),
    )
}

fn evidence() -> ProfileEvidence {
    ProfileEvidence::new(provenance("sanitized hardware fixture"), "fixture-01").unwrap()
}

fn value(reading: &Ea189ExperimentalDpfReading) -> f64 {
    reading.scaled_value() as f64 / reading.scale() as f64
}

#[test]
fn experimental_decoder_uses_unsigned_calculated_soot() {
    let reading = decode_experimental_dpf(
        Ea189DpfProbe::SootMassCalculated,
        &[0x62, 0x11, 0x4f, 0x04, 0xf8],
    )
    .unwrap();

    assert_eq!(reading.semantic(), "dpf.soot_mass_calculated");
    assert_eq!(reading.did(), 0x114f);
    assert_eq!(value(&reading), 12.72);
    assert_eq!(reading.unit(), "g");
    assert!(reading.is_experimental());
}

#[test]
fn experimental_decoder_preserves_negative_measured_soot() {
    let reading = decode_experimental_dpf(
        Ea189DpfProbe::SootMassMeasured,
        &[0x62, 0x11, 0x4e, 0xfe, 0xfc],
    )
    .unwrap();

    assert_eq!(value(&reading), -2.6);
    assert_eq!(reading.unit(), "g");
    assert!(reading.decoder().contains("i16"));
}

#[test]
fn experimental_decoder_applies_temperature_hypothesis_to_both_candidates() {
    for probe in [
        Ea189DpfProbe::PreDpfTemperature,
        Ea189DpfProbe::PostDpfTemperature,
    ] {
        let reading = decode_experimental_dpf(
            probe,
            &[0x62, (probe.id() >> 8) as u8, probe.id() as u8, 0x0b, 0xb9],
        )
        .unwrap();
        assert_eq!(value(&reading), 27.0);
        assert_eq!(reading.unit(), "°C");
        assert!(reading.is_experimental());
    }
}

#[test]
fn experimental_decoder_rejects_undecoded_gate_a_candidates() {
    for probe in [
        Ea189DpfProbe::DistanceSinceRegeneration,
        Ea189DpfProbe::TimeSinceRegeneration,
        Ea189DpfProbe::DifferentialPressure,
    ] {
        assert_eq!(
            decode_experimental_dpf(
                probe,
                &[0x62, (probe.id() >> 8) as u8, probe.id() as u8, 0x00, 0x01],
            ),
            Err(Ea189DpfDecodeError::UnsupportedProbe(probe))
        );
    }
}

#[test]
fn experimental_decoder_requires_exact_positive_two_byte_payload() {
    let probe = Ea189DpfProbe::SootMassCalculated;
    for response in [
        vec![],
        vec![0x62],
        vec![0x62, 0x11],
        vec![0x62, 0x11, 0x4f],
        vec![0x62, 0x11, 0x4f, 0x00],
        vec![0x62, 0x11, 0x4f, 0x00, 0x01, 0x00],
        vec![0x61, 0x11, 0x4f, 0x00, 0x01],
    ] {
        assert_eq!(
            decode_experimental_dpf(probe, &response),
            Err(Ea189DpfDecodeError::MalformedPositiveResponse)
        );
    }
}

#[test]
fn experimental_decoder_rejects_wrong_did() {
    assert_eq!(
        decode_experimental_dpf(
            Ea189DpfProbe::SootMassCalculated,
            &[0x62, 0x11, 0x4e, 0x00, 0x01],
        ),
        Err(Ea189DpfDecodeError::WrongDid {
            expected: 0x114f,
            actual: 0x114e,
        })
    );
}

#[test]
fn identity_is_distinct_from_generic_profile_without_vehicle_identity() {
    let profile = Ea189Profile::new();
    assert_eq!(profile.identity().id(), PROFILE_ID);
    assert_eq!(profile.identity().engine_family(), "EA189");
    assert_ne!(profile.identity().id(), "obd2-v1");
    assert!(profile.signals().iter().next().is_none());
    assert!(!format!("{profile:?}").contains("VIN"));
}

#[test]
fn gate_a_dpf_probe_is_exactly_seven_candidate_reads() {
    let expected = [
        ("dpf.soot_mass_calculated", 0x114f, [0x22, 0x11, 0x4f]),
        ("dpf.soot_mass_measured", 0x114e, [0x22, 0x11, 0x4e]),
        (
            "dpf.distance_since_regeneration",
            0x1156,
            [0x22, 0x11, 0x56],
        ),
        ("dpf.time_since_regeneration", 0x115e, [0x22, 0x11, 0x5e]),
        ("exhaust.temperature.pre_dpf", 0x11b2, [0x22, 0x11, 0xb2]),
        ("exhaust.temperature.post_dpf", 0x10f9, [0x22, 0x10, 0xf9]),
        ("dpf.differential_pressure", 0x14f5, [0x22, 0x14, 0xf5]),
    ];
    let definitions = ea189_dpf_dids();
    assert_eq!(definitions.len(), expected.len());
    assert_eq!(Ea189DpfProbe::all().len(), expected.len());
    for ((definition, probe), expected) in
        definitions.iter().zip(Ea189DpfProbe::all()).zip(expected)
    {
        assert_eq!(
            (
                definition.semantic(),
                definition.id(),
                definition.request_bytes()
            ),
            expected
        );
        assert_eq!(probe.definition(), *definition);
    }
}

#[test]
fn dpf_probe_request_requires_an_engine_known_ecu() {
    let target = KnownTarget::new("validated-engine").unwrap();
    let request =
        Ea189DpfProbeRequest::for_engine(Ea189DpfProbe::SootMassMeasured, target.clone());
    assert_eq!(request.target().as_str(), "validated-engine");
    assert!(Ea189DpfProbeRequest::from_scope(
        Ea189DpfProbe::SootMassMeasured,
        DiagnosticScope::vehicle_wide(),
    )
    .is_err());
    assert!(Ea189DpfProbeRequest::from_scope(
        Ea189DpfProbe::SootMassMeasured,
        DiagnosticScope::known_ecu(JobEcuRole::Unknown, target,),
    )
    .is_err());
}

#[test]
fn binding_preserves_generic_request_and_exposes_evidence() {
    let mut profile = Ea189Profile::new();
    profile
        .bind_generic_signal("engine.rpm", mapping(), evidence())
        .unwrap();
    let binding = profile.binding("engine.rpm").unwrap();

    assert_eq!(binding.request().bytes(), [0x01, 0x0c]);
    assert_eq!(binding.metadata().profile, "obd2-v1");
    assert_eq!(
        binding
            .target_mapping()
            .target()
            .target()
            .address()
            .unwrap()
            .value(),
        "7E0"
    );
    assert_eq!(binding.evidence().confidence(), Confidence::High);
    assert_eq!(binding.evidence().hardware_validation(), "fixture-01");
}

#[test]
fn no_evidence_means_no_profile_signal_and_closed_operations_stay_rejected() {
    let mut profile = Ea189Profile::new();
    assert!(matches!(
        profile.bind_generic_signal("dtc.clear", mapping(), evidence(),),
        Err(Ea189ProfileError::UnsupportedSemantic(_))
    ));
    assert!(profile.binding("dtc.clear").is_none());
    assert!(prepare_read("dtc.clear").is_err());
}

#[test]
fn speculative_or_wrong_target_facts_are_not_admitted() {
    let context = ProtocolContext::new(Protocol::Obd2, AddressingContext::Functional);
    let invalid = EcuTargetMapping::new(
        RoleAssignment::new(EcuRole::Engine, provenance("hypothesis")),
        RequestTargetEvidence::new(
            RequestTarget::functional(context.clone()),
            provenance("hypothesis"),
        ),
        ResponderIdentity::opaque(context, "7E8"),
    );
    let mut profile = Ea189Profile::new();
    assert!(matches!(
        profile.bind_generic_signal("engine.rpm", invalid, evidence()),
        Err(Ea189ProfileError::InvalidTargetEvidence(_))
    ));
    assert!(profile.signals().iter().next().is_none());
}

#[test]
fn bindings_are_unique_and_kept_in_semantic_order() {
    let mut profile = Ea189Profile::new();
    profile
        .bind_generic_signal("vehicle.speed", mapping(), evidence())
        .unwrap();
    profile
        .bind_generic_signal("engine.rpm", mapping(), evidence())
        .unwrap();
    assert!(matches!(
        profile.bind_generic_signal("engine.rpm", mapping(), evidence()),
        Err(Ea189ProfileError::DuplicateSemantic(_))
    ));
    let semantics: Vec<&str> = profile.signals().iter().map(|b| b.semantic()).collect();
    assert_eq!(semantics, ["engine.rpm", "vehicle.speed"]);
    assert!(matches!(
        ProfileEvidence::new(provenance("fixture"), "  "),
        Err(Ea189ProfileError::MissingHardwareValidation)
    ));
}

#[test]
fn decode_errors_write_dids_as_hex() {
    assert_eq!(
        obdentic::ea189::Ea189DpfDecodeError::WrongDid { expected: 0x114f, actual: 0xf189 }.message(),
        "UDS response DID F189 does not match requested DID 114F"
    );
    assert_eq!(
        obdentic::ea189::Ea189ProfileError::DuplicateSemantic("engine.rpm".into()).message(),
        "EA189 profile already binds semantic: engine.rpm"
    );
}
