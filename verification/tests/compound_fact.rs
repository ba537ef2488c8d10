use obdentic::compound_fact::{
    CompoundObservation, ObservationError, ObservationIdentity, SemanticFact,
};

fn identity() -> ObservationIdentity {
    ObservationIdentity::new("capture", "evidence-42", 1_234_567).unwrap()
}

#[test]
fn compound_facts_share_one_observation_identity() {
    let observation = CompoundObservation::new(
        identity(),
        vec![
            SemanticFact::scalar("sensor.voltage", 1.2f64.to_bits(), "V").unwrap(),
            SemanticFact::bit_status("sensor.present", 3, true).unwrap(),
        ],
    )
    .unwrap();

    assert_eq!(observation.source(), "capture");
    assert_eq!(observation.evidence_id(), "evidence-42");
    assert_eq!(observation.timestamp_us(), 1_234_567);
    assert_eq!(observation.facts().len(), 2);
    assert_eq!(
        observation.fact("sensor.voltage"),
        Some(&observation.facts()[0])
    );
    assert_eq!(
        observation.fact("sensor.present"),
        Some(&observation.facts()[1])
    );
}

#[test]
fn facts_do_not_duplicate_shared_traffic_identity() {
    let observation = CompoundObservation::new(
        identity(),
        vec![
            SemanticFact::scalar("value.a", 10.0f64.to_bits(), "unit").unwrap(),
            SemanticFact::scalar("value.b", 20.0f64.to_bits(), "unit").unwrap(),
        ],
    )
    .unwrap();

    assert_eq!(observation.facts().len(), 2);
    assert!(observation
        .facts()
        .iter()
        .all(|fact| fact.semantic() != observation.evidence_id()));
    assert_eq!(observation.identity(), &identity());
}

#[test]
fn rejects_invalid_and_duplicate_data_but_allows_no_applicable_facts() {
    assert_eq!(
        ObservationIdentity::new(" ", "evidence", 0),
        Err(ObservationError::EmptySource)
    );
    assert_eq!(
        ObservationIdentity::new("capture", "", 0),
        Err(ObservationError::EmptyEvidenceId)
    );
    assert_eq!(
        SemanticFact::scalar(" ", 1.0f64.to_bits(), "unit"),
        Err(ObservationError::EmptySemantic)
    );
    assert_eq!(
        SemanticFact::scalar("value", f64::NAN.to_bits(), "unit"),
        Err(ObservationError::NonFiniteScalar {
            semantic: "value".into()
        })
    );
    assert_eq!(
        SemanticFact::scalar("value", 1.0f64.to_bits(), " "),
        Err(ObservationError::EmptyUnit {
            semantic: "value".into()
        })
    );
    let duplicate = SemanticFact::scalar("value", 1.0f64.to_bits(), "unit").unwrap();
    assert_eq!(
        CompoundObservation::new(identity(), vec![duplicate.clone(), duplicate]),
        Err(ObservationError::DuplicateSemantic {
            semantic: "value".into()
        })
    );
    assert!(CompoundObservation::new(identity(), vec![])
        .unwrap()
        .facts()
        .is_empty());
}

#[test]
fn infinite_scalars_and_error_messages() {
    assert!(SemanticFact::scalar("value", f64::INFINITY.to_bits(), "unit").is_err());
    assert!(SemanticFact::scalar("value", (-0.0f64).to_bits(), "unit").is_ok());
    assert_eq!(
        ObservationError::DuplicateSemantic { semantic: "value".into() }.message(),
        "duplicate fact semantic identifier: value"
    );
    assert_eq!(
        ObservationError::EmptyUnit { semantic: "value".into() }.message(),
        "scalar fact value must have a unit"
    );
}
