use obdentic::cache_validation::{validate_cache, CacheValidation, VehicleCache};

fn cache(evidence: &[&str]) -> VehicleCache {
    VehicleCache::new(
        "vehicle-key",
        1,
        2,
        evidence.iter().map(|value| (*value).into()).collect(),
    )
}

#[test]
fn validates_matching_evidence() {
    assert_eq!(
        validate_cache(
            &cache(&["ecu-a", "ecu-b"]),
            Ok(vec!["ecu-b".into(), "ecu-a".into()])
        ),
        CacheValidation::Validated
    );
}

#[test]
fn reports_missing_expected_evidence_deterministically() {
    assert_eq!(
        validate_cache(&cache(&["ecu-b", "ecu-a"]), Ok(vec!["ecu-a".into()])),
        CacheValidation::StaleMissingExpected(vec!["ecu-b".into()])
    );
}

#[test]
fn reports_unexpected_evidence_deterministically() {
    assert_eq!(
        validate_cache(&cache(&["ecu-a"]), Ok(vec!["ecu-c".into(), "ecu-a".into()])),
        CacheValidation::StaleUnexpected(vec!["ecu-c".into()])
    );
}

#[test]
fn preserves_transport_errors_as_transport_errors() {
    assert_eq!(
        validate_cache(&cache(&["ecu-a"]), Err("timeout".into())),
        CacheValidation::TransportError("timeout".into())
    );
}

#[test]
fn missing_evidence_takes_precedence_and_is_sorted_once() {
    assert_eq!(
        validate_cache(
            &cache(&["ecu-c", "ecu-a", "ecu-c", "ecu-b"]),
            Ok(vec!["ecu-z".into(), "ecu-b".into()])
        ),
        CacheValidation::StaleMissingExpected(vec!["ecu-a".into(), "ecu-c".into()])
    );
    assert_eq!(
        validate_cache(&cache(&["ecu-a", "ecu-a"]), Ok(vec!["ecu-a".into()])),
        CacheValidation::Validated
    );
}
