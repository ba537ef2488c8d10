use obdentic::capability::{CapabilityProvenance, HardwareCapability};
use obdentic::capture::{
    parse_interval, parse_profile_document, profile, ProfileDocument, ProfileObservation,
};
use obdentic::signals::prepare_read;
use std::collections::HashSet;
use std::time::Duration;

fn interval(ms: u64) -> Duration {
    Duration::from_millis(ms)
}

#[test]
fn exposes_engine_baseline_name_and_semantics() {
    let profile = profile("engine-baseline").unwrap();
    assert_eq!(profile.name(), "engine-baseline");
    let subscriptions = profile.subscriptions().unwrap();
    let semantics = subscriptions
        .iter()
        .map(|subscription| subscription.semantic())
        .collect::<Vec<_>>();
    assert_eq!(
        semantics,
        [
            "engine.rpm",
            "engine.maf",
            "engine.load",
            "engine.intake_manifold_pressure",
            "vehicle.speed",
            "engine.egr.commanded",
            "engine.egr.error",
            "vehicle.accelerator_pedal_e",
            "engine.relative_throttle",
            "engine.coolant_temperature",
            "engine.intake_air_temperature",
            "engine.runtime",
            "engine.barometric_pressure",
        ]
    );
}

#[test]
fn engine_baseline_keeps_its_declared_sampling_intervals() {
    let subscriptions = profile("engine-baseline").unwrap().subscriptions().unwrap();
    assert_eq!(interval(subscriptions[0].interval()), Duration::from_secs(1));
    assert!(subscriptions[1..4]
        .iter()
        .all(|subscription| interval(subscription.interval()) == Duration::from_secs(2)));
    assert!(subscriptions[4..]
        .iter()
        .all(|subscription| interval(subscription.interval()) == Duration::from_secs(8)));
}

#[test]
fn engine_drive_is_loaded_from_yaml_with_exact_legacy_behavior() {
    let profile = profile("engine-drive").unwrap();
    assert_eq!(profile.name(), "engine-drive");
    assert_eq!(
        profile.description(),
        Some("Conservative drive-test profile derived from real Carly/ELM hardware evidence.")
    );
    let subscriptions = profile.subscriptions().unwrap();
    let actual = subscriptions
        .iter()
        .map(|subscription| (subscription.semantic(), interval(subscription.interval())))
        .collect::<Vec<_>>();
    assert_eq!(
        actual,
        [
            ("engine.rpm", Duration::from_secs(1)),
            ("engine.maf", Duration::from_secs(2)),
            ("engine.load", Duration::from_secs(4)),
            ("engine.intake_manifold_pressure", Duration::from_secs(2)),
            ("vehicle.speed", Duration::from_secs(4)),
            ("engine.egr.commanded", Duration::from_secs(4)),
            ("engine.egr.error", Duration::from_secs(4)),
            ("vehicle.accelerator_pedal_e", Duration::from_secs(4)),
            ("engine.coolant_temperature", Duration::from_secs(8)),
            ("engine.intake_air_temperature", Duration::from_secs(8)),
            ("engine.runtime", Duration::from_secs(8)),
            ("engine.barometric_pressure", Duration::from_secs(8)),
        ]
    );
}

#[test]
fn engine_drive_stays_below_observed_request_budget_and_avoids_conflict_pids() {
    let profile = profile("engine-drive").unwrap();
    let subscriptions = profile.subscriptions().unwrap();
    let semantics = subscriptions
        .iter()
        .map(|subscription| subscription.semantic())
        .collect::<Vec<_>>();

    assert_eq!(subscriptions.len(), 12);
    assert!(!semantics.contains(&"engine.control_module_voltage"));
    assert!(!semantics.contains(&"vehicle.accelerator_pedal_d"));
    assert!(!semantics.contains(&"engine.relative_throttle"));
    assert!(semantics.contains(&"vehicle.accelerator_pedal_e"));

    let offered_reads_per_second = subscriptions
        .iter()
        .map(|subscription| 1.0 / interval(subscription.interval()).as_secs_f64())
        .sum::<f64>();
    assert!(offered_reads_per_second < 4.0);
    assert_eq!(
        profile.check_admission(HardwareCapability::conservative_default()),
        Ok(())
    );
}

#[test]
fn engine_drive_preserves_dynamic_priority_over_background_signals() {
    let subscriptions = profile("engine-drive").unwrap().subscriptions().unwrap();
    let interval_of = |semantic| {
        interval(
            subscriptions
                .iter()
                .find(|subscription| subscription.semantic() == semantic)
                .unwrap()
                .interval(),
        )
    };

    assert_eq!(interval_of("engine.rpm"), Duration::from_secs(1));
    assert!(interval_of("engine.rpm") < interval_of("engine.coolant_temperature"));
    assert!(interval_of("engine.intake_manifold_pressure") < interval_of("engine.runtime"));
    assert_eq!(
        interval_of("engine.coolant_temperature"),
        Duration::from_secs(8)
    );
}

#[test]
fn obd2_expansion_validation_has_exact_catalogued_semantics_and_intervals() {
    let profile = profile("obd2-expansion-validation").unwrap();
    assert_eq!(profile.name(), "obd2-expansion-validation");
    let subscriptions = profile.subscriptions().unwrap();
    assert_eq!(
        subscriptions
            .iter()
            .map(|subscription| subscription.semantic())
            .collect::<Vec<_>>(),
        [
            "engine.throttle_position",
            "vehicle.distance_with_mil_on",
            "engine.fuel_rail_gauge_pressure",
            "vehicle.warmups_since_dtc_clear",
            "vehicle.distance_since_dtc_clear",
            "vehicle.ambient_air_temperature",
            "engine.throttle_actuator.commanded",
        ]
    );
    assert!(subscriptions
        .iter()
        .all(|subscription| interval(subscription.interval()) == Duration::from_secs(2)));
}

#[test]
fn obd2_expansion_validation_is_admitted_by_default_budget() {
    let profile = profile("obd2-expansion-validation").unwrap();
    assert_eq!(
        profile.check_admission(HardwareCapability::conservative_default()),
        Ok(())
    );
}

#[test]
fn profiles_have_unique_catalogued_semantics_and_positive_intervals() {
    for name in [
        "engine-baseline",
        "engine-drive",
        "obd2-expansion-validation",
    ] {
        let subscriptions = profile(name).unwrap().subscriptions().unwrap();
        let semantics = subscriptions
            .iter()
            .map(|subscription| subscription.semantic())
            .collect::<Vec<_>>();
        let unique = semantics.iter().copied().collect::<HashSet<_>>();

        assert_eq!(unique.len(), semantics.len());
        assert!(!semantics.is_empty());
        for subscription in &subscriptions {
            assert!(interval(subscription.interval()) > Duration::ZERO);
            assert!(prepare_read(subscription.semantic()).is_ok());
        }
    }
}

#[test]
fn rejects_unknown_profiles() {
    assert_eq!(
        profile("not-a-profile"),
        Err("unknown capture profile: not-a-profile".into())
    );
}

#[test]
fn engine_baseline_is_admitted_by_the_conservative_session_budget() {
    let profile = profile("engine-baseline").unwrap();
    assert_eq!(
        profile.check_admission(HardwareCapability::conservative_default()),
        Ok(())
    );
    assert!(profile
        .check_admission(
            HardwareCapability::new(
                3,
                Duration::from_millis(250).as_nanos() as u64,
                CapabilityProvenance::MeasuredFromCapture,
            )
            .unwrap(),
        )
        .is_err());
}

#[test]
fn rejects_zero_invalid_and_overflowing_intervals() {
    for interval in ["0s", "0ms", "1.5s", "1m", " 1s", "1s "] {
        assert!(parse_interval(interval).is_err(), "accepted {interval}");
    }
    assert!(parse_interval("18446744073709551615s").is_err());
    assert_eq!(parse_interval("250ms"), Ok(250));
    assert_eq!(parse_interval("2s"), Ok(2000));
}

fn document(version: u32, id: &str, observations: &[(&str, &str)]) -> ProfileDocument {
    ProfileDocument {
        version,
        id: id.to_owned(),
        description: None,
        observations: observations
            .iter()
            .map(|(semantic, interval)| ProfileObservation {
                semantic: (*semantic).to_owned(),
                interval: (*interval).to_owned(),
            })
            .collect(),
    }
}

#[test]
fn rejects_duplicate_unknown_and_wildcard_semantics() {
    assert!(parse_profile_document(document(
        1,
        "duplicate",
        &[("engine.rpm", "1s"), ("engine.rpm", "2s")]
    ))
    .unwrap_err()
    .contains("duplicate semantic engine.rpm"));
    assert!(parse_profile_document(document(1, "unknown", &[("vehicle.not_real", "1s")])).is_err());
    assert!(parse_profile_document(document(1, "wildcard", &[("engine.*", "1s")]))
        .unwrap_err()
        .contains("forbidden semantic wildcard"));
}

#[test]
fn document_order_is_deterministic() {
    let doc = document(1, "ordered", &[("vehicle.speed", "4s"), ("engine.rpm", "1s")]);
    let first = parse_profile_document(doc.clone()).unwrap().subscriptions().unwrap();
    let second = parse_profile_document(doc).unwrap().subscriptions().unwrap();
    assert_eq!(
        first
            .iter()
            .map(|subscription| subscription.semantic())
            .collect::<Vec<_>>(),
        ["vehicle.speed", "engine.rpm"]
    );
    assert_eq!(first, second);
}

#[test]
fn documents_need_a_known_version_an_id_and_observations() {
    assert!(parse_profile_document(document(2, "future", &[("engine.rpm", "1s")])).is_err());
    assert!(parse_profile_document(document(1, "Bad Id", &[("engine.rpm", "1s")])).is_err());
    assert!(parse_profile_document(document(1, "empty", &[])).is_err());
    assert!(parse_profile_document(document(1, "spaced", &[(" engine.rpm", "1s")])).is_err());
}

#[test]
fn refused_intervals_and_budgets_have_exact_messages() {
    assert_eq!(
        parse_interval(" 1s"),
        Err("invalid capture profile interval: \" 1s\"".into())
    );
    assert_eq!(
        parse_interval("1m"),
        Err("invalid capture profile interval \"1m\"; expected positive integer ms or s".into())
    );
    assert_eq!(
        parse_interval("0ms"),
        Err("capture profile interval must be greater than zero".into())
    );
    assert_eq!(
        parse_interval("18446744073709551615s"),
        Err("capture profile interval is too large: 18446744073709551615s".into())
    );
    let profile = profile("engine-baseline").unwrap();
    assert_eq!(
        profile.check_admission(
            HardwareCapability::new(
                3,
                Duration::from_millis(250).as_nanos() as u64,
                CapabilityProvenance::MeasuredFromCapture,
            )
            .unwrap(),
        ),
        Err("capture profile engine-baseline exceeds the 3 reads/s session budget".into())
    );
}

#[test]
fn refused_documents_have_exact_messages() {
    let refused = |doc: ProfileDocument| parse_profile_document(doc).unwrap_err();
    assert_eq!(
        refused(document(2, "future", &[("engine.rpm", "1s")])),
        "unsupported capture profile schema version 2; expected 1"
    );
    assert_eq!(
        refused(document(1, "Bad Id", &[("engine.rpm", "1s")])),
        "invalid capture profile id: Bad Id"
    );
    assert_eq!(
        refused(document(1, "empty", &[])),
        "capture profile empty must contain at least one observation"
    );
    assert_eq!(
        refused(document(1, "spaced", &[("engine.rpm", "1s"), (" engine.rpm", "1s")])),
        "capture profile semantic must be a non-empty exact identifier"
    );
    assert_eq!(
        refused(document(1, "wild", &[("engine.?", "1s")])),
        "capture profile wild uses forbidden semantic wildcard engine.?"
    );
    assert_eq!(
        refused(document(1, "twice", &[("engine.rpm", "1s"), ("engine.rpm", "2s")])),
        "capture profile twice contains duplicate semantic engine.rpm"
    );
    assert_eq!(
        refused(document(1, "slow", &[("engine.rpm", "1h")])),
        "invalid capture profile interval \"1h\"; expected positive integer ms or s"
    );
    assert_eq!(
        refused(document(1, "unknown", &[("vehicle.not_real", "1s")])),
        "capture profile unknown references unavailable semantic vehicle.not_real: unsupported semantic: vehicle.not_real"
    );
}
