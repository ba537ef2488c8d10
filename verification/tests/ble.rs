use obdentic::ble::{
    ReadCompletion, SessionState,
    is_session_unhealthy, is_transport_failure, request_budget_for, RequestServiceEstimator,
    SessionHealth,
};
use obdentic::capability::{CapabilityProvenance, HardwareCapability};
use std::time::Duration;

fn nanos(duration: Duration) -> u64 {
    duration.as_nanos() as u64
}

#[test]
fn request_service_estimator_uses_slowest_completed_attempt() {
    let mut estimator = RequestServiceEstimator::default();
    assert_eq!(
        estimator.capability(),
        HardwareCapability::conservative_default()
    );

    estimator.observe(nanos(Duration::from_millis(280)));
    estimator.observe(nanos(Duration::from_millis(220)));
    let capability = estimator.capability();
    assert_eq!(capability.request_budget_per_second(), 3);
    assert_eq!(
        capability.representative_read_latency(),
        nanos(Duration::from_millis(280))
    );
    assert_eq!(
        capability.provenance(),
        CapabilityProvenance::MeasuredFromCapture
    );

    estimator.observe(nanos(Duration::from_secs(2)));
    assert_eq!(estimator.capability().request_budget_per_second(), 1);
}

#[test]
fn transport_health_stops_after_two_consecutive_transport_failures() {
    let mut health = SessionHealth::default();

    assert!(!health.observe("Carly write timed out: 010C"));
    assert!(health.observe("Carly command timed out: 010D"));

    let error = health.unhealthy().unwrap();
    assert!(is_session_unhealthy(error));
    assert!(error.contains("Carly command timed out: 010D"));
    assert!(!health.observe("Carly write timed out: 0105"));
}

#[test]
fn recoverable_read_errors_reset_transport_failure_count() {
    let mut health = SessionHealth::default();

    assert!(!health.observe("Carly write timed out: 010C"));
    assert!(!health.observe("conflicting 010C responses"));
    assert!(!health.observe("Carly write timed out: 010D"));
    assert!(health.unhealthy().is_none());
    assert!(!is_transport_failure("conflicting 010C responses"));
}

#[test]
fn unhealthy_health_gate_prevents_a_third_transport_request() {
    let mut health = SessionHealth::default();
    let mut dispatched = 0;

    for error in [
        "Carly write timed out: 010C",
        "Carly write timed out: 010D",
        "Carly write timed out: 0105",
    ] {
        if health.unhealthy().is_some() {
            break;
        }
        dispatched += 1;
        health.observe(error);
    }

    assert_eq!(dispatched, 2);
    assert!(health.unhealthy().is_some());
}

#[test]
fn budget_is_one_second_over_service_time_and_at_least_one() {
    assert_eq!(request_budget_for(0), 1_000_000_000);
    assert_eq!(request_budget_for(250_000_000), 4);
    assert_eq!(request_budget_for(u64::MAX), 1);
    let mut health = SessionHealth::default();
    assert!(!health.observe("diagnostic session is closed"));
    health.success();
    assert!(!health.observe("Carly notification stream ended"));
    assert!(health.unhealthy().is_none());
}

#[test]
fn session_state_answers_and_disconnects_once_unhealthy() {
    let mut state = SessionState::new();
    assert!(state.gate().is_ok());
    assert_eq!(state.complete(None, 40_000_000), ReadCompletion::Succeeded);
    assert_eq!(
        state.complete(Some("NO DATA"), 10_000_000),
        ReadCompletion::Failed("NO DATA".into())
    );
    assert_eq!(
        state.complete(Some("Carly command timed out: 010C"), 10_000_000),
        ReadCompletion::Failed("Carly command timed out: 010C".into())
    );
    let fatal = state.complete(Some("Carly command timed out: 010D"), 10_000_000);
    let expected = "diagnostic session became unresponsive after repeated transport failures: Carly command timed out: 010D".to_string();
    assert_eq!(fatal, ReadCompletion::Fatal(expected.clone()));
    assert!(!state.needs_disconnect());
    assert_eq!(state.gate(), Err(expected.clone()));
    assert_eq!(state.complete(None, 1), ReadCompletion::Refused(expected));
    assert_eq!(state.capability().representative_read_latency(), 40_000_000);
}
