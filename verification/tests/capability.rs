use obdentic::capability::{CapabilityError, CapabilityProvenance, HardwareCapability};
use std::time::Duration;

fn nanos(duration: Duration) -> u64 {
    duration.as_nanos() as u64
}

#[test]
fn conservative_default_is_valid_and_identified() {
    let capability = HardwareCapability::conservative_default();

    assert_eq!(capability.request_budget_per_second(), 4);
    assert_eq!(
        capability.representative_read_latency(),
        nanos(Duration::from_millis(250))
    );
    assert_eq!(
        capability.provenance(),
        CapabilityProvenance::BuiltInDefault
    );
    assert_eq!(capability, HardwareCapability::default());
}

#[test]
fn rejects_zero_request_budget() {
    assert_eq!(
        HardwareCapability::new(
            0,
            nanos(Duration::from_millis(250)),
            CapabilityProvenance::MeasuredFromCapture,
        ),
        Err(CapabilityError::RequestBudgetMustBePositive)
    );
}

#[test]
fn rejects_zero_read_latency() {
    assert_eq!(
        HardwareCapability::new(4, nanos(Duration::ZERO), CapabilityProvenance::MeasuredFromCapture,),
        Err(CapabilityError::ReadLatencyMustBePositive)
    );
}

#[test]
fn preserves_measured_provenance_and_values() {
    let capability = HardwareCapability::new(
        6,
        nanos(Duration::from_millis(187)),
        CapabilityProvenance::MeasuredFromCapture,
    )
    .unwrap();

    assert_eq!(capability.request_budget_per_second(), 6);
    assert_eq!(
        capability.representative_read_latency(),
        nanos(Duration::from_millis(187))
    );
    assert_eq!(
        capability.provenance(),
        CapabilityProvenance::MeasuredFromCapture
    );
}

#[test]
fn budget_error_takes_precedence_over_latency_error() {
    assert_eq!(
        HardwareCapability::new(0, 0, CapabilityProvenance::BuiltInDefault),
        Err(CapabilityError::RequestBudgetMustBePositive)
    );
    assert_eq!(
        CapabilityError::ReadLatencyMustBePositive.message(),
        "representative read latency must be greater than zero"
    );
}
