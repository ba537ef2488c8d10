use obdentic::capture::profile;
use obdentic::capture_events::SubscriptionFilterOutcome;
use obdentic::elm::{SignalSupport, SignalSupportStatus};
use obdentic::jobs::capture_session::plan_capture;

#[test]
fn schedules_only_advertised_signals_and_records_all_decisions() {
    let configured = profile("engine-baseline")
        .unwrap()
        .subscriptions()
        .unwrap();
    let plan = plan_capture(
        "engine-baseline",
        configured,
        &[
            SignalSupport {
                semantic: "engine.rpm",
                status: SignalSupportStatus::Supported,
            },
            SignalSupport {
                semantic: "engine.maf",
                status: SignalSupportStatus::Unsupported,
            },
        ],
    )
    .unwrap();

    assert_eq!(plan.scheduled().len(), 1);
    assert_eq!(plan.scheduled()[0].semantic(), "engine.rpm");
    assert_eq!(
        std::time::Duration::from_millis(plan.scheduled()[0].interval()),
        std::time::Duration::from_secs(1)
    );
    assert_eq!(plan.subscriptions().len(), 13);
    assert_eq!(plan.total_configured(), 13);
    assert_eq!(
        plan.subscriptions()[0].filter(),
        SubscriptionFilterOutcome::Scheduled
    );
    assert_eq!(
        plan.subscriptions()[1].filter(),
        SubscriptionFilterOutcome::Unsupported
    );
    assert_eq!(
        plan.subscriptions()[2].filter(),
        SubscriptionFilterOutcome::Unknown
    );
    assert_eq!(plan.subscriptions()[0].requested_interval_us(), 1_000_000);
}

#[test]
fn rejects_a_profile_with_nothing_the_adapter_supports() {
    let configured = profile("engine-baseline")
        .unwrap()
        .subscriptions()
        .unwrap();
    let error = plan_capture("engine-baseline", configured, &[]).unwrap_err();
    assert_eq!(
        error,
        "capture profile engine-baseline has no signals supported by the adapter"
    );
}
