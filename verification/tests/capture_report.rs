use obdentic::capture_events::{CaptureEvent, CaptureValue, SubscriptionFilterOutcome};
use obdentic::capture_report::{capability_stats, format_us, metrics, metrics_text, summary};
use obdentic::jsonl_capture::{CaptureStatus, ParsedCapture};

fn capture(events: Vec<CaptureEvent>) -> ParsedCapture {
    ParsedCapture { events, status: CaptureStatus::Complete }
}

fn success(semantic: &str, due_us: u64, started_us: u64, finished_us: u64, value: &str, unit: &str) -> CaptureEvent {
    CaptureEvent::ReadSucceeded {
        semantic: semantic.into(),
        requested_interval_us: 100_000,
        due_us,
        started_us,
        finished_us,
        request_payload: vec![1, 12],
        response_payload: vec![65, 12, 0, 0],
        value: CaptureValue::Number { numeral: value.into() },
        unit: unit.into(),
        source: "user".into(),
        profile: "generic-obd2".into(),
        decoder: "x".into(),
        provenance: "x".into(),
    }
}

#[test]
fn inspection_keeps_failures_and_reports_numeric_ranges() {
    let report = summary(&capture(vec![
        CaptureEvent::capture_started(Some(1), Some("engine-baseline".into())),
        CaptureEvent::subscription_configured("engine.rpm".into(), 100_000, SubscriptionFilterOutcome::Scheduled),
        success("engine.rpm", 0, 10, 20, "800", "rpm"),
        success("engine.rpm", 100_000, 110_000, 120_000, "900", "rpm"),
        CaptureEvent::read_failed("engine.rpm".into(), 100_000, None, Some(vec![1, 12]), "ambiguous responders".into()),
        CaptureEvent::SessionStopped { offset_us: 130_000 },
    ]));
    assert_eq!(report.successes, 2);
    assert_eq!(report.failures, 1);
    assert_eq!(report.signals.len(), 1);
    let (name, signal) = &report.signals[0];
    assert_eq!(name, "engine.rpm");
    assert_eq!(signal.values, vec!["800".to_string(), "900".to_string()]);
    assert_eq!(report.error_messages.len(), 1);
    assert_eq!(report.error_messages[0].0, "ambiguous responders");
    assert_eq!(report.error_messages[0].1.count, 1);
}

#[test]
fn capability_uses_monotonic_timing_and_nearest_rank_percentiles() {
    let stats = capability_stats(&capture(vec![
        success("engine.rpm", 0, 10, 20, "1", "rpm"),
        success("engine.rpm", 100, 120, 150, "2", "rpm"),
        success("engine.rpm", 200, 230, 270, "3", "rpm"),
        CaptureEvent::SlotsSkipped { semantic: "engine.rpm".into(), count: 2, first_due_us: 300, last_due_us: 400 },
        CaptureEvent::SessionStopped { offset_us: 500 },
    ]));
    assert_eq!(stats.latency, Some((30, 40, 40)));
    assert_eq!(stats.lateness, Some((20, 30, 30)));
    assert_eq!(stats.skipped_slots, 2);
    assert_eq!(stats.skipped_events, 1);
}

#[test]
fn units_are_never_merged_silently() {
    let report = summary(&capture(vec![
        success("engine.rpm", 0, 0, 1, "1", "rpm"),
        success("engine.rpm", 2, 2, 3, "1", "%"),
    ]));
    assert_eq!(report.signals.len(), 1);
    assert_eq!(report.signals[0].1.units.len(), 2);
}

#[test]
fn nearest_rank_metrics_of_a_sample() {
    assert_eq!(metrics(&vec![]), None);
    assert_eq!(metrics(&vec![40, 10, 30, 20]), Some((20, 40, 40)));
    assert_eq!(metrics(&vec![7]), Some((7, 7, 7)));
}

#[test]
fn durations_are_written_in_the_largest_whole_unit() {
    assert_eq!(format_us(2_000_000), "2 s");
    assert_eq!(format_us(0), "0 s");
    assert_eq!(format_us(250_000), "250 ms");
    assert_eq!(format_us(30), "30 us");
    assert_eq!(metrics_text(Some((30, 40, 40))), "30 us / 40 us / 40 us");
    assert_eq!(metrics_text(None), "unavailable");
}
