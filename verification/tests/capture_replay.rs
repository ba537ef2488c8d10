use obdentic::capture_events::{CaptureEvent, CaptureValue, ReadTiming};
use obdentic::capture_replay::{CaptureReplay, RecordedDecode, ReplayIssueKind};
use obdentic::jsonl_capture::{CaptureStatus, ParsedCapture};

fn successful_read(semantic: &str, at_us: u64, request: Vec<u8>, response: Vec<u8>, recorded: &str, unit: &str) -> CaptureEvent {
    CaptureEvent::ReadSucceeded {
        semantic: semantic.into(),
        requested_interval_us: 1_000_000,
        due_us: at_us.saturating_sub(100_000),
        started_us: at_us.saturating_sub(50_000),
        finished_us: at_us,
        request_payload: request,
        response_payload: response,
        value: CaptureValue::Number { numeral: recorded.into() },
        unit: unit.into(),
        source: "user".into(),
        profile: "obd2-v1".into(),
        decoder: "recorded-decoder".into(),
        provenance: "recorded-provenance".into(),
    }
}

fn capture(events: Vec<CaptureEvent>) -> ParsedCapture {
    ParsedCapture { events, status: CaptureStatus::Complete }
}

fn decode(same_number: bool, recorded: &str, current: &str) -> RecordedDecode {
    RecordedDecode { same_number, recorded_text: recorded.into(), current_text: current.into() }
}

#[test]
fn raw_response_is_redecoded_instead_of_trusting_recorded_value() {
    let replay = CaptureReplay::from_capture(
        &capture(vec![
            successful_read("engine.rpm", 1_234_567, vec![0x01, 0x0c], vec![0x41, 0x0c, 0x0c, 0x80], "9999", "rpm"),
            CaptureEvent::SessionStopped { offset_us: 2_000_000 },
        ]),
        &vec![decode(false, "9999.000000", "800.000000"), decode(false, "", "")],
    );
    assert_eq!(replay.transactions().len(), 1);
    assert_eq!(replay.offsets_us(), [1_234_567]);
    assert_eq!(replay.transactions()[0].timestamp_ms(), 1_234);
    assert_eq!(replay.transactions()[0].response(), [0x41, 0x0c, 0x0c, 0x80]);
    assert_eq!(replay.duration_us(), 2_000_000);
    assert_eq!(replay.issues().len(), 1);
    assert_eq!(replay.issues()[0].kind(), ReplayIssueKind::RecordedDecodeChanged);
    assert_eq!(replay.issues()[0].detail(), "recorded=9999.000000 rpm current=800.000000 rpm");
}

#[test]
fn request_drift_is_reported_and_not_replayed() {
    let replay = CaptureReplay::from_capture(
        &capture(vec![successful_read("engine.rpm", 1_000_000, vec![0x01, 0x0d], vec![0x41, 0x0c, 0x0c, 0x80], "800", "rpm")]),
        &vec![decode(true, "800.000000", "800.000000")],
    );
    assert!(replay.transactions().is_empty());
    assert_eq!(replay.issues().len(), 1);
    assert_eq!(replay.issues()[0].kind(), ReplayIssueKind::RequestChanged);
    assert_eq!(
        replay.issues()[0].detail(),
        "recorded request [1, 13] differs from current semantic request [1, 12]"
    );
}

#[test]
fn failed_reads_affect_duration_but_never_create_telemetry() {
    let replay = CaptureReplay::from_capture(
        &capture(vec![CaptureEvent::ReadFailed {
            semantic: "engine.rpm".into(),
            requested_interval_us: 1_000_000,
            timing: Some(ReadTiming::new(4_000_000, 4_050_000, 4_200_000)),
            request_payload: Some(vec![0x01, 0x0c]),
            error: "conflicting responders".into(),
        }]),
        &vec![decode(false, "", "")],
    );
    assert_eq!(replay.duration_us(), 4_200_000);
    assert!(replay.transactions().is_empty());
}

#[test]
fn replayed_reads_are_ordered_by_time_and_matching_values_raise_no_issue() {
    let replay = CaptureReplay::from_capture(
        &capture(vec![
            successful_read("engine.rpm", 3_000_000, vec![0x01, 0x0c], vec![0x41, 0x0c, 0x12, 0xc0], "1200", "rpm"),
            successful_read("engine.rpm", 1_000_000, vec![0x01, 0x0c], vec![0x41, 0x0c, 0x0c, 0x80], "800", "rpm"),
            successful_read("future.signal", 2_000_000, vec![0x01, 0x99], vec![0x41, 0x99, 0x00], "1", "x"),
            successful_read("engine.rpm", 500_000, vec![0x01, 0x0c], vec![0x41, 0x0c, 0x0c], "800", "rpm"),
        ]),
        &vec![
            decode(true, "1200.000000", "1200.000000"),
            decode(true, "800.000000", "800.000000"),
            decode(true, "", ""),
            decode(true, "", ""),
        ],
    );
    assert_eq!(replay.offsets_us(), [1_000_000, 3_000_000]);
    assert_eq!(replay.transactions()[0].timestamp_ms(), 1_000);
    assert_eq!(replay.issues().len(), 2);
    assert_eq!(replay.issues()[0].at_us(), 500_000);
    assert_eq!(replay.issues()[0].kind(), ReplayIssueKind::DecodeFailed);
    assert_eq!(replay.issues()[0].detail(), "response does not answer the prepared read");
    assert_eq!(replay.issues()[1].kind(), ReplayIssueKind::UnsupportedSemantic);
    assert_eq!(replay.issues()[1].semantic(), "future.signal");
    assert_eq!(replay.duration_us(), 3_000_000);
}
