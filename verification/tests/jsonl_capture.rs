use obdentic::capture_events::{CaptureEvent, CaptureValue, ReadTiming, SubscriptionFilterOutcome};
use obdentic::jsonl_capture::{event_line, header_line, parse_capture, CaptureStatus};

const HEADER: &str = "{\"schema\":\"OBDENTIC-CAPTURE\",\"version\":1,\"type\":\"header\"}\n";

fn record(body: &str) -> String {
    format!("{{\"schema\":\"OBDENTIC-CAPTURE\",\"version\":1,{body}}}\n")
}

#[test]
fn rejects_bad_versions_malformed_lines_and_noncanonical_hex() {
    let contents = "{\"schema\":\"OBDENTIC-CAPTURE\",\"version\":2,\"type\":\"header\"}\n";
    assert!(parse_capture(contents).unwrap_err().contains("line 1"));
    let contents =
        "{\"schema\":\"OBDENTIC-CAPTURE\",\"version\":1,\"type\":\"header\"}\nnot-json\n";
    assert!(parse_capture(contents).unwrap_err().contains("line 2"));
    let contents = "{\"schema\":\"OBDENTIC-CAPTURE\",\"version\":1,\"type\":\"header\"}\n{\"schema\":\"OBDENTIC-CAPTURE\",\"version\":1,\"type\":\"support_discovery\",\"sequence\":0,\"request_payload\":\"01 ab\",\"response_payload\":\"\"}\n";
    assert!(parse_capture(contents).unwrap_err().contains("line 2"));
    let contents = "{\"schema\":\"OBDENTIC-CAPTURE\",\"version\":1,\"type\":\"header\"}\n{\"schema\":\"OBDENTIC-CAPTURE\",\"version\":1,\"type\":\"subscription_configured\",\"sequence\":0,\"semantic\":\"engine.rpm\",\"requested_interval_us\":250000,\"filter_outcome\":\"invalid\"}\n";
    assert!(parse_capture(contents)
        .unwrap_err()
        .contains("unknown subscription filter outcome"));
}

#[test]
fn reads_every_recorded_event_kind_in_order() {
    let mut contents = String::from(HEADER);
    contents.push_str(&record(
        "\"type\":\"capture_started\",\"sequence\":0,\"wallclock_ms\":1700000000000,\"profile\":\"engine-baseline\"",
    ));
    contents.push_str(&record("\"type\":\"session_initialized\",\"sequence\":1"));
    contents.push_str(&record(
        "\"type\":\"subscription_configured\",\"sequence\":2,\"semantic\":\"engine.rpm\",\"requested_interval_us\":250000,\"filter_outcome\":\"scheduled\"",
    ));
    contents.push_str(&record(
        "\"type\":\"support_discovery\",\"sequence\":3,\"request_payload\":\"01 00\",\"response_payload\":\"41 00 BE 1F A8 13\"",
    ));
    contents.push_str(&record(
        "\"type\":\"read_succeeded\",\"sequence\":4,\"semantic\":\"engine.rpm\",\"requested_interval_us\":250000,\"due_us\":10,\"started_us\":20,\"finished_us\":30,\"request_payload\":\"01 0C\",\"response_payload\":\"41 0C 0C 80\",\"value\":{\"type\":\"number\",\"value\":800.5},\"unit\":\"rpm\",\"source\":\"user\",\"profile\":\"obd2-v1\",\"decoder\":\"d\",\"provenance\":\"p\"",
    ));
    contents.push_str(&record(
        "\"type\":\"read_failed\",\"sequence\":5,\"semantic\":\"engine.rpm\",\"requested_interval_us\":250000,\"due_us\":40,\"started_us\":50,\"finished_us\":60,\"request_payload\":null,\"error\":\"no data\"",
    ));
    contents.push_str(&record(
        "\"type\":\"slots_skipped\",\"sequence\":6,\"semantic\":\"engine.rpm\",\"count\":2,\"first_due_us\":70,\"last_due_us\":80",
    ));
    contents.push_str(&record("\"type\":\"session_error\",\"sequence\":7,\"error\":\"lost\""));
    contents.push_str(&record("\"type\":\"shutdown_requested\",\"sequence\":8"));
    contents.push_str(&record("\"type\":\"session_stopped\",\"sequence\":9,\"offset_us\":90"));
    let capture = parse_capture(&contents).unwrap();
    assert!(capture.status == CaptureStatus::Complete);
    assert_eq!(capture.events.len(), 10);
    assert!(
        capture.events[0]
            == CaptureEvent::CaptureStarted {
                wallclock_ms: Some(1_700_000_000_000),
                profile: Some("engine-baseline".into()),
            }
    );
    assert!(capture.events[1] == CaptureEvent::SessionInitialized);
    assert!(
        capture.events[2]
            == CaptureEvent::SubscriptionConfigured {
                semantic: "engine.rpm".into(),
                requested_interval_us: 250_000,
                filter: SubscriptionFilterOutcome::Scheduled,
            }
    );
    assert!(
        capture.events[3]
            == CaptureEvent::SupportDiscovery {
                request_payload: vec![0x01, 0x00],
                responder: None,
                response_payload: vec![0x41, 0x00, 0xBE, 0x1F, 0xA8, 0x13],
            }
    );
    assert!(
        capture.events[4]
            == CaptureEvent::ReadSucceeded {
                semantic: "engine.rpm".into(),
                requested_interval_us: 250_000,
                due_us: 10,
                started_us: 20,
                finished_us: 30,
                request_payload: vec![0x01, 0x0C],
                response_payload: vec![0x41, 0x0C, 0x0C, 0x80],
                value: CaptureValue::Number { numeral: "800.5".into() },
                unit: "rpm".into(),
                source: "user".into(),
                profile: "obd2-v1".into(),
                decoder: "d".into(),
                provenance: "p".into(),
            }
    );
    assert!(
        capture.events[5]
            == CaptureEvent::ReadFailed {
                semantic: "engine.rpm".into(),
                requested_interval_us: 250_000,
                timing: Some(ReadTiming { due_us: 40, started_us: 50, finished_us: 60 }),
                request_payload: None,
                error: "no data".into(),
            }
    );
    assert!(
        capture.events[6]
            == CaptureEvent::SlotsSkipped {
                semantic: "engine.rpm".into(),
                count: 2,
                first_due_us: 70,
                last_due_us: 80,
            }
    );
    assert!(capture.events[7] == CaptureEvent::SessionError { error: "lost".into() });
    assert!(capture.events[8] == CaptureEvent::ShutdownRequested);
    assert!(capture.events[9] == CaptureEvent::SessionStopped { offset_us: 90 });
}

#[test]
fn a_capture_without_its_stop_record_is_partial() {
    let mut contents = String::from(HEADER);
    contents.push_str(&record("\"type\":\"session_initialized\",\"sequence\":0"));
    let capture = parse_capture(&contents).unwrap();
    assert!(capture.status == CaptureStatus::Partial);
    assert_eq!(capture.events.len(), 1);
    let capture = parse_capture(HEADER.trim_end()).unwrap();
    assert!(capture.status == CaptureStatus::Partial);
    assert!(capture.events.is_empty());
}

#[test]
fn carriage_returns_before_line_feeds_are_accepted() {
    let contents = "{\"schema\":\"OBDENTIC-CAPTURE\",\"version\":1,\"type\":\"header\"}\r\n{\"schema\":\"OBDENTIC-CAPTURE\",\"version\":1,\"type\":\"session_stopped\",\"sequence\":0,\"offset_us\":5}\r\n";
    let capture = parse_capture(contents).unwrap();
    assert!(capture.status == CaptureStatus::Complete);
    assert!(capture.events[0] == CaptureEvent::SessionStopped { offset_us: 5 });
}

#[test]
fn refusals_name_the_line_and_the_reason() {
    assert_eq!(parse_capture("").unwrap_err(), "JSONL capture is empty");
    let header_only_fields =
        "{\"schema\":\"OBDENTIC-CAPTURE\",\"version\":1,\"type\":\"header\",\"extra\":1}\n";
    assert_eq!(
        parse_capture(header_only_fields).unwrap_err(),
        "line 1: malformed JSONL capture header"
    );
    let blank = format!("{HEADER}   \n");
    assert_eq!(parse_capture(&blank).unwrap_err(), "line 2: empty JSONL record");
    let skipped = format!("{HEADER}{}", record("\"type\":\"shutdown_requested\",\"sequence\":1"));
    assert_eq!(
        parse_capture(&skipped).unwrap_err(),
        "line 2: sequence 1 expected 0"
    );
    let twice = format!(
        "{HEADER}{}{}",
        record("\"type\":\"session_stopped\",\"sequence\":0,\"offset_us\":1"),
        record("\"type\":\"session_stopped\",\"sequence\":1,\"offset_us\":2")
    );
    assert_eq!(
        parse_capture(&twice).unwrap_err(),
        "line 3: duplicate session_stopped event"
    );
    let after = format!(
        "{HEADER}{}{}",
        record("\"type\":\"session_stopped\",\"sequence\":0,\"offset_us\":1"),
        record("\"type\":\"shutdown_requested\",\"sequence\":1")
    );
    assert_eq!(
        parse_capture(&after).unwrap_err(),
        "line 3: event follows session_stopped"
    );
    let lowercase = format!(
        "{HEADER}{}",
        record("\"type\":\"support_discovery\",\"sequence\":0,\"request_payload\":\"01 0c\",\"response_payload\":\"\"")
    );
    assert_eq!(
        parse_capture(&lowercase).unwrap_err(),
        "line 2: hex payload must use uppercase digits"
    );
    let slow = format!(
        "{HEADER}{}",
        record("\"type\":\"read_succeeded\",\"sequence\":0,\"semantic\":\"engine.rpm\",\"requested_interval_us\":1,\"due_us\":10,\"started_us\":5,\"finished_us\":30,\"request_payload\":\"\",\"response_payload\":\"\",\"value\":{\"type\":\"text\",\"value\":\"x\"},\"unit\":\"\",\"source\":\"\",\"profile\":\"\",\"decoder\":\"\",\"provenance\":\"\"")
    );
    assert_eq!(
        parse_capture(&slow).unwrap_err(),
        "line 2: non-monotonic read timing"
    );
    let negative = format!(
        "{HEADER}{}",
        record("\"type\":\"session_stopped\",\"sequence\":0,\"offset_us\":-1")
    );
    assert_eq!(
        parse_capture(&negative).unwrap_err(),
        "line 2: field offset_us must be an integer"
    );
    let unknown = format!("{HEADER}{}", record("\"type\":\"teleport\",\"sequence\":0"));
    assert_eq!(
        parse_capture(&unknown).unwrap_err(),
        "line 2: unknown capture event type \"teleport\""
    );
    let broken = format!("{HEADER}{{\"schema\":");
    assert!(parse_capture(&broken).unwrap_err().starts_with("line 2: "));
}

fn writer_events() -> Vec<CaptureEvent> {
    vec![
        CaptureEvent::capture_started(Some(1_700_000_000_000), Some("engine-baseline".into())),
        CaptureEvent::SessionInitialized,
        CaptureEvent::subscription_configured("engine.rpm".into(), 250_000, SubscriptionFilterOutcome::Scheduled),
        CaptureEvent::support_discovery(vec![0x01, 0x00], vec![0x41, 0x00, 0x80, 0x00, 0x00, 0x01]),
        CaptureEvent::ReadSucceeded {
            semantic: "engine.rpm".into(),
            requested_interval_us: 250_000,
            due_us: 10,
            started_us: 12,
            finished_us: 15,
            request_payload: vec![0x01, 0x0c],
            response_payload: vec![0x41, 0x0c, 0x1a, 0xf8],
            value: CaptureValue::Number { numeral: "1726".into() },
            unit: "rpm".into(),
            source: "user".into(),
            profile: "obd2-v1".into(),
            decoder: "((A * 256) + B) / 4".into(),
            provenance: "SAE J1979 Mode 01 PID 0C".into(),
        },
        CaptureEvent::ReadFailed {
            semantic: "engine.rpm".into(),
            requested_interval_us: 250_000,
            timing: Some(ReadTiming::new(20, 21, 22)),
            request_payload: Some(vec![0x01, 0x0c]),
            error: "timeout\nline".into(),
        },
        CaptureEvent::slots_skipped("engine.rpm".into(), 2, 30, 280_000),
        CaptureEvent::SessionError { error: "session stopped".into() },
        CaptureEvent::ShutdownRequested,
        CaptureEvent::SessionStopped { offset_us: 300_000 },
    ]
}

fn written(events: &[CaptureEvent]) -> String {
    let mut contents = header_line();
    for (sequence, event) in events.iter().enumerate() {
        contents.push_str(&event_line(sequence as u64, event).unwrap());
    }
    contents
}

#[test]
fn round_trips_every_capture_event_variant_and_preserves_order() {
    let expected = writer_events();
    let parsed = parse_capture(&written(&expected)).unwrap();
    assert!(parsed.status == CaptureStatus::Complete);
    assert!(parsed.events == expected);
    assert_eq!(
        parsed.events.iter().enumerate().map(|(index, _)| index as u64).collect::<Vec<_>>(),
        (0..expected.len() as u64).collect::<Vec<_>>()
    );
}

#[test]
fn preserves_each_subscription_filter_outcome() {
    let expected = vec![
        CaptureEvent::subscription_configured("engine.rpm".into(), 250_000, SubscriptionFilterOutcome::Scheduled),
        CaptureEvent::subscription_configured("engine.maf".into(), 500_000, SubscriptionFilterOutcome::Unsupported),
        CaptureEvent::subscription_configured("engine.load".into(), 500_000, SubscriptionFilterOutcome::Unknown),
    ];
    let contents = written(&expected);
    assert!(parse_capture(&contents).unwrap().events == expected);
    assert!(contents.contains("\"filter_outcome\":\"scheduled\""));
    assert!(contents.contains("\"filter_outcome\":\"unsupported\""));
    assert!(contents.contains("\"filter_outcome\":\"unknown\""));
}

#[test]
fn emits_deterministic_header_hex_and_sequence_bytes() {
    let contents = written(&[CaptureEvent::support_discovery(vec![0x01, 0xab], vec![0x41, 0x00, 0x00, 0xff])]);
    assert_eq!(
        contents,
        "{\"schema\":\"OBDENTIC-CAPTURE\",\"version\":1,\"type\":\"header\"}\n{\"schema\":\"OBDENTIC-CAPTURE\",\"version\":1,\"type\":\"support_discovery\",\"sequence\":0,\"request_payload\":\"01 AB\",\"response_payload\":\"41 00 00 FF\"}\n"
    );
}

#[test]
fn closes_by_draining_queued_events_and_accepts_partial_files() {
    let events: Vec<CaptureEvent> = writer_events().into_iter().take(3).collect();
    let parsed = parse_capture(&written(&events)).unwrap();
    assert!(parsed.status == CaptureStatus::Partial);
    assert_eq!(parsed.events.len(), 3);
}

#[test]
fn strings_are_escaped_and_unrecorded_events_are_refused() {
    let line = event_line(4, &CaptureEvent::SessionError { error: "a\"b\\c\u{1}\t".into() }).unwrap();
    assert_eq!(
        line,
        "{\"schema\":\"OBDENTIC-CAPTURE\",\"version\":1,\"type\":\"session_error\",\"sequence\":4,\"error\":\"a\\\"b\\\\c\\u0001\\t\"}\n"
    );
    assert_eq!(
        event_line(0, &CaptureEvent::diagnostic_job_cancelled("dtc.scan".into())).unwrap_err(),
        "capture event is not recorded in JSONL"
    );
    let bad_number = CaptureEvent::ReadSucceeded {
        semantic: "engine.rpm".into(),
        requested_interval_us: 1,
        due_us: 1,
        started_us: 1,
        finished_us: 1,
        request_payload: vec![],
        response_payload: vec![],
        value: CaptureValue::Number { numeral: "NaN".into() },
        unit: "rpm".into(),
        source: "user".into(),
        profile: "p".into(),
        decoder: "d".into(),
        provenance: "p".into(),
    };
    assert_eq!(event_line(0, &bad_number).unwrap_err(), "capture value cannot be NaN or infinite");
}
