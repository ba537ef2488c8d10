use obdentic::audit::{AuditEntry, AuditState};
use obdentic::capture_events::ResponderEvidence;
use obdentic::signals::{prepare_read, Transaction};

fn transaction(timestamp_ms: u128, response: Vec<u8>) -> Transaction {
    prepare_read("engine.rpm")
        .unwrap()
        .complete("user", response)
        .unwrap()
        .with_timestamp_ms(timestamp_ms)
}

#[test]
fn preserves_chronological_entries_and_evicts_oldest() {
    let mut state = AuditState::new(2).unwrap();
    state.ingest(&transaction(1, vec![0x41, 0x0c, 0x00, 0x04]));
    state.ingest(&transaction(2, vec![0x41, 0x0c, 0x00, 0x08]));
    state.ingest(&transaction(3, vec![0x41, 0x0c, 0x00, 0x0c]));

    let entries = state.snapshot();
    assert_eq!(state.len(), 2);
    assert_eq!(
        entries
            .iter()
            .map(|entry| entry.timestamp_ms)
            .collect::<Vec<_>>(),
        [2, 3]
    );
}

#[test]
fn snapshots_source_semantic_and_raw_bytes() {
    let mut state = AuditState::new(1).unwrap();
    state.ingest(&transaction(42, vec![0x41, 0x0c, 0x1a, 0xf8]));

    assert_eq!(
        state.snapshot(),
        vec![AuditEntry {
            timestamp_ms: 42,
            source: "user".into(),
            semantic: "engine.rpm",
            request: vec![0x01, 0x0c],
            response: vec![0x41, 0x0c, 0x1a, 0xf8],
        }]
    );
}

#[test]
fn rejects_zero_capacity() {
    assert!(AuditState::new(0).is_err());
}

#[test]
fn preserves_all_responder_payloads_for_offline_inspection() {
    let mut state = AuditState::new(1).unwrap();
    state
        .ingest_responses(
            42,
            "engine.rpm",
            vec![0x01, 0x0c],
            vec![
                ResponderEvidence::new(Some("7E8".into()), vec![0x41, 0x0c, 0x1a, 0xf8]).unwrap(),
                ResponderEvidence::new(Some("7E9".into()), vec![0x41, 0x0c, 0x1a, 0xf4]).unwrap(),
            ],
            None,
            Some("ambiguous responders".into()),
        )
        .unwrap();

    let entries = state.response_snapshot();
    assert_eq!(entries.len(), 1);
    assert_eq!(entries[0].responses.len(), 2);
    assert_eq!(entries[0].selected_responder, None);
    assert_eq!(
        entries[0].selection_error.as_deref(),
        Some("ambiguous responders")
    );
}

#[test]
fn errors_are_audited_and_bounded_like_reads() {
    let mut state = AuditState::new(1).unwrap();
    assert!(state.is_empty());
    state.ingest(&transaction(1, vec![0x41, 0x0c, 0x00, 0x04]));
    state.record_error("timeout");
    let entries = state.snapshot();
    assert_eq!(entries.len(), 1);
    assert_eq!(entries[0].source, "error: timeout");
    assert_eq!(entries[0].semantic, "scheduler.error");
    assert!(entries[0].request.is_empty());
    assert!(state
        .ingest_responses(1, "engine.rpm", Vec::new(), Vec::new(), None, None)
        .is_err());
    assert!(state
        .ingest_responses(1, "engine.rpm", vec![0x01, 0x0c], Vec::new(), None, None)
        .is_err());
    assert!(state.response_snapshot().is_empty());
}

#[test]
fn completion_refuses_a_response_to_another_request() {
    let read = prepare_read("engine.rpm").unwrap();
    assert!(read.complete("user", vec![0x41, 0x0d, 0x00, 0x04]).is_err());
    assert!(read.complete("user", vec![0x41, 0x0c, 0x00]).is_err());
}
