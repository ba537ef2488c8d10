use obdentic::elm::{DiagnosticResponse, ResponderIdentity};
use obdentic::elm_mode03::normalize_mode03_responses;

#[test]
fn normalizes_stored_dtc_responses_and_accepts_no_dtcs() {
    let responses =
        normalize_mode03_responses("03\r7E8 03 43 01 0C\r7E9 05 43 00 00 00 00\r>").unwrap();

    assert_eq!(responses.errors(), &[]);
    assert_eq!(responses.as_slice().len(), 2);
    assert_eq!(
        responses.as_slice()[0],
        DiagnosticResponse {
            responder: Some(ResponderIdentity::ElmHeader("7E8".into())),
            payload: vec![0x43, 0x01, 0x0c],
        }
    );
    assert_eq!(
        responses.as_slice()[1],
        DiagnosticResponse {
            responder: Some(ResponderIdentity::ElmHeader("7E9".into())),
            payload: vec![0x43, 0x00, 0x00, 0x00, 0x00],
        }
    );
}

#[test]
fn normalizes_compact_hardware_no_dtc_responses_per_responder() {
    let responses = normalize_mode03_responses(
        "7E8 02 43 00 00 00 00 00 00\r7E9 02 43 00 AA AA AA AA AA\r>",
    )
    .unwrap();

    assert!(responses.errors().is_empty());
    assert_eq!(
        responses
            .as_slice()
            .iter()
            .map(|response| (response.responder.clone(), response.payload.clone()))
            .collect::<Vec<_>>(),
        vec![
            (
                Some(ResponderIdentity::ElmHeader("7E8".into())),
                vec![0x43, 0x00]
            ),
            (
                Some(ResponderIdentity::ElmHeader("7E9".into())),
                vec![0x43, 0x00]
            ),
        ]
    );
}

#[test]
fn reassembles_mode03_iso_tp_frames_per_responder() {
    let responses = normalize_mode03_responses(
        "7E8 10 0B 43 01 0C 02 0D 00\r7E9 10 0B 43 00 00 00 00 00\r7E8 21 00 00 00 00 00 00 00\r7E9 21 00 00 00 00 00 00 00\r>",
    )
    .unwrap();

    assert_eq!(responses.errors(), &[]);
    assert_eq!(responses.as_slice().len(), 2);
    assert_eq!(
        responses.as_slice()[0],
        DiagnosticResponse {
            responder: Some(ResponderIdentity::ElmHeader("7E8".into())),
            payload: vec![0x43, 0x01, 0x0c, 0x02, 0x0d, 0, 0, 0, 0, 0, 0],
        }
    );
    assert_eq!(
        responses.as_slice()[1],
        DiagnosticResponse {
            responder: Some(ResponderIdentity::ElmHeader("7E9".into())),
            payload: vec![0x43, 0, 0, 0, 0, 0, 0, 0, 0, 0, 0],
        }
    );
}

#[test]
fn rejects_mode03_iso_tp_sequence_and_truncation_errors() {
    let sequence =
        normalize_mode03_responses("7E8 10 0B 43 01 0C 02 0D 00\r7E8 22 00 00\r>").unwrap();
    assert!(sequence.is_empty());
    assert_eq!(sequence.errors().len(), 1);
    assert!(sequence.errors()[0].error.contains("sequence mismatch"));

    let truncated = normalize_mode03_responses("7E8 10 0B 43 01 0C 02 0D 00\r>").unwrap();
    assert!(truncated.is_empty());
    assert_eq!(truncated.errors().len(), 1);
    assert!(truncated.errors()[0].error.contains("truncated"));
}

#[test]
fn does_not_mix_interleaved_mode03_responders() {
    let responses = normalize_mode03_responses(
        "7E8 10 0B 43 01 0C 02 0D 00\r7E9 21 00 00 00 00 00 00 00\r7E8 21 00 00 00 00 00 00 00\r>",
    )
    .unwrap();

    assert_eq!(responses.as_slice().len(), 1);
    assert_eq!(
        responses.as_slice()[0].responder,
        Some(ResponderIdentity::ElmHeader("7E8".into()))
    );
    assert_eq!(responses.errors().len(), 1);
    assert_eq!(
        responses.errors()[0].responder,
        Some(ResponderIdentity::ElmHeader("7E9".into()))
    );
    assert!(responses.errors()[0].error.contains("without first frame"));
}

#[test]
fn retains_valid_responder_payloads_when_another_line_is_malformed() {
    let responses =
        normalize_mode03_responses("7E8 03 43 01 0C\r7E9 03 43 01\r7EA ERROR\r>").unwrap();

    assert_eq!(responses.as_slice().len(), 2);
    assert_eq!(
        responses.as_slice()[0].responder,
        Some(ResponderIdentity::ElmHeader("7E8".into()))
    );
    assert_eq!(responses.as_slice()[0].payload, [0x43, 0x01, 0x0c]);
    assert_eq!(
        responses.as_slice()[1].responder,
        Some(ResponderIdentity::ElmHeader("7E9".into()))
    );
    assert_eq!(responses.as_slice()[1].payload, [0x43, 0x01]);
    assert_eq!(responses.errors().len(), 2);
    assert_eq!(
        responses.errors()[0].responder,
        Some(ResponderIdentity::ElmHeader("7E9".into()))
    );
    assert_eq!(
        responses.errors()[1].responder,
        Some(ResponderIdentity::ElmHeader("7EA".into()))
    );
}

#[test]
fn exposes_an_empty_mode03_response_as_recoverable_error() {
    let responses = normalize_mode03_responses("03\r>").unwrap();

    assert!(responses.is_empty());
    assert_eq!(responses.errors().len(), 1);
    assert_eq!(responses.errors()[0].responder, None);
}

#[test]
fn keeps_bytes_before_a_malformed_token() {
    let responses = normalize_mode03_responses("7E8 03 43 01 0C ZZ\r>").unwrap();
    assert_eq!(responses.as_slice().len(), 1);
    assert_eq!(responses.as_slice()[0].payload, [0x43, 0x01, 0x0c]);
    assert_eq!(responses.errors().len(), 1);
    assert!(responses.errors()[0]
        .error
        .starts_with("malformed ELM327 Mode 03 response line: "));
}

#[test]
fn reports_malformed_first_frame_counts_and_positive_response_absence() {
    let first = normalize_mode03_responses("7E8 10 02 43 01\r>").unwrap();
    assert_eq!(
        first.errors()[0].error,
        "malformed Mode 03 first frame: declared 2 bytes, received 2"
    );
    let missing = normalize_mode03_responses("7E8 47 01 0C\r>").unwrap();
    assert_eq!(missing.as_slice()[0].payload, [0x47, 0x01, 0x0c]);
    assert!(missing.errors()[0]
        .error
        .starts_with("Mode 03 positive response not found: "));
    let odd = normalize_mode03_responses("43 01 0C 02\r>").unwrap();
    assert_eq!(odd.as_slice()[0].payload, [0x43, 0x01, 0x0c, 0x02]);
    assert!(odd.errors()[0]
        .error
        .starts_with("malformed normalized Mode 03 payload: "));
}

#[test]
fn mode03_issue_messages_quote_the_line_or_write_the_counts() {
    let line = normalize_mode03_responses("7E8 03 43 0G\r>").unwrap();
    assert_eq!(
        line.errors()[0].error,
        "malformed ELM327 Mode 03 response line: \"7E8 03 43 0G\""
    );
    let sequence = normalize_mode03_responses("7E8 10 08 43 03 01 0C 01\r7E8 22 0D 01 0E\r>").unwrap();
    assert_eq!(sequence.errors()[0].error, "Mode 03 sequence mismatch: expected 1, got 2");
    let rejected = normalize_mode03_responses("NO DATA\r>").unwrap();
    assert_eq!(rejected.errors()[0].error, "ELM327 rejected Mode 03 response: NO DATA");
}
