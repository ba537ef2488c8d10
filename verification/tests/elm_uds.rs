use obdentic::elm::ResponderIdentity;
use obdentic::elm_uds::normalize_uds_responses;

#[test]
fn ignores_stale_mode01_support_before_expected_uds_response() {
    let responses = normalize_uds_responses(
        "7E8 06 41 00 98 3B A0 13 00\r7E8 05 62 F1 89 31 2E 55 55\r>",
        0xF189,
    )
    .unwrap();

    assert_eq!(
        responses.as_slice()[0].payload,
        [0x62, 0xF1, 0x89, 0x31, 0x2E]
    );
    assert_eq!(
        responses.as_slice()[0].responder,
        Some(ResponderIdentity::ElmHeader("7E8".into()))
    );
    assert_eq!(responses.errors().len(), 1);
    assert!(responses.errors()[0]
        .error
        .contains("ignored unrelated OBD-II Mode 01 response from responder 7E8"));
    assert!(responses.raw_response().contains("41 00 98 3B A0 13"));
}

#[test]
fn persistent_mode01_response_remains_an_explicit_uds_failure() {
    let responses = normalize_uds_responses("7E8 06 41 00 98 3B A0 13 00\r>", 0xF189).unwrap();

    assert!(responses.as_slice().is_empty());
    assert_eq!(responses.errors().len(), 1);
    assert!(responses.errors()[0]
        .error
        .contains("ignored unrelated OBD-II Mode 01 response"));
    assert!(responses.raw_response().contains("41 00 98 3B A0 13"));
}

#[test]
fn normalizes_a_closed_uds_did_response_with_carly_padding() {
    let responses = normalize_uds_responses("7E8 05 62 11 4F 04 F8 55 55\r>", 0x114f).unwrap();
    assert_eq!(responses.as_slice().len(), 1);
    assert_eq!(
        responses.as_slice()[0].responder.as_ref().unwrap().as_str(),
        "7E8"
    );
    assert_eq!(
        responses.as_slice()[0].payload,
        [0x62, 0x11, 0x4f, 0x04, 0xf8]
    );
    assert!(responses.errors().is_empty());
}

#[test]
fn reassembles_a_multi_frame_uds_answer() {
    let responses = normalize_uds_responses(
        "22F190\r7E8 10 14 62 F1 90 57 56 57\r7E8 21 5A 5A 5A 31 4A 5A 58\r7E8 22 33 57 32 36 31 32 33\r>",
        0xF190,
    )
    .unwrap();
    assert!(responses.errors().is_empty());
    assert_eq!(responses.as_slice().len(), 1);
    let payload = &responses.as_slice()[0].payload;
    assert_eq!(payload.len(), 20);
    assert_eq!(payload[..3], [0x62, 0xF1, 0x90]);
    assert_eq!(payload[17..], [0x31, 0x32, 0x33]);
}

#[test]
fn reports_a_truncated_multi_frame_answer_with_its_partial_payload() {
    let responses =
        normalize_uds_responses("7E8 10 0A 62 F1 90 57 56 57\r>", 0xF190).unwrap();
    assert_eq!(responses.as_slice().len(), 1);
    assert_eq!(responses.as_slice()[0].payload, [0x62, 0xF1, 0x90, 0x57, 0x56, 0x57]);
    assert_eq!(responses.errors().len(), 1);
    assert!(responses.errors()[0]
        .error
        .starts_with("truncated UDS ISO-TP response: declared 10 bytes, received 6"));
}

#[test]
fn reports_sequence_mismatch_and_drops_the_assembly() {
    let responses = normalize_uds_responses(
        "7E8 10 0A 62 F1 90 57 56 57\r7E8 22 5A 5A 5A 31\r>",
        0xF190,
    )
    .unwrap();
    assert!(responses.as_slice().is_empty());
    assert_eq!(responses.errors().len(), 1);
    assert!(responses.errors()[0]
        .error
        .starts_with("UDS sequence mismatch: expected 1, got 2"));
}

#[test]
fn adapter_rejection_and_empty_answer_are_reported() {
    let rejected = normalize_uds_responses("NO DATA\r>", 0xF190).unwrap();
    assert!(rejected.as_slice().is_empty());
    assert_eq!(rejected.errors().len(), 1);
    assert!(rejected.errors()[0].error.starts_with("ELM327 rejected UDS 22 response: "));
    assert_eq!(rejected.errors()[0].responder, None);

    let empty = normalize_uds_responses(">", 0xF190).unwrap();
    assert!(empty.as_slice().is_empty());
    assert_eq!(empty.errors().len(), 1);
    assert_eq!(empty.errors()[0].error, "UDS 22 response not found");
}

#[test]
fn single_frame_problems_are_reported() {
    let truncated = normalize_uds_responses("7E8 05 62 F1 89\r>", 0xF189).unwrap();
    assert_eq!(truncated.as_slice()[0].payload, [0x62, 0xF1, 0x89]);
    assert!(truncated.errors()[0]
        .error
        .starts_with("truncated UDS single frame: declared 5 bytes, received 3"));

    let trailing = normalize_uds_responses("7E8 03 62 F1 89 12\r>", 0xF189).unwrap();
    assert_eq!(trailing.as_slice()[0].payload, [0x62, 0xF1, 0x89]);
    assert!(trailing.errors()[0]
        .error
        .starts_with("unexpected bytes after UDS single frame: "));

    let flow = normalize_uds_responses("7E8 30 00 00\r>", 0xF189).unwrap();
    assert!(flow.as_slice().is_empty());
    assert!(flow.errors()[0].error.starts_with("unexpected UDS flow-control frame: "));

    let header = normalize_uds_responses("7XZ 03 62 F1 89\r>", 0xF189).unwrap();
    assert!(header.errors()[0]
        .error
        .starts_with("malformed ELM327 UDS responder header: "));
}

#[test]
fn uds_issue_messages_quote_the_line_or_write_the_counts() {
    let header = normalize_uds_responses("7EZ 03 62 F1 89\r>", 0xF189).unwrap();
    assert_eq!(
        header.errors()[0].error,
        "malformed ELM327 UDS responder header: \"7EZ 03 62 F1 89\""
    );
    let truncated = normalize_uds_responses("7E8 10 0A 62 F1 89 31 2E 30\r>", 0xF189).unwrap();
    assert_eq!(
        truncated.errors()[0].error,
        "truncated UDS ISO-TP response: declared 10 bytes, received 6"
    );
    let empty = normalize_uds_responses(">", 0xF189).unwrap();
    assert_eq!(empty.errors()[0].error, "UDS 22 response not found");
}
