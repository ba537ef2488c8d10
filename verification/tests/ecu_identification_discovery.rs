use obdentic::ecu_identification_discovery::{
    classify_diagnostic_responses, classify_normalized, not_probed, transport_failure,
    IdentificationResponseEvidence, IdentificationResultStatus, SESSION_ABORT_REASON,
};
use obdentic::elm_uds::normalize_uds_responses;
use obdentic::topology::{AddressingContext, Protocol, ProtocolContext, ResponderIdentity};

fn responder(value: &str) -> ResponderIdentity {
    ResponderIdentity::address(ProtocolContext::new(Protocol::Obd2, AddressingContext::Physical), value)
}

fn response(from: &ResponderIdentity, payload: &[u8]) -> IdentificationResponseEvidence {
    IdentificationResponseEvidence::new(Some(from.duplicate()), payload.to_vec())
}

fn status_of(
    expected: &ResponderIdentity,
    did: u16,
    responses: Vec<IdentificationResponseEvidence>,
) -> IdentificationResultStatus {
    match classify_normalized(expected, did, responses, Vec::new(), false, false) {
        Ok(observation) => observation.status(),
        Err(error) => panic!("{error}"),
    }
}

#[test]
fn heterogeneous_ecus_keep_support_independent() {
    let ecu_a = responder("7E8");
    let ecu_b = responder("7E9");
    let a_f188 = status_of(&ecu_a, 0xf188, vec![response(&ecu_a, &[0x62, 0xf1, 0x88, b'A'])]);
    let a_f189 = status_of(&ecu_a, 0xf189, vec![response(&ecu_a, &[0x7f, 0x22, 0x31])]);
    let b_f188 = status_of(&ecu_b, 0xf188, vec![response(&ecu_b, &[0x7f, 0x22, 0x31])]);
    let b_f189 = status_of(&ecu_b, 0xf189, vec![response(&ecu_b, &[0x62, 0xf1, 0x89, b'B'])]);
    assert_eq!(a_f188, IdentificationResultStatus::Supported);
    assert_eq!(a_f189, IdentificationResultStatus::Unsupported);
    assert_eq!(b_f188, IdentificationResultStatus::Unsupported);
    assert_eq!(b_f189, IdentificationResultStatus::Supported);
    assert!(ecu_a != ecu_b);
}

#[test]
fn wrong_did_echo_is_malformed_and_nrc_context_is_explicit() {
    let ecu = responder("7E8");
    let wrong_did = classify_normalized(&ecu, 0xf189, vec![response(&ecu, &[0x62, 0xf1, 0x88, 0x01])], Vec::new(), false, false)
        .ok()
        .unwrap();
    let unavailable = classify_normalized(&ecu, 0xf189, vec![response(&ecu, &[0x7f, 0x22, 0x7f])], Vec::new(), false, false)
        .ok()
        .unwrap();
    assert_eq!(wrong_did.status(), IdentificationResultStatus::Malformed);
    assert_eq!(wrong_did.errors(), ["UDS response DID F188 does not match requested DID F189".to_string()]);
    assert_eq!(unavailable.status(), IdentificationResultStatus::Unavailable);
    assert_eq!(unavailable.nrc(), Some(0x7f));
}

#[test]
fn adapter_unavailable_without_nrc_remains_explicit() {
    let ecu = responder("7E8");
    let unavailable = classify_normalized(
        &ecu,
        0xf189,
        Vec::new(),
        vec!["ELM327 rejected UDS 22 response: NO DATA".into()],
        false,
        true,
    )
    .ok()
    .unwrap();
    assert_eq!(unavailable.status(), IdentificationResultStatus::Unavailable);
    assert_eq!(unavailable.nrc(), None);
    assert!(!unavailable.errors().is_empty());
}

#[test]
fn timeout_transport_error_and_not_probed_never_collapse() {
    let ecu = responder("7E8");
    let timeout = transport_failure(&ecu, 0xf189, "Carly response timed out: 22F189".into());
    let transport = transport_failure(&ecu, 0xf189, "Bluetooth notification stream failed".into());
    let skipped = not_probed(&ecu, 0xf189, SESSION_ABORT_REASON);
    assert_eq!(timeout.status(), IdentificationResultStatus::Timeout);
    assert_eq!(transport.status(), IdentificationResultStatus::TransportError);
    assert_eq!(skipped.status(), IdentificationResultStatus::NotProbed);
}

#[test]
fn answers_from_other_responders_conflicts_and_case_are_classified() {
    let ecu = responder("7e8");
    let other = responder("7E9");
    let supported = classify_normalized(
        &ecu,
        0xf189,
        vec![response(&other, &[0x7f, 0x22, 0x31]), response(&responder("7E8"), &[0x62, 0xf1, 0x89, 0x31, 0x2e])],
        Vec::new(),
        false,
        false,
    )
    .ok()
    .unwrap();
    assert_eq!(supported.status(), IdentificationResultStatus::Supported);
    assert_eq!(supported.value(), Some(&[0x31u8, 0x2e][..]));
    assert_eq!(supported.request_bytes(), [0x22, 0xf1, 0x89]);

    let only_other = classify_normalized(&ecu, 0xf189, vec![response(&other, &[0x62, 0xf1, 0x89, 0x01])], Vec::new(), false, false)
        .ok()
        .unwrap();
    assert_eq!(only_other.status(), IdentificationResultStatus::Malformed);
    assert_eq!(
        only_other.errors(),
        ["expected responder 7e8 did not provide a normalized ECU identification payload".to_string()]
    );

    let conflict = classify_normalized(
        &ecu,
        0xf189,
        vec![response(&ecu, &[0x62, 0xf1, 0x89, 0x01]), response(&ecu, &[0x62, 0xf1, 0x89, 0x02])],
        Vec::new(),
        false,
        false,
    )
    .ok()
    .unwrap();
    assert_eq!(conflict.status(), IdentificationResultStatus::Malformed);
    let framing = classify_normalized(&ecu, 0xf189, vec![response(&ecu, &[0x62, 0xf1, 0x89, 0x01])], Vec::new(), true, false)
        .ok()
        .unwrap();
    assert_eq!(framing.status(), IdentificationResultStatus::Malformed);
    let nothing = classify_normalized(&ecu, 0xf189, Vec::new(), Vec::new(), false, false).ok().unwrap();
    assert_eq!(nothing.status(), IdentificationResultStatus::Unavailable);
}

#[test]
fn adapter_answers_are_classified_through_their_responders() {
    let ecu = responder("7E8");
    let answers = normalize_uds_responses("7E8 06 62 F1 89 31 2E 30\r>", 0xf189).unwrap();
    let observation = classify_diagnostic_responses(&ecu, 0xf189, &answers).ok().unwrap();
    assert_eq!(observation.status(), IdentificationResultStatus::Supported);
    assert_eq!(observation.value(), Some(&[0x31u8, 0x2e, 0x30][..]));
    assert_eq!(observation.responses().len(), 1);
}

#[test]
fn an_adapter_refusal_is_unavailable_and_an_empty_answer_too() {
    let ecu = responder("7E8");
    let rejected = normalize_uds_responses("NO DATA\r>", 0xf189).unwrap();
    let observation = classify_diagnostic_responses(&ecu, 0xf189, &rejected).ok().unwrap();
    assert_eq!(observation.status(), IdentificationResultStatus::Unavailable);
    assert_eq!(observation.errors().len(), 2);
    let empty = normalize_uds_responses(">", 0xf189).unwrap();
    let observation = classify_diagnostic_responses(&ecu, 0xf189, &empty).ok().unwrap();
    assert_eq!(observation.status(), IdentificationResultStatus::Unavailable);
    assert_eq!(observation.errors()[0], "UDS 22 response not found");
}
