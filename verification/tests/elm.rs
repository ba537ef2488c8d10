use obdentic::elm::{
    normalize_mode01, normalize_mode01_responses, normalize_pid_support_page, require_response,
    PidSupport, ResponderIdentity, SignalSupportStatus, TargetedReadRequest,
};
use obdentic::signals::prepare_read;
use obdentic::topology::{AddressingContext, Protocol, ProtocolContext, RequestAddress, RequestTarget};

fn supports_pid(support: &PidSupport, pid: u8) -> bool {
    support.supports_pid(pid)
}

#[test]
fn normalizes_prompt_terminated_rpm_response() {
    assert_eq!(
        normalize_mode01("010C\r410C1AF8\r>", 0x0c, 2),
        Ok(vec![0x41, 0x0c, 0x1a, 0xf8])
    );
    assert_eq!(
        normalize_mode01(
            "04 41 0C 00 00 00 00 00\r04 41 0C 00 00 AA AA AA\r>",
            0x0c,
            2
        ),
        Ok(vec![0x41, 0x0c, 0x00, 0x00])
    );
    assert_eq!(
        normalize_mode01("SEARCHING...\r064100BE3EB813\r>", 0x00, 4),
        Ok(vec![0x41, 0x00, 0xbe, 0x3e, 0xb8, 0x13])
    );
}

#[test]
fn accepts_carly_targeted_rpm_frame_with_length_prefixed_55_padding() {
    let responses =
        normalize_mode01_responses("7E8 04 41 0C 00 00 55 55 55\r>", 0x0c, 2).unwrap();

    assert_eq!(responses.as_slice().len(), 1);
    assert_eq!(responses.as_slice()[0].payload, [0x41, 0x0c, 0x00, 0x00]);
    assert_eq!(
        responses.as_slice()[0].responder,
        Some(ResponderIdentity::ElmHeader("7E8".into()))
    );
}

#[test]
fn rejects_55_padding_without_length_prefix() {
    let error = normalize_mode01_responses("7E8 41 0C 00 00 55\r>", 0x0c, 2).unwrap_err();

    assert!(error.contains("unexpected bytes after OBD-II response"));
}

#[test]
fn preserves_elm_header_identity_without_calling_it_a_can_id() {
    let responses = normalize_mode01_responses(
        "7E8 04 41 0C 00 00 00 00\r7E9 04 41 0C 00 00 AA AA\r>",
        0x0c,
        2,
    )
    .unwrap();
    assert_eq!(responses.as_slice()[0].payload, [0x41, 0x0c, 0x00, 0x00]);
    assert_eq!(
        responses.as_slice()[0].responder,
        Some(ResponderIdentity::ElmHeader("7E8".into()))
    );
    assert_eq!(
        responses.as_slice()[1].responder,
        Some(ResponderIdentity::ElmHeader("7E9".into()))
    );
    assert!(
        normalize_mode01("7E8 04 41 0C 00 00\r7E9 04 41 0C 00 04\r>", 0x0c, 2)
            .unwrap_err()
            .contains("responders: 7E8, 7E9")
    );
}

#[test]
fn accepts_duplicate_payloads_but_selects_only_a_matching_responder() {
    let responses =
        normalize_mode01_responses("7E8 04 41 0C 00 00\r7E9 04 41 0C 00 00\r>", 0x0c, 2)
            .unwrap();
    assert_eq!(responses.as_slice().len(), 2);
    assert_eq!(
        responses
            .select(&ResponderIdentity::ElmHeader("7E9".into()))
            .unwrap(),
        [0x41, 0x0c, 0x00, 0x00]
    );
    assert!(responses
        .select(&ResponderIdentity::ElmHeader("7EA".into()))
        .is_err());
}

#[test]
fn preserves_multi_byte_elm_headers_when_the_length_prefix_is_present() {
    let responses = normalize_mode01_responses("48 6B 10 04 41 0C 00 00\r>", 0x0c, 2).unwrap();
    assert_eq!(
        responses.as_slice()[0].responder,
        Some(ResponderIdentity::ElmHeader("48 6B 10".into()))
    );
}

#[test]
fn rejects_malformed_elm_header_explicitly() {
    assert!(normalize_mode01_responses("7XZ 04 41 0C 00 00\r>", 0x0c, 2)
        .unwrap_err()
        .contains("responder header"));
}

#[test]
fn rejects_missing_or_truncated_rpm_response() {
    assert!(normalize_mode01("NO DATA\r>", 0x0c, 2).is_err());
    assert!(normalize_mode01("STOPPED\r>", 0x0c, 2).is_err());
    assert!(normalize_mode01("?\r>", 0x0c, 2).is_err());
    assert!(normalize_mode01("410C00\r>", 0x0c, 2).is_err());
    assert!(normalize_mode01("410C0000\r410C0004\r>", 0x0c, 2).is_err());
    assert!(normalize_mode01("7F0111\r>", 0x0c, 2).is_err());
    assert!(normalize_mode01("037F0111\r410C0000\r>", 0x0c, 2).is_err());
    assert!(normalize_mode01("41 0C ZZ 00\r>", 0x0c, 2).is_err());
    assert!(require_response("OK\rERROR\r>", "OK", true, "command failed").is_err());
    assert!(require_response("NOT-EXPECTED\r>", "EXPECTED", false, "identity").is_err());
}

#[test]
fn mode01_support_bitmap_gates_target_pids() {
    let response = [0x41, 0x00, 0x08, 0x18, 0x00, 0x00];
    let support = PidSupport {
        pages: vec![u32::from_be_bytes(response[2..].try_into().unwrap())],
        discovery: Vec::new(),
    };
    assert!(supports_pid(&support, 0x05));
    assert!(supports_pid(&support, 0x0c));
    assert!(supports_pid(&support, 0x0d));
    assert!(!supports_pid(&support, 0x10));
    assert!(!supports_pid(&support, 0x00));

    let combined = normalize_pid_support_page("410008180000\r410000010000\r>", 0x00).unwrap();
    assert_eq!(combined, [0x41, 0x00, 0x08, 0x19, 0x00, 0x00]);
    let combined = PidSupport {
        pages: vec![u32::from_be_bytes(combined[2..].try_into().unwrap())],
        discovery: Vec::new(),
    };
    assert!(supports_pid(&combined, 0x05));
    assert!(supports_pid(&combined, 0x10));
}

#[test]
fn targeted_request_cannot_escape_the_read_allowlist_or_address_namespace() {
    let request = prepare_read("engine.rpm").unwrap();
    let context = ProtocolContext::new(Protocol::Obd2, AddressingContext::Physical);
    assert!(TargetedReadRequest::new(
        request,
        RequestTarget::functional(context.clone()),
        ResponderIdentity::ElmHeader("7E8".into()),
    )
    .is_err());
    assert!(TargetedReadRequest::new(
        request,
        RequestTarget::concrete(context, RequestAddress::new("raw-can", "7E0")),
        ResponderIdentity::ElmHeader("7E8".into()),
    )
    .is_err());
    assert!(prepare_read("dtc.clear").is_err());
}

#[test]
fn targeted_request_keeps_an_upper_case_expected_responder() {
    let request = prepare_read("engine.rpm").unwrap();
    let context = ProtocolContext::new(Protocol::Obd2, AddressingContext::Physical);
    let targeted = TargetedReadRequest::new(
        request,
        RequestTarget::concrete(context, RequestAddress::new("elm-header", "7E0")),
        ResponderIdentity::ElmHeader("7e8".into()),
    )
    .unwrap();
    assert_eq!(targeted.expected_responder().as_str(), "7E8");
    assert!(require_response("ELM327 v1.5\r>", "ELM327", false, "identity").is_ok());
    assert_eq!(
        PidSupport { pages: Vec::new(), discovery: Vec::new() }.status(0x0c),
        SignalSupportStatus::Unknown
    );
}

#[test]
fn mode01_failures_carry_the_line_or_the_answer() {
    assert_eq!(
        normalize_mode01_responses("7E8 04 41 0C 1A F\r>", 0x0c, 2),
        Err("malformed ELM327 response line: \"7E8 04 41 0C 1A F\"".into())
    );
    assert_eq!(
        normalize_mode01_responses("7E8 03 7F 01 12\r>", 0x0c, 2),
        Err("negative OBD-II response: 7E8 03 7F 01 12".into())
    );
    assert_eq!(
        normalize_mode01_responses("SEARCHING...\r>", 0x0c, 2),
        Err("010C response not found in \"SEARCHING...\\r>\"".into())
    );
    assert_eq!(
        require_response("?\r>", "OK", true, "ATZ failed"),
        Err("ATZ failed: \"?\\r>\"".into())
    );
}
