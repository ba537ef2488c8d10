use obdentic::dtc::{
    decode_mode03, decode_mode03_payload, DtcDecodeError, DtcResponse, DtcSystem,
    ResponderIdentity, ResponderIdentityError, ResponseEvidence,
};

fn responder(value: &str) -> ResponderIdentity {
    ResponderIdentity::new(value).unwrap()
}

fn response(value: Option<&str>, payload: &[u8]) -> ResponseEvidence {
    ResponseEvidence::new(value.map(responder), payload.to_vec())
}

#[test]
fn no_dtcs_is_explicit() {
    let result = decode_mode03(&[response(None, &[0x43, 0x00, 0x00])]);
    assert_eq!(result.observations().len(), 1);
    assert_eq!(result.observations()[0].response(), &DtcResponse::NoDtcs);
}

#[test]
fn decodes_one_stored_dtc() {
    let result = decode_mode03(&[response(Some("7E8"), &[0x43, 0x01, 0x0c])]);
    let observation = &result.observations()[0];
    assert_eq!(observation.source().responder().unwrap().as_str(), "7E8");
    assert_eq!(observation.response().dtcs()[0].to_string(), "P010C");
}

#[test]
fn decodes_and_sorts_multiple_dtcs() {
    let result = decode_mode03(&[response(
        Some("7E8"),
        &[0x43, 0x03, 0x00, 0x01, 0x0c, 0x40, 0x10],
    )]);
    let dtcs = result.observations()[0].response().dtcs();
    assert_eq!(
        dtcs.iter().map(|code| code.to_string()).collect::<Vec<_>>(),
        ["P010C", "P0300", "C0010"]
    );
}

#[test]
fn keeps_two_responders_separate() {
    let result = decode_mode03(&[
        response(Some("7E9"), &[0x43, 0x02, 0x01]),
        response(Some("7E8"), &[0x43, 0x01, 0x0c]),
    ]);
    assert_eq!(result.observations().len(), 2);
    assert_eq!(
        result.observations()[0]
            .source()
            .responder()
            .unwrap()
            .as_str(),
        "7E8"
    );
    assert_eq!(
        result.observations()[1]
            .source()
            .responder()
            .unwrap()
            .as_str(),
        "7E9"
    );
    assert_eq!(
        result.observations()[0].response().dtcs()[0].to_string(),
        "P010C"
    );
    assert_eq!(
        result.observations()[1].response().dtcs()[0].to_string(),
        "P0201"
    );
}

#[test]
fn malformed_and_unknown_stay_per_responder() {
    let result = decode_mode03(&[
        response(Some("7E8"), &[0x43, 0x01]),
        response(Some("7E9"), &[0x7f, 0x03, 0x11]),
    ]);
    assert!(matches!(
        result.observations()[0].response(),
        DtcResponse::Error(DtcDecodeError::MalformedResponse)
    ));
    assert!(matches!(
        result.observations()[1].response(),
        DtcResponse::Error(DtcDecodeError::UnknownResponse)
    ));
}

#[test]
fn ordering_does_not_depend_on_input_order() {
    let first = decode_mode03(&[
        response(Some("7E9"), &[0x43, 0x03, 0x00, 0x01, 0x0c]),
        response(Some("7E8"), &[0x43, 0x03, 0x00, 0x01, 0x0c]),
    ]);
    let second = decode_mode03(&[
        response(Some("7E8"), &[0x43, 0x01, 0x0c, 0x03, 0x00]),
        response(Some("7E9"), &[0x43, 0x01, 0x0c, 0x03, 0x00]),
    ]);
    assert!(first == second);
}

#[test]
fn responder_identity_is_trimmed_and_checked() {
    assert_eq!(responder("  7E8 \t").as_str(), "7E8");
    assert!(matches!(
        ResponderIdentity::new("   "),
        Err(ResponderIdentityError::Empty)
    ));
    assert!(matches!(
        ResponderIdentity::new("7E\u{7}8"),
        Err(ResponderIdentityError::ControlCharacter)
    ));
}

#[test]
fn marker_may_only_be_followed_by_padding() {
    let padded = decode_mode03_payload(&[0x43, 0x01, 0x0c, 0x00, 0x00, 0x00, 0x00]).unwrap();
    assert_eq!(padded.dtcs().len(), 1);
    assert_eq!(
        decode_mode03_payload(&[0x43, 0x00, 0x00, 0x01, 0x0c]),
        Err(DtcDecodeError::MalformedResponse)
    );
    assert_eq!(decode_mode03_payload(&[]), Err(DtcDecodeError::MalformedResponse));
    assert_eq!(decode_mode03_payload(&[0x43]), Err(DtcDecodeError::MalformedResponse));
}

#[test]
fn repeated_codes_are_reported_once() {
    let response = decode_mode03_payload(&[0x43, 0xc1, 0x23, 0x01, 0x0c, 0xc1, 0x23]).unwrap();
    let codes: Vec<String> = response.dtcs().iter().map(|code| code.to_string()).collect();
    assert_eq!(codes, ["P010C", "U0123"]);
    assert_eq!(response.dtcs()[1].system(), DtcSystem::Network);
    assert_eq!(response.dtcs()[1].number(), 0x0123);
    assert!(!response.is_no_dtcs());
}

#[test]
fn unknown_source_sorts_before_responders() {
    let result = decode_mode03(&[
        response(Some("7E8"), &[0x43, 0x00, 0x00]),
        ResponseEvidence::unknown(vec![0x43, 0x00, 0x00]),
    ]);
    assert!(result.observations()[0].source().responder().is_none());
    assert!(result.observations()[0].response().is_no_dtcs());
}
