use obdentic::adapter::{adapter_io_line, append_notification, MAX_RESPONSE};

#[test]
fn notification_framing_is_bounded_at_eight_kibibytes() {
    let mut response = Vec::new();
    assert!(!append_notification(&mut response, b"41 0C 00").unwrap());
    assert!(append_notification(&mut response, b" 00\r>").unwrap());
    assert_eq!(response, b"41 0C 00 00\r>");

    let mut oversized = vec![b'0'; MAX_RESPONSE];
    assert!(append_notification(&mut oversized, b"0").is_err());
}

#[test]
fn adapter_io_logging_is_optional_and_keeps_direction() {
    assert_eq!(adapter_io_line(false, "tx", "010C"), None);
    assert_eq!(
        adapter_io_line(true, "tx", "010C"),
        Some("adapter tx  010C".into())
    );
    assert_eq!(
        adapter_io_line(true, "rx", "410C0000\\r>"),
        Some("adapter rx  410C0000\\r>".into())
    );
}

#[test]
fn a_response_of_exactly_the_limit_is_still_framed() {
    let mut response = vec![b'0'; MAX_RESPONSE - 1];
    assert_eq!(append_notification(&mut response, b">"), Ok(true));
    assert_eq!(response.len(), MAX_RESPONSE);
}
