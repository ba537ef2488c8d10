use obdentic::elm_mode09::normalize_mode09_segments;
use obdentic::identity::decode_mode09_pid02;

#[test]
fn mode09_isotp_rejects_truncated_or_out_of_sequence_frames() {
    assert_eq!(
        normalize_mode09_segments("7E8 10 14 49 02 01 57 56 57\r>"),
        Err("truncated ISO-TP Mode 09 response".into())
    );
    assert_eq!(
        normalize_mode09_segments(
            "7E8 10 14 49 02 01 57 56 57\r7E8 22 5A 5A 5A 31 4A 5A 58\r>",
        ),
        Err("malformed ISO-TP Mode 09 consecutive frame".into())
    );
}

#[test]
fn mode09_isotp_answer_reassembles_into_one_segment() {
    let segments = normalize_mode09_segments(
        "0902\r7E8 10 14 49 02 01 57 56 57\r7E8 21 5A 5A 5A 31 4A 5A 58\r7E8 22 57 30 30 30 30 30 31\r>",
    )
    .unwrap();
    assert_eq!(segments.len(), 1);
    assert_eq!(segments[0].len(), 20);
    assert_eq!(segments[0][..3], [0x49, 0x02, 0x01]);
    let identity = decode_mode09_pid02(&segments).unwrap();
    assert_eq!(identity.vin().as_str(), "WVWZZZ1JZXW000001");
}

#[test]
fn mode09_single_frames_and_failures() {
    assert_eq!(
        normalize_mode09_segments("49 02 01 57 56 57\r>").unwrap(),
        vec![vec![0x49, 0x02, 0x01, 0x57, 0x56, 0x57]]
    );
    assert_eq!(
        normalize_mode09_segments(">"),
        Err("0902 response not found".into())
    );
    assert_eq!(
        normalize_mode09_segments("NO DATA\r>"),
        Err("ELM327 rejected 0902: NO DATA".into())
    );
    assert!(normalize_mode09_segments("7E8 4G\r>")
        .unwrap_err()
        .starts_with("malformed ELM327 Mode 09 response line: "));
    assert_eq!(
        normalize_mode09_segments("7E8 21 57 56\r>"),
        Err("Mode 09 consecutive frame without first frame".into())
    );
    assert_eq!(
        normalize_mode09_segments("7E8 10 02 49 02\r>"),
        Err("malformed ISO-TP Mode 09 first frame".into())
    );
    assert_eq!(
        normalize_mode09_segments("7E8 10 04 49 02 01\r7E8 21 57 58\r>"),
        Err("unexpected bytes after ISO-TP Mode 09 response".into())
    );
}

#[test]
fn mode09_line_failures_carry_the_line() {
    assert_eq!(
        normalize_mode09_segments("7E8 49 02 0G\r>"),
        Err("malformed ELM327 Mode 09 response line: \"7E8 49 02 0G\"".into())
    );
    assert_eq!(
        normalize_mode09_segments("STOPPED\r>"),
        Err("ELM327 rejected 0902: STOPPED".into())
    );
}
