use obdentic::elm_read::{first_read_evidence, retried_read_evidence};
use obdentic::elm::{normalize_mode01_responses, ResponderIdentity};
use obdentic::elm_read::{
    decide_first_read, retry_answer_failure, retry_exchange_failure, FirstReadDecision,
    combine_setup_errors, merge_response_attempts, normalize_stale_mode01_responses, obd_command,
    should_retry_stale_mode01_response, should_retry_stale_uds_response, targeted_payload,
    uds_command,
};
use obdentic::elm_uds::normalize_uds_responses;
use obdentic::signals::prepare_read;

#[test]
fn commands_are_upper_case_hex_with_a_carriage_return() {
    assert_eq!(obd_command(prepare_read("engine.rpm").unwrap()), "010C\r");
    assert_eq!(uds_command([0x22, 0xf1, 0x89]), "22F189\r");
}

#[test]
fn a_complete_answer_to_another_pid_is_kept_as_stale() {
    let responses = normalize_stale_mode01_responses("7E8 03 41 0D 32 00 00 00\r>", 0x0c).unwrap();
    assert_eq!(responses.as_slice().len(), 1);
    assert_eq!(responses.as_slice()[0].payload, [0x41, 0x0d, 0x32]);
    assert_eq!(
        responses.as_slice()[0].responder,
        Some(ResponderIdentity::ElmHeader("7E8".into()))
    );
    assert!(responses.errors()[0].error.starts_with(
        "stale unrelated OBD-II Mode 01 response from responder 7E8 while awaiting 010C: "
    ));
    assert!(should_retry_stale_mode01_response(&responses, 0x0c));
    assert!(!should_retry_stale_mode01_response(&responses, 0x0d));
}

#[test]
fn anything_less_definite_than_a_stale_answer_fails() {
    assert!(normalize_stale_mode01_responses("7E8 03 41 0C 1A 00 00 00\r>", 0x0c)
        .unwrap_err()
        .starts_with("010C response not found in "));
    assert!(normalize_stale_mode01_responses("7E8 03 41 0D 32 11\r>", 0x0c)
        .unwrap_err()
        .starts_with("010C response not found in "));
    assert_eq!(
        normalize_stale_mode01_responses("NO DATA\r>", 0x0c),
        Err("ELM327 rejected 010C: NO DATA".into())
    );
    assert!(normalize_stale_mode01_responses(">", 0x0c)
        .unwrap_err()
        .starts_with("010C response not found in "));
}

#[test]
fn only_ignored_mode01_answers_make_a_uds_retry() {
    let stale = normalize_uds_responses("7E8 06 41 00 98 3B A0 13 00\r>", 0xF189).unwrap();
    assert!(should_retry_stale_uds_response(&stale));
    let answered = normalize_uds_responses("7E8 05 62 F1 89 31 2E\r>", 0xF189).unwrap();
    assert!(!should_retry_stale_uds_response(&answered));
    let empty = normalize_uds_responses(">", 0xF189).unwrap();
    assert!(!should_retry_stale_uds_response(&empty));
}

#[test]
fn merged_attempts_keep_both_answers() {
    let first = normalize_uds_responses("7E8 06 41 00 98 3B A0 13 00\r>", 0xF189).unwrap();
    let retry = normalize_uds_responses("7E8 05 62 F1 89 31 2E\r>", 0xF189).unwrap();
    let merged = merge_response_attempts(first, retry);
    assert_eq!(merged.as_slice().len(), 1);
    assert_eq!(merged.errors().len(), 1);
    assert_eq!(
        merged.raw_response(),
        "7E8 06 41 00 98 3B A0 13 00\r>\n7E8 05 62 F1 89 31 2E\r>"
    );
}

#[test]
fn setup_errors_name_a_failed_restore() {
    assert_eq!(combine_setup_errors("setup failed".into(), Ok(())), "setup failed");
    assert_eq!(
        combine_setup_errors("setup failed".into(), Err("ATSP0 failed".into())),
        "setup failed; restoring functional addressing failed: ATSP0 failed"
    );
}

#[test]
fn targeted_reads_accept_only_the_expected_responder() {
    let expected = ResponderIdentity::ElmHeader("7E8".into());
    let good = normalize_uds_responses("7E8 05 62 F1 89 31 2E\r>", 0xF189).unwrap();
    assert_eq!(targeted_payload(&good, &expected), Ok(vec![0x62, 0xF1, 0x89, 0x31, 0x2E]));
    let other = normalize_uds_responses("7E9 05 62 F1 89 31 2E\r>", 0xF189).unwrap();
    assert_eq!(
        targeted_payload(&other, &expected),
        Err("unexpected responder 7E9 for targeted read; expected 7E8".into())
    );
    let silent = normalize_uds_responses(">", 0xF189).unwrap();
    assert_eq!(
        targeted_payload(&silent, &expected),
        Err("responder 7E8 did not answer".into())
    );
    let mixed = normalize_mode01_responses("7E8 04 41 0C 00 00\r7E8 04 41 0C 00 01\r>", 0x0c, 2).unwrap();
    assert_eq!(
        targeted_payload(&mixed, &expected),
        Err("conflicting responses from responder 7E8".into())
    );
}

#[test]
fn first_read_accepts_retries_or_fails() {
    let agreed = normalize_mode01_responses("7E8 04 41 0C 1A F8\r>", 0x0c, 2).unwrap();
    assert_eq!(
        decide_first_read(&agreed, 0x0c),
        FirstReadDecision::Accept(vec![0x41, 0x0c, 0x1a, 0xf8])
    );
    let conflicting =
        normalize_mode01_responses("7E8 04 41 0C 00 00\r7E9 04 41 0C 00 01\r>", 0x0c, 2).unwrap();
    assert!(matches!(
        decide_first_read(&conflicting, 0x0c),
        FirstReadDecision::Retry(error) if error.starts_with("conflicting 010C responses")
    ));
    let stale = normalize_stale_mode01_responses("7E8 03 41 0D 32 00 00 00\r>", 0x0c).unwrap();
    assert_eq!(
        decide_first_read(&stale, 0x0c),
        FirstReadDecision::Retry("010C response not found".into())
    );
}

#[test]
fn messages_name_the_exact_answer_and_responders() {
    let conflicting =
        normalize_mode01_responses("7E8 04 41 0C 00 00\r7E9 04 41 0C 00 01\r>", 0x0c, 2).unwrap();
    assert_eq!(
        decide_first_read(&conflicting, 0x0c),
        FirstReadDecision::Retry("conflicting 010C responses (responders: 7E8, 7E9)".into())
    );
    let stale = normalize_stale_mode01_responses("7E8 03 41 0D 32 00 00 00\r>", 0x0c).unwrap();
    assert_eq!(
        stale.errors()[0].error,
        "stale unrelated OBD-II Mode 01 response from responder 7E8 while awaiting 010C: \"7E8 03 41 0D 32 00 00 00\""
    );
    assert_eq!(
        normalize_stale_mode01_responses(">", 0x0c),
        Err("010C response not found in \">\"".into())
    );
}

#[test]
fn retry_failures_escape_both_raw_answers() {
    let first = normalize_stale_mode01_responses("7E8 03 41 0D 32 00 00 00\r>", 0x0c).unwrap();
    assert_eq!(
        retry_exchange_failure("010C response not found", &first, "timeout"),
        "010C response not found; first ELM response=7E8 03 41 0D 32 00 00 00\\r>; retry failed: timeout"
    );
    let retry = normalize_uds_responses("7E9 03 41 0D 33\r\n\t\u{e9}\"'>", 0xF189).unwrap();
    assert_eq!(
        retry_answer_failure("again", &first, &retry),
        "again; first ELM response=7E8 03 41 0D 32 00 00 00\\r>; retry ELM response=7E9 03 41 0D 33\\r\\n\\t\\u{e9}\\\"\\'>"
    );
}

#[test]
fn read_evidence_keeps_every_observation_around_a_retry() {
    let agreed = normalize_mode01_responses("7E8 04 41 0C 00 00\r7E9 04 41 0C 00 00\r>", 0x0c, 2).unwrap();
    let evidence = first_read_evidence(Ok(agreed), 0x0c).ok().unwrap();
    assert_eq!(evidence.payload, vec![0x41, 0x0c, 0x00, 0x00]);
    assert_eq!(evidence.observations.len(), 1);
    assert_eq!(evidence.observations[0].responses.len(), 2);
    assert_eq!(evidence.observations[0].selected_responder, None);
    assert_eq!(evidence.observations[0].selection_error, None);

    let failed = first_read_evidence(Err("no adapter".into()), 0x0c).err().unwrap();
    assert_eq!(failed.error, "no adapter");
    assert!(failed.observations.is_empty());

    let conflicting = normalize_mode01_responses("7E8 04 41 0C 00 00\r7E9 04 41 0C 00 01\r>", 0x0c, 2).unwrap();
    let error = conflicting.unambiguous_payload(0x0c).unwrap_err();
    let single = normalize_mode01_responses("7E8 04 41 0C 00 08\r>", 0x0c, 2).unwrap();
    let evidence = retried_read_evidence(&conflicting, error.clone(), Ok(single), 0x0c).ok().unwrap();
    assert_eq!(evidence.payload, vec![0x41, 0x0c, 0x00, 0x08]);
    assert_eq!(evidence.observations.len(), 2);
    assert_eq!(evidence.observations[0].selection_error, Some(error.clone()));
    assert_eq!(evidence.observations[1].selected_responder, Some("7E8".to_string()));
    assert_eq!(evidence.observations[1].selection_error, None);

    let gone = retried_read_evidence(&conflicting, error.clone(), Err("timeout".into()), 0x0c).err().unwrap();
    assert!(gone.error.starts_with(&error));
    assert!(gone.error.ends_with("; retry failed: timeout"));
    assert_eq!(gone.observations.len(), 1);
}
