use obdentic::capture_events::CaptureEvent;
use obdentic::diagnostic_job::{
    DiagnosticJob, DiagnosticScope, JobResult, JobStatus, SessionError, SkipReason, StepError,
    StepOutcome, Termination,
};
use obdentic::capture_events::{
    validate_diagnostic_error, validate_diagnostic_job_id, validate_diagnostic_mode,
    validate_diagnostic_source, MAX_DIAGNOSTIC_SOURCE_LEN,
    CaptureSubscription, DiagnosticJobStepStatus, ReadTiming, ResponderEvidence,
    SubscriptionFilterOutcome,
};
use obdentic::signals::prepare_read;

#[test]
fn timing_is_integer_microseconds_and_monotonic() {
    let timing = ReadTiming::new(u64::MAX - 2, u64::MAX - 1, u64::MAX);
    assert!(timing.is_monotonic());
    assert_eq!(timing.due_us, u64::MAX - 2);
    assert_eq!(timing.started_us, u64::MAX - 1);
    assert_eq!(timing.finished_us, u64::MAX);
}

#[test]
fn event_model_only_maps_existing_read_requests() {
    let read = prepare_read("engine.rpm").unwrap();
    assert_eq!(read.bytes(), [0x01, 0x0c]);
    assert!(prepare_read("dtc.clear").is_err());
}

#[test]
fn non_monotonic_timing_is_detected() {
    assert!(!ReadTiming::new(5, 4, 6).is_monotonic());
    assert!(!ReadTiming::new(1, 3, 2).is_monotonic());
    assert!(ReadTiming::new(2, 2, 2).is_monotonic());
}

#[test]
fn responder_evidence_requires_a_payload() {
    assert_eq!(
        ResponderEvidence::new(Some("7E8".into()), Vec::new()),
        Err("responder evidence payload must not be empty".into())
    );
    let evidence = ResponderEvidence::new(None, vec![0x41, 0x0c]).unwrap();
    assert_eq!(evidence.responder, None);
    assert_eq!(evidence.payload, vec![0x41, 0x0c]);
}

#[test]
fn subscription_configuration_keeps_support_filter_outcome() {
    for outcome in [
        SubscriptionFilterOutcome::Scheduled,
        SubscriptionFilterOutcome::Unsupported,
        SubscriptionFilterOutcome::Unknown,
    ] {
        let subscription = CaptureSubscription::new("engine.rpm", 250_000, outcome);
        assert_eq!(subscription.semantic(), "engine.rpm");
        assert_eq!(subscription.requested_interval_us(), 250_000);
        assert_eq!(subscription.filter(), outcome);
    }
    assert_eq!(DiagnosticJobStepStatus::Recoverable.as_str(), "recoverable");
    assert_eq!(DiagnosticJobStepStatus::Skipped.as_str(), "skipped");
}

#[test]
fn diagnostic_text_is_bounded_and_printable() {
    assert!(validate_diagnostic_job_id("dtc.scan").is_ok());
    assert_eq!(
        validate_diagnostic_job_id(" "),
        Err("diagnostic job id must not be empty".into())
    );
    assert_eq!(
        validate_diagnostic_source(Some(&"x".repeat(MAX_DIAGNOSTIC_SOURCE_LEN + 1))),
        Err("diagnostic source exceeds 64 bytes".into())
    );
    assert_eq!(
        validate_diagnostic_error(Some("bad\u{7}error")),
        Err("diagnostic error must not contain control characters".into())
    );
    assert!(validate_diagnostic_error(None).is_ok());
    assert!(validate_diagnostic_mode(0x03).is_ok());
    assert_eq!(
        validate_diagnostic_mode(0),
        Err("diagnostic mode must be between 0x01 and 0x7F".into())
    );
}

#[test]
fn job_lifecycle_events_record_ids_counts_and_error_names_only() {
    let job = DiagnosticJob::dtc_scan(DiagnosticScope::vehicle_wide());
    let plan = job.plan();
    let started = CaptureEvent::diagnostic_job_started(&job);
    assert!(
        started
            == CaptureEvent::DiagnosticJobStarted {
                job_id: "dtc.scan".into(),
                model_version: plan.model_version(),
                step_count: plan.steps().len() as u64,
            }
    );
    let step = &plan.steps()[0];
    let recoverable = StepOutcome::recoverable(StepError::Timeout, vec![]);
    let event = CaptureEvent::diagnostic_job_step_outcome(&job, step, 0x03, None, &recoverable).unwrap();
    assert!(
        event
            == CaptureEvent::DiagnosticJobStep {
                job_id: "dtc.scan".into(),
                step_sequence: step.sequence() as u64,
                mode: 0x03,
                source: None,
                status: DiagnosticJobStepStatus::Recoverable,
                error: Some("timeout".into()),
            }
    );
    let cancelled = StepOutcome::not_run(SkipReason::Cancelled);
    let event = CaptureEvent::diagnostic_job_step_outcome(&job, step, 0x03, None, &cancelled).unwrap();
    assert!(matches!(
        event,
        CaptureEvent::DiagnosticJobStep { status: DiagnosticJobStepStatus::Skipped, .. }
    ));
    assert!(CaptureEvent::diagnostic_job_step_outcome(&job, step, 0x00, None, &cancelled).is_err());

    let failed = JobResult::from_outcomes(
        &plan,
        vec![StepOutcome::not_run(SkipReason::SessionFailed)],
        Termination::SessionFailed(SessionError::Disconnected),
    )
    .unwrap();
    assert_eq!(failed.status(), JobStatus::Failed);
    assert!(
        CaptureEvent::diagnostic_job_terminal(&failed).unwrap()
            == CaptureEvent::DiagnosticJobFailed { job_id: "dtc.scan".into(), error: "disconnected".into() }
    );
    assert_eq!(
        CaptureEvent::diagnostic_job_completed(&failed).unwrap_err(),
        "diagnostic job result is not completed: failed"
    );
    let done = JobResult::from_outcomes(
        &plan,
        vec![StepOutcome::succeeded(vec![])],
        Termination::Completed,
    )
    .unwrap();
    assert!(
        CaptureEvent::diagnostic_job_terminal(&done).unwrap()
            == CaptureEvent::DiagnosticJobCompleted { job_id: "dtc.scan".into(), status: JobStatus::Completed }
    );
    let stopped = JobResult::from_outcomes(
        &plan,
        vec![StepOutcome::not_run(SkipReason::Cancelled)],
        Termination::Cancelled,
    )
    .unwrap();
    assert!(
        CaptureEvent::diagnostic_job_terminal(&stopped).unwrap()
            == CaptureEvent::DiagnosticJobCancelled { job_id: "dtc.scan".into() }
    );
}

#[test]
fn steps_left_by_a_failed_session_are_recorded_as_skipped() {
    let job = DiagnosticJob::dtc_scan(DiagnosticScope::vehicle_wide());
    let plan = job.plan();
    let step = &plan.steps()[0];
    let outcome = StepOutcome::not_run(SkipReason::SessionFailed);
    let event = CaptureEvent::diagnostic_job_step_outcome(&job, step, 0x03, None, &outcome).unwrap();
    assert!(
        event
            == CaptureEvent::DiagnosticJobStep {
                job_id: "dtc.scan".into(),
                step_sequence: step.sequence() as u64,
                mode: 0x03,
                source: None,
                status: DiagnosticJobStepStatus::Skipped,
                error: Some("session_failed".into()),
            }
    );
}
