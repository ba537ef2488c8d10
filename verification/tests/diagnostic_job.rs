use obdentic::diagnostic_job::{
    DiagnosticJob, DiagnosticScope, EcuRole, EvidenceRef, JobError, JobId, JobKind, JobResult,
    JobStatus, JobStepKind, JobTarget, KnownResponder, KnownTarget, SafetyClass, SessionError,
    SkipReason, ScopeError, StepError, StepEvidence, StepOutcome, Termination, ResultError,
};

fn responders(values: &[&str]) -> Vec<KnownResponder> {
    values
        .iter()
        .map(|value| KnownResponder::new(value).unwrap())
        .collect()
}

fn evidence(value: &str) -> StepEvidence {
    StepEvidence::new(EvidenceRef::new(value).unwrap(), None)
}

#[test]
fn only_supported_job_id_has_stable_serialization() {
    assert_eq!(JobId::DtcScan.to_string(), "dtc.scan");
    assert_eq!(JobId::parse("dtc.scan"), Ok(JobId::DtcScan));
    assert_eq!(JobId::Ea189DpfProbe.to_string(), "ea189.dpf.probe");
    assert_eq!(JobId::parse("ea189.dpf.probe"), Ok(JobId::Ea189DpfProbe));
    assert_eq!(
        JobId::parse("dtc.clear"),
        Err(JobError::UnknownJobId("dtc.clear".into()))
    );
}

#[test]
fn ea189_dpf_probe_plan_is_bounded_to_the_known_engine() {
    let target = KnownTarget::new("validated-engine").unwrap();
    let plan = DiagnosticJob::ea189_dpf_probe(target).plan();
    assert_eq!(plan.id(), JobId::Ea189DpfProbe);
    assert_eq!(plan.steps().len(), 7);
    for (sequence, step) in plan.steps().iter().enumerate() {
        assert_eq!(step.sequence(), sequence);
        assert!(matches!(step.kind(), JobStepKind::ReadEa189Dpf(_)));
        assert!(matches!(
            step.target(),
            JobTarget::KnownEcu {
                role: EcuRole::Engine,
                target,
            } if target.as_str() == "validated-engine"
        ));
    }
}

#[test]
fn ea189_dpf_probe_job_rejects_non_engine_scopes() {
    assert_eq!(
        DiagnosticJob::try_new(JobKind::Ea189DpfProbe, DiagnosticScope::vehicle_wide()),
        Err(JobError::RequiresKnownEngineEcu)
    );
}

#[test]
fn responder_scope_is_sorted_and_not_a_scan() {
    let scope = DiagnosticScope::known_obd_responders(responders(&["ecu-b", "ecu-a"])).unwrap();
    let plan = DiagnosticJob::dtc_scan(scope).plan();
    assert_eq!(plan.steps().len(), 2);
    assert_eq!(plan.steps()[0].sequence(), 0);
    assert_eq!(plan.steps()[1].sequence(), 1);
    assert!(matches!(
        plan.steps()[0].target(),
        JobTarget::KnownObdResponder(value) if value.as_str() == "ecu-a"
    ));
    assert!(matches!(
        plan.steps()[1].target(),
        JobTarget::KnownObdResponder(value) if value.as_str() == "ecu-b"
    ));
}

#[test]
fn dtc_scan_plan_has_multiple_reads_without_read_activity() {
    let scope = DiagnosticScope::known_obd_responders(responders(&["one", "two"])).unwrap();
    let job = DiagnosticJob::dtc_scan(scope);
    let plan = job.plan();
    assert_eq!(job.kind(), JobKind::DtcScan);
    assert!(plan
        .steps()
        .iter()
        .all(|step| step.kind() == JobStepKind::ReadDtc));
}

#[test]
fn unknown_job_is_rejected_before_a_plan_exists() {
    let scope = DiagnosticScope::vehicle_wide();
    assert!(DiagnosticJob::from_id("readiness.scan", scope).is_err());
}

#[test]
fn unknown_ecu_scope_has_no_address_scan_shape() {
    let target = KnownTarget::new("evidenced-engine").unwrap();
    let plan =
        DiagnosticJob::dtc_scan(DiagnosticScope::known_ecu(EcuRole::Unknown, target)).plan();
    assert_eq!(plan.steps().len(), 1);
    assert!(matches!(
        plan.steps()[0].target(),
        JobTarget::KnownEcu { .. }
    ));
}

#[test]
fn recoverable_error_keeps_step_evidence() {
    let plan = DiagnosticJob::dtc_scan(
        DiagnosticScope::known_obd_responders(responders(&["one", "two"])).unwrap(),
    )
    .plan();
    let result = JobResult::from_outcomes(
        &plan,
        vec![
            StepOutcome::recoverable(StepError::Timeout, vec![evidence("first")]),
            StepOutcome::succeeded(vec![evidence("second")]),
        ],
        Termination::Completed,
    )
    .unwrap();
    assert_eq!(result.status(), JobStatus::CompletedWithErrors);
    assert_eq!(
        result.steps()[0].outcome().evidence()[0]
            .reference()
            .as_str(),
        "first"
    );
    assert_eq!(
        result.steps()[1].outcome().evidence()[0]
            .reference()
            .as_str(),
        "second"
    );
}

#[test]
fn fatal_session_error_stops_remaining_steps() {
    let plan = DiagnosticJob::dtc_scan(
        DiagnosticScope::known_obd_responders(responders(&["one", "two"])).unwrap(),
    )
    .plan();
    let result = JobResult::from_outcomes(
        &plan,
        vec![
            StepOutcome::succeeded(vec![evidence("first")]),
            StepOutcome::not_run(SkipReason::SessionFailed),
        ],
        Termination::SessionFailed(SessionError::Disconnected),
    )
    .unwrap();
    assert_eq!(result.status(), JobStatus::Failed);
    assert_eq!(result.session_error(), Some(&SessionError::Disconnected));
    assert_eq!(
        result.steps()[1].outcome(),
        &StepOutcome::NotRun {
            reason: SkipReason::SessionFailed
        }
    );
}

#[test]
fn cancellation_is_bounded_and_deterministic() {
    let plan = DiagnosticJob::dtc_scan(DiagnosticScope::vehicle_wide()).plan();
    let result = JobResult::from_outcomes(
        &plan,
        vec![StepOutcome::not_run(SkipReason::Cancelled)],
        Termination::Cancelled,
    )
    .unwrap();
    assert_eq!(result.status(), JobStatus::Cancelled);
    assert_eq!(result.steps().len(), 1);
}

#[test]
fn model_has_no_arbitrary_payload_step() {
    let plan = DiagnosticJob::dtc_scan(DiagnosticScope::vehicle_wide()).plan();
    assert_eq!(plan.steps()[0].kind(), JobStepKind::ReadDtc);
    assert_eq!(plan.safety(), SafetyClass::ReadOnly);
}

#[test]
fn outcome_shape_errors_are_reported_exactly() {
    let plan = DiagnosticJob::dtc_scan(
        DiagnosticScope::known_obd_responders(responders(&["one", "two"])).unwrap(),
    )
    .plan();
    assert_eq!(
        JobResult::from_outcomes(&plan, vec![StepOutcome::succeeded(vec![])], Termination::Completed),
        Err(ResultError::StepCountMismatch { expected: 2, actual: 1 })
    );
    assert_eq!(
        JobResult::from_outcomes(
            &plan,
            vec![
                StepOutcome::succeeded(vec![]),
                StepOutcome::not_run(SkipReason::Cancelled)
            ],
            Termination::Completed
        ),
        Err(ResultError::IncompleteCompletedJob)
    );
    assert_eq!(
        JobResult::from_outcomes(
            &plan,
            vec![StepOutcome::succeeded(vec![]), StepOutcome::succeeded(vec![])],
            Termination::Cancelled
        ),
        Err(ResultError::TerminalWithoutSkippedSteps)
    );
    assert_eq!(
        JobResult::from_outcomes(
            &plan,
            vec![
                StepOutcome::not_run(SkipReason::Cancelled),
                StepOutcome::succeeded(vec![])
            ],
            Termination::Cancelled
        ),
        Err(ResultError::InvalidSkippedSteps)
    );
    assert_eq!(
        JobResult::from_outcomes(
            &plan,
            vec![
                StepOutcome::succeeded(vec![]),
                StepOutcome::not_run(SkipReason::SessionFailed)
            ],
            Termination::Cancelled
        ),
        Err(ResultError::InvalidSkippedSteps)
    );
}

#[test]
fn responder_scopes_refuse_empty_and_repeated_sets() {
    assert_eq!(
        DiagnosticScope::known_obd_responders(Vec::new()),
        Err(ScopeError::EmptyResponderSet)
    );
    assert_eq!(
        DiagnosticScope::known_obd_responders(responders(&["7E8", "7E9", "7E8"])),
        Err(ScopeError::DuplicateResponder)
    );
    assert_eq!(KnownTarget::new("  "), Err(ScopeError::EmptyTarget));
    assert_eq!(KnownResponder::new("\t"), Err(ScopeError::EmptyResponder));
    assert_eq!(EcuRole::vendor_specific(" "), Err(ScopeError::EmptyRole));
    assert_eq!(EcuRole::vendor_specific("abs").unwrap().as_str(), "abs");
    assert_eq!(EcuRole::Engine.as_str(), "engine");
    assert_eq!(JobStatus::CompletedWithErrors.as_str(), "completed_with_errors");
}

#[test]
fn step_count_mismatch_message_writes_both_counts() {
    assert_eq!(
        ResultError::StepCountMismatch { expected: 12, actual: 7 }.message(),
        "job result has 7 steps; expected 12"
    );
    assert_eq!(
        ResultError::StepCountMismatch { expected: 0, actual: 100 }.message(),
        "job result has 100 steps; expected 0"
    );
}
