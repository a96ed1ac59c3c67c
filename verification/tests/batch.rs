use agent_desktop_runtime::batch::{
    check_assertion, check_entry_count, check_input_size, check_semantic_step, coordinate_only, has_compound_metadata,
    needs_baseline, not_started_entries, output_limit_disposition, step_timeout, validate_pointer, BatchRun, CommandShape,
    EntryChecks, EntryStage,
    Delivery, DeliverySemantics, EntryResult, PlanError, Retry, Stop, StopPhase, StopReason, MAX_BATCH_ENTRIES, MAX_BATCH_JSON_BYTES,
};

#[test]
fn semantic_mode_rejects_coordinate_only_steps_before_side_effects() {
    assert_eq!(check_semantic_step(true, &CommandShape::MouseClick), Err(PlanError::CoordinateOnly));
    assert!(check_semantic_step(false, &CommandShape::MouseClick).is_ok());
    assert!(check_semantic_step(true, &CommandShape::Other).is_ok());
    assert!(coordinate_only(&CommandShape::Hover { has_ref: false }));
    assert!(!coordinate_only(&CommandShape::Hover { has_ref: true }));
    assert!(coordinate_only(&CommandShape::Drag { has_from: true, has_to: false }));
    assert!(!coordinate_only(&CommandShape::Drag { has_from: true, has_to: true }));
}

#[test]
fn invalid_nested_assertion_rejects_plan_before_any_side_effect() {
    assert_eq!(check_assertion("/cleared", true), Err(PlanError::MutatingAssertion));
    assert_eq!(check_assertion("cleared", false), Err(PlanError::InvalidPointer));
    assert!(check_assertion("", false).is_ok());
    assert!(check_assertion("/text", false).is_ok());
    assert!(validate_pointer(&format!("/{}", "x".repeat(255))).is_ok());
    assert_eq!(validate_pointer(&format!("/{}", "x".repeat(256))), Err(PlanError::InvalidPointer));
}

#[test]
fn plan_limits() {
    assert!(check_input_size(MAX_BATCH_JSON_BYTES).is_ok());
    assert_eq!(check_input_size(MAX_BATCH_JSON_BYTES + 1), Err(PlanError::InputTooLarge));
    assert!(check_entry_count(MAX_BATCH_ENTRIES).is_ok());
    assert_eq!(check_entry_count(MAX_BATCH_ENTRIES + 1), Err(PlanError::TooManyEntries));
    assert!(has_compound_metadata(Some(5), false, false));
    assert!(!has_compound_metadata(None, false, false));
    assert!(needs_baseline(Some(&CommandShape::Wait { waits_for_event: true, app: None })));
    assert!(!needs_baseline(Some(&CommandShape::Wait { waits_for_event: false, app: None })));
    assert!(!needs_baseline(None));
}

#[test]
fn condition_mismatch_prevents_mutation() {
    let mut run = BatchRun::new(1, true);
    assert_eq!(run.current(), Some(0));
    let disposition = run.condition_blocked();
    assert_eq!(disposition.delivery.as_str(), "not_delivered");
    assert_eq!(run.completed(), 0);
    assert_eq!(run.current(), None);
    assert_eq!(
        run.stopped(),
        Some(Stop { reason: StopReason::StopOnError, index: 0, phase: Some(StopPhase::Condition), wait_index: None })
    );
    assert_eq!(not_started_entries(run.total(), run.completed()), 1);
}

#[test]
fn verification_failure_is_distinct_and_never_replays_action() {
    let mut run = BatchRun::new(2, true);
    let disposition = run
        .dispatched(&EntryResult::VerificationFailed { reported: None }, true, false, false)
        .expect("the action's disposition");
    assert_eq!(disposition.delivery.as_str(), "delivered_unverified");
    assert_eq!(disposition.retry.as_str(), "unsafe");
    assert_eq!(run.completed(), 1);
    assert_eq!(run.current(), None);
    assert_eq!(
        run.stopped(),
        Some(Stop { reason: StopReason::StopOnError, index: 0, phase: Some(StopPhase::Verification), wait_index: None })
    );
}

#[test]
fn runs_continue_without_stop_on_error_and_stop_at_deadline() {
    let mut run = BatchRun::new(3, false);
    assert_eq!(run.session_ended(), DeliverySemantics::not_delivered());
    assert_eq!(run.current(), Some(1));
    assert_eq!(run.dispatched(&EntryResult::Failed, true, false, true), None);
    assert_eq!(run.stopped(), Some(Stop { reason: StopReason::DeadlineAfter, index: 1, phase: None, wait_index: None }));
    assert_eq!(run.completed(), 1);
    assert_eq!(not_started_entries(3, 1), 2);

    let mut run = BatchRun::new(2, false);
    assert_eq!(run.baseline_failed().retry, Retry::Safe);
    assert_eq!(
        run.stopped(),
        Some(Stop { reason: StopReason::PreActionBaselineFailed, index: 0, phase: None, wait_index: Some(1) })
    );

    let mut run = BatchRun::new(2, true);
    let reported = DeliverySemantics { delivery: Delivery::Delivered, retry: Retry::Unsafe };
    assert_eq!(run.dispatched(&EntryResult::Succeeded { reported: Some(reported) }, true, true, false), Some(reported));
    assert_eq!(run.stopped().map(|stop| stop.reason), Some(StopReason::OutputLimit));

    let mut run = BatchRun::new(1, true);
    assert_eq!(run.deadline_passed().delivery, Delivery::NotDelivered);
    assert_eq!(run.stopped().map(|stop| stop.reason), Some(StopReason::Deadline));
    assert_eq!(run.completed(), 0);
}

#[test]
fn legacy_batch_without_compound_metadata_keeps_old_surface() {
    let mut run = BatchRun::new(1, true);
    assert_eq!(
        run.dispatched(&EntryResult::Succeeded { reported: None }, false, false, false),
        Some(DeliverySemantics::not_delivered())
    );
    assert_eq!(run.stopped(), None);
    assert_eq!(run.current(), None);
    assert_eq!(not_started_entries(1, run.completed()), 0);
    assert_eq!(output_limit_disposition(0), DeliverySemantics::not_delivered());
    assert_eq!(output_limit_disposition(1), DeliverySemantics::uncertain());
}

#[test]
fn dispositions_follow_the_command_result() {
    let adapter = DeliverySemantics { delivery: Delivery::Uncertain, retry: Retry::Unsafe };
    let mut run = BatchRun::new(4, false);
    assert_eq!(run.dispatched(&EntryResult::AdapterFailed { disposition: adapter }, true, false, false), Some(adapter));
    assert_eq!(
        run.dispatched(&EntryResult::Succeeded { reported: None }, true, false, false),
        Some(DeliverySemantics::delivered_unverified())
    );
    let reported = DeliverySemantics { delivery: Delivery::Delivered, retry: Retry::Unsafe };
    assert_eq!(
        run.dispatched(&EntryResult::VerificationFailed { reported: Some(reported) }, true, false, false),
        Some(reported)
    );
    assert_eq!(run.stopped(), None);
    assert_eq!(run.completed(), 3);
    assert_eq!(DeliverySemantics::uncertain().delivery.as_str(), "uncertain");
    assert_eq!(Retry::Safe.as_str(), "safe");
}

#[test]
fn entry_stages_run_in_order_and_stop_before_the_command() {
    let all = EntryChecks { needs_baseline: true, has_session: true, has_condition: true };
    assert_eq!(EntryStage::first(0, all), EntryStage::DeadlinePassed);
    let stage = EntryStage::first(100, all);
    assert_eq!(stage, EntryStage::CaptureBaseline);
    assert_eq!(stage.next(all, false), EntryStage::BaselineFailed);
    let stage = stage.next(all, true);
    assert_eq!(stage, EntryStage::CheckSession);
    assert_eq!(stage.next(all, false), EntryStage::SessionEnded);
    let stage = stage.next(all, true);
    assert_eq!(stage, EntryStage::CheckCondition);
    assert_eq!(stage.next(all, false), EntryStage::ConditionBlocked);
    assert_eq!(stage.next(all, true), EntryStage::Dispatch);
    let none = EntryChecks { needs_baseline: false, has_session: false, has_condition: false };
    assert_eq!(EntryStage::first(1, none), EntryStage::Dispatch);
    let condition_only = EntryChecks { has_condition: true, ..none };
    assert_eq!(EntryStage::first(1, condition_only), EntryStage::CheckCondition);
    assert_eq!(EntryStage::Dispatch.next(all, false), EntryStage::Dispatch);
    assert_eq!(step_timeout(Some(500), 2_000), 500);
    assert_eq!(step_timeout(Some(5_000), 2_000), 2_000);
    assert_eq!(step_timeout(None, 2_000), 2_000);
}
