use sharefetch::transfer::{
    plan_transfer, range_header_value, start_progress, transfer_step, LocalPartial, StepOutcome,
    TransferPlan, TransferProgress,
};

#[test]
fn absent_target_starts_fresh() {
    let plan = plan_transfer(100, &"{E1}".to_string(), &None);
    assert_eq!(plan, TransferPlan::Fresh);
}

#[test]
fn matching_partial_resumes_at_byte_count() {
    let local = Some(LocalPartial { size: 40, etag: Some("{E1}".to_string()) });
    let plan = plan_transfer(100, &"{E1}".to_string(), &local);
    assert_eq!(plan, TransferPlan::Resume { offset: 40 });
}

#[test]
fn stale_etag_discards_partial_and_starts_fresh() {
    let local = Some(LocalPartial { size: 40, etag: Some("{OLD}".to_string()) });
    let plan = plan_transfer(100, &"{E1}".to_string(), &local);
    assert_eq!(plan, TransferPlan::Fresh);
}

#[test]
fn unrecorded_etag_does_not_witness_staleness() {
    let local = Some(LocalPartial { size: 40, etag: None });
    let plan = plan_transfer(100, &"{E1}".to_string(), &local);
    assert_eq!(plan, TransferPlan::Resume { offset: 40 });
}

#[test]
fn complete_file_short_circuits() {
    let local = Some(LocalPartial { size: 100, etag: Some("{E1}".to_string()) });
    let plan = plan_transfer(100, &"{E1}".to_string(), &local);
    assert_eq!(plan, TransferPlan::AlreadyComplete);
}

#[test]
fn oversized_file_is_corrupt_and_starts_fresh() {
    let local = Some(LocalPartial { size: 160, etag: Some("{E1}".to_string()) });
    let plan = plan_transfer(100, &"{E1}".to_string(), &local);
    assert_eq!(plan, TransferPlan::Fresh);
}

#[test]
fn resume_range_request_starts_at_prior_byte_count() {
    assert_eq!(range_header_value(40), "bytes=40-");
    assert_eq!(range_header_value(0), "bytes=0-");
    assert_eq!(range_header_value(1234567890), "bytes=1234567890-");
}

#[test]
fn start_progress_follows_plan() {
    assert_eq!(
        start_progress(100, TransferPlan::Fresh),
        TransferProgress { file_size: 100, written: 0 }
    );
    assert_eq!(
        start_progress(100, TransferPlan::Resume { offset: 40 }),
        TransferProgress { file_size: 100, written: 40 }
    );
    assert_eq!(
        start_progress(100, TransferPlan::AlreadyComplete),
        TransferProgress { file_size: 100, written: 100 }
    );
}

#[test]
fn chunks_accumulate_to_completion() {
    let p = TransferProgress { file_size: 100, written: 0 };
    let r = transfer_step(p, false, Some(60));
    let p = match r {
        StepOutcome::Continue { progress } => progress,
        _ => panic!("expected Continue"),
    };
    assert_eq!(p, TransferProgress { file_size: 100, written: 60 });
    assert_eq!(transfer_step(p, false, Some(40)), StepOutcome::Completed);
}

#[test]
fn resumed_transfer_completes_at_declared_size() {
    let p = start_progress(100, TransferPlan::Resume { offset: 40 });
    let r = transfer_step(p, false, Some(30));
    let p = match r {
        StepOutcome::Continue { progress } => progress,
        _ => panic!("expected Continue"),
    };
    assert_eq!(transfer_step(p, false, Some(30)), StepOutcome::Completed);
}

#[test]
fn cancellation_mid_transfer_is_cooperative_not_error() {
    let p = TransferProgress { file_size: 100, written: 40 };
    assert_eq!(transfer_step(p, true, Some(10)), StepOutcome::Cancelled);
    assert_eq!(transfer_step(p, true, None), StepOutcome::Cancelled);
    assert!(p.written < p.file_size);
}

#[test]
fn cancellation_cannot_follow_final_flush() {
    let p = TransferProgress { file_size: 100, written: 100 };
    assert_eq!(transfer_step(p, true, None), StepOutcome::Completed);
}

#[test]
fn early_stream_end_is_size_mismatch() {
    let p = TransferProgress { file_size: 100, written: 70 };
    assert_eq!(transfer_step(p, false, None), StepOutcome::SizeMismatch);
}

#[test]
fn overlong_stream_is_size_mismatch() {
    let p = TransferProgress { file_size: 100, written: 70 };
    assert_eq!(transfer_step(p, false, Some(31)), StepOutcome::SizeMismatch);
}

#[test]
fn empty_chunk_keeps_streaming() {
    let p = TransferProgress { file_size: 100, written: 70 };
    assert_eq!(
        transfer_step(p, false, Some(0)),
        StepOutcome::Continue { progress: p }
    );
}

#[test]
fn zero_byte_file_completes_without_data() {
    let p = start_progress(0, TransferPlan::Fresh);
    assert_eq!(transfer_step(p, false, None), StepOutcome::Completed);
}
