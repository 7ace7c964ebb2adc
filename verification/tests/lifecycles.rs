use pvlog_storage_core::columns::SegmentCodecError;
use pvlog_storage_core::compaction::{
    compaction_lease_expiry, compaction_lease_outcome, compaction_result, compaction_work_done,
    next_compaction_work, CompactionError, CompactionKey, CompactionPhase, CompactionWork,
};
use pvlog_storage_core::overlay_folding::{
    check_fold_range, fold_work_done, next_fold_work, OverlayFoldError, OverlayFoldKey, OverlayFoldPhase,
    OverlayFoldState, OverlayFoldWork,
};

fn key(start: i64, end: i64) -> CompactionKey {
    CompactionKey { system_id: 1, range_start: start, range_end: end }
}

#[test]
fn compaction_requests_are_validated() {
    assert!(matches!(compaction_lease_expiry(&key(10, 10), "worker", 0, 5), Err(CompactionError::InvalidRequest)));
    assert!(matches!(compaction_lease_expiry(&key(0, 10), " \t\n", 0, 5), Err(CompactionError::InvalidRequest)));
    assert!(matches!(
        compaction_lease_expiry(&key(0, 10), "worker", i64::MAX, 1),
        Err(CompactionError::InvalidRequest)
    ));
    assert!(matches!(compaction_lease_expiry(&key(0, 10), "worker", 100, 50), Ok(150)));
}

#[test]
fn missing_lease_is_reported() {
    assert!(matches!(compaction_lease_outcome(None), Err(CompactionError::LeaseUnavailable)));
    assert!(matches!(compaction_lease_outcome(Some(CompactionPhase::Verified)), Ok(CompactionPhase::Verified)));
}

#[test]
fn compaction_resumes_and_completes_in_order() {
    let mut phase = CompactionPhase::RollupsWritten;
    let mut works = Vec::new();
    while let Some(work) = next_compaction_work(phase) {
        works.push(work);
        phase = match compaction_work_done(work, true) {
            Ok(next) => next,
            Err(_) => unreachable!(),
        };
    }
    assert_eq!(phase, CompactionPhase::Completed);
    assert_eq!(
        works,
        vec![
            CompactionWork::VerifySegmentAndRollups,
            CompactionWork::DeleteRedundantHotRows,
            CompactionWork::Complete
        ]
    );
    assert!(CompactionPhase::Pending < CompactionPhase::Completed);
}

#[test]
fn failed_verification_stops_compaction() {
    assert!(matches!(
        compaction_work_done(CompactionWork::VerifySegmentAndRollups, false),
        Err(CompactionError::Verification)
    ));
    assert!(matches!(compaction_work_done(CompactionWork::WriteSegment, false), Ok(CompactionPhase::SegmentWritten)));
}

#[test]
fn run_error_takes_precedence_over_release_error() {
    let r = compaction_result(Err(CompactionError::Codec(SegmentCodecError::Overflow)), Err(CompactionError::Persistence("release")));
    assert!(matches!(r, Err(CompactionError::Codec(SegmentCodecError::Overflow))));
    let r = compaction_result(Ok(CompactionPhase::Completed), Err(CompactionError::Persistence("release")));
    assert!(matches!(r, Err(CompactionError::Persistence("release"))));
    let r = compaction_result(Ok(CompactionPhase::Completed), Ok(()));
    assert!(matches!(r, Ok(CompactionPhase::Completed)));
}

#[test]
fn overlay_fold_checks_range_and_generation() {
    let empty = OverlayFoldKey { system_id: 1, range_start: 5, range_end: 5 };
    assert!(matches!(check_fold_range(&empty), Err(OverlayFoldError::InvalidRange)));
    let state = OverlayFoldState { phase: OverlayFoldPhase::Pending, expected_generation: 7, overlay_revision_watermark: 30 };
    let work = next_fold_work(&state, state.phase).unwrap();
    assert_eq!(work, OverlayFoldWork::ReplaceSegment { expected_generation: 7, overlay_revision_watermark: 30 });
    assert!(matches!(fold_work_done(work, false), Err(OverlayFoldError::GenerationConflict)));
    assert!(matches!(fold_work_done(work, true), Ok(OverlayFoldPhase::SegmentReplaced)));
    assert_eq!(
        next_fold_work(&state, OverlayFoldPhase::SegmentReplaced),
        Some(OverlayFoldWork::DeleteOverlays { overlay_revision_watermark: 30 })
    );
    assert_eq!(next_fold_work(&state, OverlayFoldPhase::OverlaysDeleted), Some(OverlayFoldWork::Complete));
    assert_eq!(next_fold_work(&state, OverlayFoldPhase::Completed), None);
}
