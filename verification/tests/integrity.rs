use pvlog_storage_core::integrity_planner::{
    plan_integrity_repairs, IntegrityIssue, IntegritySnapshot, RepairAction,
};

fn keys(names: &[&str]) -> Vec<String> {
    names.iter().map(|n| n.to_string()).collect()
}

#[test]
fn consistent_inventory_needs_no_repair() {
    let snapshot = IntegritySnapshot {
        expected_segments: keys(&["a", "b"]),
        present_segments: keys(&["a", "b"]),
        rollup_segments: keys(&["a", "b"]),
        overlay_segments: keys(&["a"]),
        ..IntegritySnapshot::default()
    };
    let report = plan_integrity_repairs(&snapshot);
    assert!(report.issues.is_empty());
    assert!(report.repair_plan.is_empty());
}

#[test]
fn every_finding_is_reported_in_order_with_its_repair() {
    let snapshot = IntegritySnapshot {
        hot_rows_without_system: vec![11],
        expected_segments: keys(&["a", "b", "c"]),
        present_segments: keys(&["a", "c"]),
        corrupt_segments: keys(&["c"]),
        overlay_segments: keys(&["a", "z"]),
        rollup_segments: keys(&["a"]),
        stale_summaries: vec![21, 22],
        orphaned_jobs: vec![31],
    };
    let report = plan_integrity_repairs(&snapshot);
    assert_eq!(
        report.issues,
        vec![
            IntegrityIssue::HotRowWithoutSystem(11),
            IntegrityIssue::MissingSegment("b".to_owned()),
            IntegrityIssue::SegmentHashMismatch("c".to_owned()),
            IntegrityIssue::OverlayWithoutSegment("z".to_owned()),
            IntegrityIssue::MissingRollup("c".to_owned()),
            IntegrityIssue::StaleSummary(21),
            IntegrityIssue::StaleSummary(22),
            IntegrityIssue::OrphanedJob(31),
        ]
    );
    assert_eq!(
        report.repair_plan,
        vec![
            RepairAction::QuarantineHotRow(11),
            RepairAction::RestoreOrRecompactSegment("b".to_owned()),
            RepairAction::RestoreOrRecompactSegment("c".to_owned()),
            RepairAction::RebuildRollups("c".to_owned()),
            RepairAction::RebuildSummary(21),
            RepairAction::RebuildSummary(22),
            RepairAction::DeadLetterJob(31),
        ]
    );
}
