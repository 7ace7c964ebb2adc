use pvlog_storage_core::rollup_builder::{
    build_rollups, RollupBuildError, RollupGranularity, RollupSample, RollupWindow,
};

fn window(start: i64, end: i64) -> RollupWindow {
    RollupWindow {
        granularity: RollupGranularity::Hourly,
        start_epoch_millis: start,
        end_epoch_millis: end,
        local_label: format!("{start}-{end}"),
    }
}

fn sample(t: i64, value: i64, covered: u64) -> RollupSample {
    RollupSample { timestamp_epoch_millis: t, value, covered_millis: covered }
}

#[test]
fn rollups_aggregate_each_window() {
    let windows = vec![window(0, 1000), window(1000, 2000), window(2000, 3000)];
    let samples = vec![sample(0, 5, 400), sample(500, -3, 400), sample(2500, 7, 2000)];
    let rollups = build_rollups(RollupGranularity::Hourly, &samples, &windows).unwrap();
    assert_eq!(rollups.len(), 2);
    let first = &rollups[0];
    assert_eq!(first.window, windows[0]);
    assert_eq!(first.sum, 2);
    assert_eq!(first.min, -3);
    assert_eq!(first.max, 5);
    assert_eq!(first.count, 2);
    assert_eq!(first.first, 5);
    assert_eq!(first.last, -3);
    assert_eq!(first.covered_millis, 800);
    assert_eq!(first.coverage_basis_points, 8000);
    let second = &rollups[1];
    assert_eq!(second.window, windows[2]);
    assert_eq!(second.count, 1);
    assert_eq!(second.covered_millis, 1000);
    assert_eq!(second.coverage_basis_points, 10_000);
}

#[test]
fn rollup_counts_add_up_to_samples() {
    let windows = vec![window(0, 10), window(10, 20), window(20, 30)];
    let samples: Vec<RollupSample> = (0..30).map(|t| sample(t, t, 1)).collect();
    let rollups = build_rollups(RollupGranularity::Hourly, &samples, &windows).unwrap();
    let total: u64 = rollups.iter().map(|r| r.count).sum();
    assert_eq!(total, samples.len() as u64);
    for r in &rollups {
        assert!(r.min <= r.first && r.first <= r.max);
        assert!(r.min <= r.last && r.last <= r.max);
        assert!(r.coverage_basis_points <= 10_000);
    }
}

#[test]
fn rollups_reject_mismatched_granularity() {
    let mut w = window(0, 1000);
    w.granularity = RollupGranularity::Daily;
    assert_eq!(build_rollups(RollupGranularity::Hourly, &[], &[w]), Err(RollupBuildError::InvalidWindow));
}

#[test]
fn rollups_reject_overlapping_windows() {
    let windows = vec![window(0, 1000), window(999, 2000)];
    assert_eq!(build_rollups(RollupGranularity::Hourly, &[], &windows), Err(RollupBuildError::InvalidWindow));
    assert_eq!(
        build_rollups(RollupGranularity::Hourly, &[], &[window(5, 5)]),
        Err(RollupBuildError::InvalidWindow)
    );
}

#[test]
fn rollups_reject_duplicate_timestamps() {
    let samples = vec![sample(10, 1, 1), sample(10, 2, 1)];
    assert_eq!(
        build_rollups(RollupGranularity::Hourly, &samples, &[window(0, 1000)]),
        Err(RollupBuildError::SampleOrdering)
    );
}

#[test]
fn rollups_reject_samples_outside_windows() {
    let windows = vec![window(0, 100), window(200, 300)];
    assert_eq!(
        build_rollups(RollupGranularity::Hourly, &[sample(150, 1, 1)], &windows),
        Err(RollupBuildError::SampleOutsideWindows)
    );
    assert_eq!(
        build_rollups(RollupGranularity::Hourly, &[sample(300, 1, 1)], &windows),
        Err(RollupBuildError::SampleOutsideWindows)
    );
}

#[test]
fn rollups_report_overflow() {
    let samples = vec![sample(0, 1, u64::MAX), sample(1, 1, 1)];
    assert_eq!(
        build_rollups(RollupGranularity::Hourly, &samples, &[window(0, 1000)]),
        Err(RollupBuildError::Overflow)
    );
    let wide = window(i64::MIN, i64::MAX);
    assert_eq!(
        build_rollups(RollupGranularity::Hourly, &[sample(0, 1, 1)], &[wide]),
        Err(RollupBuildError::Overflow)
    );
}
