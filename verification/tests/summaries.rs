use pvlog_storage_core::summary_rebuild::{
    accumulate_optional, minimum_coverage, ratio, DailyAggregate, LifetimeAggregate, ModeledSummary, ModeledYieldAggregate,
    SummaryDay, SummaryPeriod, SummaryProjection,
};

fn daily(system_id: u128, day: i32, generation: i64, expected: Option<i64>) -> DailyAggregate {
    DailyAggregate {
        system_id,
        day: SummaryDay(day),
        generation_wh: generation,
        consumption_wh: 10,
        quality_flags: 1 << (day % 4),
        source_revision: 1,
        calendar_year: 2024,
        calendar_month: if day < 31 { 1 } else { 2 },
        modeled: ModeledYieldAggregate {
            expected_energy_wh: expected,
            expected_lower_wh: None,
            expected_upper_wh: None,
            forecast_energy_wh: Some(generation),
            forecast_lower_wh: None,
            forecast_upper_wh: None,
            actual_coverage_basis_points: 10_000,
            expected_coverage_basis_points: 9_000 + day as u16,
            forecast_coverage_basis_points: 10_000,
        },
    }
}

#[test]
fn accumulate_optional_adds_present_values() {
    let mut total = None;
    accumulate_optional(&mut total, None);
    assert_eq!(total, None);
    accumulate_optional(&mut total, Some(5));
    assert_eq!(total, Some(5));
    accumulate_optional(&mut total, Some(-7));
    assert_eq!(total, Some(-2));
}

#[test]
fn minimum_coverage_starts_with_first_value() {
    assert_eq!(minimum_coverage(0, 7_000, false), 7_000);
    assert_eq!(minimum_coverage(5_000, 7_000, true), 5_000);
    assert_eq!(minimum_coverage(9_000, 7_000, true), 7_000);
}

#[test]
fn ratio_is_basis_points_of_modeled() {
    assert_eq!(ratio(900, Some(1_000), 10_000, 10_000), Some(9_000));
    assert_eq!(ratio(900, None, 10_000, 10_000), None);
    assert_eq!(ratio(900, Some(0), 10_000, 10_000), None);
    assert_eq!(ratio(-1, Some(10), 10_000, 10_000), None);
    assert_eq!(ratio(900, Some(1_000), 0, 10_000), None);
    assert_eq!(ratio(i128::MAX, Some(1), 1, 1), None);
    assert_eq!(ratio(i64::MAX as i128, Some(1), 1, 1), None);
}

#[test]
fn reconcile_rebuilds_lifetime_and_replay_is_a_no_op() {
    let mut projection = SummaryProjection::new();
    assert!(projection.reconcile(&daily(1, 2, 100, Some(120))));
    assert!(projection.reconcile(&daily(1, 5, 50, Some(40))));
    assert!(projection.reconcile(&daily(2, 5, 7, None)));
    let expected = LifetimeAggregate {
        generation_wh: 150,
        consumption_wh: 20,
        quality_flags: (1 << 2) | (1 << 1),
        through_day: Some(SummaryDay(5)),
    };
    assert_eq!(projection.lifetime_aggregate(1), Some(expected));
    assert!(!projection.reconcile(&daily(1, 5, 50, Some(40))));
    assert_eq!(projection.lifetime_aggregate(1), Some(expected));
    assert_eq!(projection.daily_aggregate(1, SummaryDay(5)), Some(daily(1, 5, 50, Some(40))));
}

#[test]
fn invalidation_hides_lifetime_until_reconciled() {
    let mut projection = SummaryProjection::new();
    projection.reconcile(&daily(3, 1, 10, None));
    projection.reconcile(&daily(4, 1, 10, None));
    projection.invalidate(3, SummaryDay(1));
    projection.invalidate(3, SummaryDay(9));
    assert_eq!(projection.lifetime_aggregate(3), None);
    assert!(projection.lifetime_aggregate(4).is_some());
    assert_eq!(projection.invalidated_days(), vec![(3, SummaryDay(1)), (3, SummaryDay(9))]);
    projection.reconcile(&daily(3, 1, 12, None));
    assert_eq!(projection.invalidated_days(), vec![(3, SummaryDay(9))]);
    assert_eq!(projection.lifetime_aggregate(3).unwrap().generation_wh, 12);
}

#[test]
fn modeled_summary_covers_the_period() {
    let mut projection = SummaryProjection::new();
    projection.reconcile(&daily(1, 2, 100, Some(125)));
    projection.reconcile(&daily(1, 3, 50, None));
    projection.reconcile(&daily(1, 40, 1_000, Some(1_000)));
    projection.reconcile(&daily(2, 2, 999, Some(1)));
    let january = projection.modeled_summary(1, SummaryPeriod::Month { year: 2024, month: 1 });
    assert_eq!(january.actual_energy_wh, 150);
    assert_eq!(january.expected_energy_wh, Some(125));
    assert_eq!(january.forecast_energy_wh, Some(150));
    assert_eq!(january.expected_lower_wh, None);
    assert_eq!(january.generation_performance_basis_points, Some(12_000));
    assert_eq!(january.forecast_realization_basis_points, Some(10_000));
    assert_eq!(january.expected_coverage_basis_points, 9_002);
    let lifetime = projection.modeled_summary(1, SummaryPeriod::Lifetime);
    assert_eq!(lifetime.actual_energy_wh, 1_150);
    let day = projection.modeled_summary(1, SummaryPeriod::Day(SummaryDay(3)));
    assert_eq!(day.expected_energy_wh, None);
    assert_eq!(day.generation_performance_basis_points, None);
    let none = projection.modeled_summary(9, SummaryPeriod::Year(2024));
    assert_eq!(none.actual_energy_wh, 0);
    assert_eq!(none.actual_coverage_basis_points, 0);
}

#[test]
fn reconciled_day_is_summarised_once() {
    let a = DailyAggregate {
        system_id: 1,
        day: SummaryDay(1),
        generation_wh: 600,
        consumption_wh: 0,
        quality_flags: 0,
        source_revision: 1,
        calendar_year: 2024,
        calendar_month: 1,
        modeled: ModeledYieldAggregate {
            expected_energy_wh: Some(1000),
            actual_coverage_basis_points: 8000,
            expected_coverage_basis_points: 10000,
            ..ModeledYieldAggregate::default()
        },
    };
    let mut p = SummaryProjection::new();
    p.reconcile(&a);
    p.reconcile(&a);
    assert_eq!(
        p.modeled_summary(1, SummaryPeriod::Month { year: 2024, month: 1 }),
        ModeledSummary {
            actual_energy_wh: 600,
            expected_energy_wh: Some(1000),
            generation_performance_basis_points: Some(6000),
            actual_coverage_basis_points: 8000,
            expected_coverage_basis_points: 10000,
            ..ModeledSummary::default()
        }
    );
}
