use pvlog_storage_core::sqlite_projection::ProjectionEventKind;
use pvlog_storage_core::yield_forecast::ForecastRetentionClass;
use pvlog_storage_core::yield_results::YieldCalculationState;

#[test]
fn every_event_kind_reads_back_as_itself() {
    for k in [ProjectionEventKind::Upsert, ProjectionEventKind::Invalidate, ProjectionEventKind::Delete] {
        assert_eq!(ProjectionEventKind::parse(k.as_str()), Ok(k));
    }
}

#[test]
fn every_retention_class_reads_back_as_itself() {
    for c in [ForecastRetentionClass::Working, ForecastRetentionClass::Issued, ForecastRetentionClass::Referenced] {
        assert_eq!(ForecastRetentionClass::parse(c.as_str()), Ok(c));
    }
}

#[test]
fn every_calculation_state_reads_back_as_itself() {
    for s in [
        YieldCalculationState::Pending,
        YieldCalculationState::Running,
        YieldCalculationState::Completed,
        YieldCalculationState::Failed,
        YieldCalculationState::Superseded,
    ] {
        assert_eq!(YieldCalculationState::parse(s.as_str()), Ok(s));
    }
    assert!(YieldCalculationState::parse("done").is_err());
}
