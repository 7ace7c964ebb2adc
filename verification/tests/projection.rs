use pvlog_storage_core::sqlite_projection::{
    check_projection_stored, check_reservation_resolved, delivery_step, duplicate_outcome, projection_change,
    DeliveryStep, ProjectionActivityState, ProjectionChange, ProjectionError, ProjectionEventKind,
    ProjectionInvalidationReason, ProjectionLocationPrecision, ProjectionReconciliationReport,
    ProjectionVisibility, SystemDiscoveryProjection, SystemProjectionEvent,
};

fn projection(visibility: ProjectionVisibility) -> SystemDiscoveryProjection {
    SystemDiscoveryProjection {
        system_id: 5,
        display_name: "Roof".to_owned(),
        country_code: Some("DE".to_owned()),
        location_label: Some("Berlin".to_owned()),
        location_precision: ProjectionLocationPrecision::Locality,
        capacity_watts: 9_800,
        visibility,
        activity_state: ProjectionActivityState::Active,
    }
}

#[test]
fn stored_names() {
    assert_eq!(ProjectionLocationPrecision::Region.as_str(), "region");
    assert_eq!(ProjectionVisibility::Unlisted.as_str(), "unlisted");
    assert_eq!(ProjectionActivityState::Archived.as_str(), "archived");
    assert_eq!(ProjectionInvalidationReason::AccountSuspension.as_str(), "account_suspension");
    assert_eq!(ProjectionEventKind::Invalidate.as_str(), "invalidate");
    assert_eq!(ProjectionEventKind::parse("delete"), Ok(ProjectionEventKind::Delete));
    assert_eq!(ProjectionEventKind::parse("upsert"), Ok(ProjectionEventKind::Upsert));
    assert_eq!(ProjectionEventKind::parse("DELETE"), Err(ProjectionError::InvalidProjectionPayload));
}

#[test]
fn non_public_projection_drops_location() {
    let filtered = projection(ProjectionVisibility::Unlisted).privacy_filtered().unwrap();
    assert_eq!(filtered.country_code, None);
    assert_eq!(filtered.location_label, None);
    assert_eq!(filtered.location_precision, ProjectionLocationPrecision::Hidden);
    let public = projection(ProjectionVisibility::Public).privacy_filtered().unwrap();
    assert_eq!(public, projection(ProjectionVisibility::Public));
    let mut hidden = projection(ProjectionVisibility::Public);
    hidden.location_precision = ProjectionLocationPrecision::Hidden;
    let hidden = hidden.privacy_filtered().unwrap();
    assert_eq!(hidden.location_label, None);
    assert_eq!(hidden.country_code, None);
    assert_eq!(hidden.clone().privacy_filtered().unwrap(), hidden);
}

#[test]
fn unsafe_payloads_are_rejected() {
    let mut blank = projection(ProjectionVisibility::Public);
    blank.display_name = " \u{3000} ".to_owned();
    assert_eq!(blank.privacy_filtered(), Err(ProjectionError::InvalidProjectionPayload));
    let mut negative = projection(ProjectionVisibility::Public);
    negative.capacity_watts = -1;
    assert_eq!(negative.privacy_filtered(), Err(ProjectionError::InvalidProjectionPayload));
    let mut country = projection(ProjectionVisibility::Public);
    country.country_code = Some("DEU".to_owned());
    assert_eq!(country.privacy_filtered(), Err(ProjectionError::InvalidProjectionPayload));
    let mut non_ascii = projection(ProjectionVisibility::Public);
    non_ascii.country_code = Some("Dü".to_owned());
    assert_eq!(non_ascii.privacy_filtered(), Err(ProjectionError::InvalidProjectionPayload));
}

#[test]
fn privacy_reducing_upsert_needs_reservation() {
    assert_eq!(
        SystemProjectionEvent::upsert(projection(ProjectionVisibility::Public), true, None),
        Err(ProjectionError::PrivacyReservationRequired)
    );
    let event = SystemProjectionEvent::upsert(projection(ProjectionVisibility::Unlisted), true, Some(9)).unwrap();
    assert_eq!(event.kind(), ProjectionEventKind::Upsert);
    assert_eq!(event.system_id(), 5);
    assert_eq!(event.projection().unwrap().country_code, None);
    assert_eq!(event.invalidation_id(), Some(9));
    let delete = SystemProjectionEvent::delete(5, 10);
    assert!(delete.privacy_reducing());
    assert_eq!(delete.projection(), None);
    assert_eq!(SystemProjectionEvent::invalidate(5, 11).kind(), ProjectionEventKind::Invalidate);
}

#[test]
fn delivery_is_in_order_and_exactly_once() {
    assert_eq!(delivery_step(4, 5, false, false), Ok(DeliveryStep::Apply));
    assert_eq!(delivery_step(5, 5, false, false), Ok(DeliveryStep::CheckDuplicate));
    assert_eq!(delivery_step(5, 2, true, false), Ok(DeliveryStep::CheckDuplicate));
    assert_eq!(delivery_step(5, 7, false, false), Err(ProjectionError::SequenceGap { expected: 6, actual: 7 }));
    assert_eq!(delivery_step(5, 6, true, false), Err(ProjectionError::PrivacyReservationRequired));
    assert_eq!(delivery_step(i64::MAX, i64::MAX, false, false), Ok(DeliveryStep::CheckDuplicate));
    assert_eq!(duplicate_outcome(3, true), Ok(()));
    assert_eq!(duplicate_outcome(3, false), Err(ProjectionError::SequenceConflict(3)));
}

#[test]
fn projection_changes() {
    assert_eq!(projection_change(ProjectionEventKind::Delete, 5, None), Ok(ProjectionChange::Remove));
    assert_eq!(
        projection_change(ProjectionEventKind::Upsert, 5, Some(projection(ProjectionVisibility::Private))),
        Ok(ProjectionChange::Remove)
    );
    assert_eq!(
        projection_change(ProjectionEventKind::Upsert, 6, Some(projection(ProjectionVisibility::Public))),
        Err(ProjectionError::InvalidProjectionPayload)
    );
    assert_eq!(
        projection_change(ProjectionEventKind::Upsert, 5, Some(projection(ProjectionVisibility::Public))),
        Ok(ProjectionChange::Store(projection(ProjectionVisibility::Public)))
    );
    assert_eq!(check_reservation_resolved(true, 0), Err(ProjectionError::InvalidPrivacyReservation));
    assert_eq!(check_reservation_resolved(false, 0), Ok(()));
    assert_eq!(check_projection_stored(0), Err(ProjectionError::ProjectionOwnershipConflict));
}

#[test]
fn reconciliation_report_counts() {
    let mut report = ProjectionReconciliationReport::with_repaired(u64::MAX);
    assert_eq!(report.duplicates, u32::MAX);
    report = ProjectionReconciliationReport::with_repaired(2);
    report.record(DeliveryStep::Apply, 8);
    report.record(DeliveryStep::CheckDuplicate, 9);
    assert_eq!(report, ProjectionReconciliationReport { applied: 1, duplicates: 3, last_sequence: Some(9) });
}
