use pvlog_storage_core::merged_reader::{
    merge_raw_observations, precedence, MergedReadError, RawObservation, RawObservationOrigin,
};

fn candidate(id: u128, t: i64, origin: RawObservationOrigin, revision: u64, deleted: bool) -> RawObservation {
    RawObservation {
        observation_id: id,
        timestamp_epoch_millis: t,
        generation_power_watts: Some(revision as i64),
        extended: vec![],
        source_kind: "inverter".to_owned(),
        source_reference: format!("r{revision}"),
        received_at_epoch_millis: t,
        quality_flags: 0,
        revision,
        deleted,
        origin,
        segment_version: if origin == RawObservationOrigin::Segment { Some(1) } else { None },
    }
}

#[test]
fn precedence_orders_sources() {
    assert_eq!(precedence(RawObservationOrigin::Segment), 0);
    assert_eq!(precedence(RawObservationOrigin::Hot), 1);
    assert_eq!(precedence(RawObservationOrigin::Overlay), 2);
}

#[test]
fn overlay_beats_hot_beats_segment() {
    let merged = merge_raw_observations(
        vec![candidate(1, 100, RawObservationOrigin::Segment, 9, false)],
        vec![candidate(1, 100, RawObservationOrigin::Hot, 1, false)],
        vec![candidate(1, 100, RawObservationOrigin::Overlay, 0, false)],
    )
    .unwrap();
    assert_eq!(merged.len(), 1);
    assert_eq!(merged[0].origin, RawObservationOrigin::Overlay);
}

#[test]
fn highest_revision_wins_within_a_source() {
    let merged = merge_raw_observations(
        vec![],
        vec![
            candidate(7, 100, RawObservationOrigin::Hot, 2, false),
            candidate(7, 100, RawObservationOrigin::Hot, 5, false),
            candidate(7, 100, RawObservationOrigin::Hot, 3, false),
        ],
        vec![],
    )
    .unwrap();
    assert_eq!(merged.len(), 1);
    assert_eq!(merged[0].revision, 5);
}

#[test]
fn tombstone_overlay_suppresses_observation() {
    let merged = merge_raw_observations(
        vec![candidate(3, 50, RawObservationOrigin::Segment, 1, false)],
        vec![candidate(4, 60, RawObservationOrigin::Hot, 1, false)],
        vec![candidate(3, 50, RawObservationOrigin::Overlay, 1, true)],
    )
    .unwrap();
    assert_eq!(merged.len(), 1);
    assert_eq!(merged[0].observation_id, 4);
}

#[test]
fn merged_order_does_not_depend_on_load_order() {
    let a = vec![
        candidate(9, 300, RawObservationOrigin::Hot, 1, false),
        candidate(2, 100, RawObservationOrigin::Hot, 1, false),
        candidate(5, 100, RawObservationOrigin::Hot, 1, false),
    ];
    let mut b = a.clone();
    b.reverse();
    let first = merge_raw_observations(vec![], a, vec![]).unwrap();
    let second = merge_raw_observations(vec![], b, vec![]).unwrap();
    assert_eq!(first, second);
    let ids: Vec<u128> = first.iter().map(|o| o.observation_id).collect();
    assert_eq!(ids, vec![2, 5, 9]);
}

#[test]
fn candidate_in_wrong_collection_is_rejected() {
    let result = merge_raw_observations(vec![candidate(1, 1, RawObservationOrigin::Hot, 1, false)], vec![], vec![]);
    assert_eq!(result, Err(MergedReadError::OriginMismatch));
}

#[test]
fn unsupported_segment_version_is_rejected() {
    let mut c = candidate(1, 1, RawObservationOrigin::Segment, 1, false);
    c.segment_version = Some(2);
    assert_eq!(
        merge_raw_observations(vec![c], vec![], vec![]),
        Err(MergedReadError::UnsupportedSegmentVersion(Some(2)))
    );
}
