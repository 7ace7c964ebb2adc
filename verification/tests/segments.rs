use pvlog_storage_core::columns::{expand, SegmentCodecError};
use pvlog_storage_core::columns;
use pvlog_storage_core::segment_codec::{
    build_envelope, check_header, columns_error, open_segment, seal_segment, segment_points, SegmentPoint,
};

fn point(t: i64, power: Option<i64>, extended: Vec<(u128, i64)>, kind: &str, received: i64) -> SegmentPoint {
    SegmentPoint {
        timestamp_epoch_millis: t,
        generation_power_watts: power,
        extended,
        source_kind: kind.to_owned(),
        source_reference: "ref".to_owned(),
        received_at_epoch_millis: received,
        quality_flags: 3,
    }
}

#[test]
fn column_encodes_presence_and_deltas() {
    let values = vec![Some(10), None, Some(7), Some(7), None, None, None, None, Some(-2)];
    let (presence, deltas) = columns::column(&values);
    assert_eq!(presence, vec![0b0000_1101, 0b0000_0001]);
    assert_eq!(deltas, vec![10, -3, 0, -9]);
}

#[test]
fn expand_inverts_column() {
    let values = vec![Some(i64::MAX), None, Some(0), Some(-5), None, Some(12)];
    let (presence, deltas) = columns::column(&values);
    assert_eq!(expand(&presence, &deltas, values.len()), Ok(values));
}

#[test]
fn expand_rejects_wrong_bitmap_length() {
    assert_eq!(expand(&[1, 0], &[5], 3), Err(SegmentCodecError::Integrity));
}

#[test]
fn expand_rejects_delta_count_mismatch() {
    assert_eq!(expand(&[0b11], &[5], 2), Err(SegmentCodecError::Integrity));
}

#[test]
fn expand_reports_overflowing_running_total() {
    assert_eq!(expand(&[0b11], &[i64::MAX, 1], 2), Err(SegmentCodecError::Overflow));
}

#[test]
fn envelope_round_trips_points() {
    let points = vec![
        point(1_000, Some(500), vec![(7, 1), (9, -4)], "inverter", 1_500),
        point(2_000, None, vec![(9, 3)], "inverter", 2_600),
        point(3_500, Some(480), vec![], "meter", 3_700),
    ];
    let env = build_envelope(42, &points).unwrap();
    assert_eq!(env.system_id, 42);
    assert_eq!(env.row_count, 3);
    assert_eq!(env.base_timestamp, 1_000);
    let (id, decoded) = segment_points(&env, 3).unwrap();
    assert_eq!(id, 42);
    assert_eq!(decoded, points);
}

#[test]
fn envelope_rejects_unordered_points() {
    let points = vec![point(2_000, None, vec![], "a", 0), point(1_000, None, vec![], "a", 0)];
    assert_eq!(build_envelope(1, &points), Err(SegmentCodecError::UnorderedPoints));
    assert_eq!(build_envelope(1, &[]), Err(SegmentCodecError::UnorderedPoints));
}

#[test]
fn decoding_rejects_wrong_row_count() {
    let points = vec![point(1_000, Some(1), vec![], "a", 1_000)];
    let env = build_envelope(5, &points).unwrap();
    assert!(segment_points(&env, 2).is_err());
}

#[test]
fn sealed_segment_opens_to_the_same_bytes() {
    let bytes: Vec<u8> = (0..200u32).map(|i| (i * 7 % 256) as u8).collect();
    let sealed = seal_segment(&bytes, 4).unwrap();
    assert_eq!(sealed.schema_version, 1);
    assert_eq!(sealed.row_count, 4);
    assert_eq!(sealed.uncompressed_length, 200);
    assert_eq!(sealed.compressed_length, sealed.compressed_bytes.len() as u64);
    assert_eq!(&sealed.content_hash, blake3::hash(&bytes).as_bytes());
    assert_ne!(sealed.compressed_bytes, bytes);
    assert_eq!(zstd::stream::decode_all(sealed.compressed_bytes.as_slice()).unwrap(), bytes);
    assert_eq!(open_segment(&sealed), Ok(bytes));
}

#[test]
fn opening_detects_corruption() {
    let bytes = b"segment envelope".to_vec();
    let mut sealed = seal_segment(&bytes, 1).unwrap();
    sealed.content_hash[0] ^= 1;
    assert_eq!(open_segment(&sealed), Err(SegmentCodecError::Integrity));
    let mut wrong_version = seal_segment(&bytes, 1).unwrap();
    wrong_version.schema_version = 2;
    assert_eq!(open_segment(&wrong_version), Err(SegmentCodecError::Integrity));
    let mut garbled = seal_segment(&bytes, 1).unwrap();
    garbled.compressed_bytes = vec![1, 2, 3];
    garbled.compressed_length = 3;
    assert_eq!(open_segment(&garbled), Err(SegmentCodecError::Compression));
}

#[test]
fn column_deltas_that_leave_i64_are_refused() {
    let points = vec![point(0, Some(-2), vec![], "api", 0), point(1, Some(i64::MAX), vec![], "api", 1)];
    assert_eq!(build_envelope(1, &points), Err(SegmentCodecError::Overflow));
    let channels = vec![point(0, None, vec![(4, i64::MIN)], "api", 0), point(1, None, vec![(4, 1)], "api", 1)];
    assert_eq!(build_envelope(1, &channels), Err(SegmentCodecError::Overflow));
    let apart = vec![point(0, Some(i64::MIN), vec![], "api", 0), point(1, None, vec![], "api", 1), point(2, Some(-1), vec![], "api", 2)];
    assert!(build_envelope(1, &apart).is_ok());
}

#[test]
fn stored_identifiers_are_sixteen_big_endian_bytes() {
    let bytes: Vec<u8> = (1..=16).collect();
    let expected = uuid::Uuid::from_slice(&bytes).unwrap().as_u128();
    assert_eq!(pvlog_storage_core::segment_codec::uuid_value(&bytes), Some(expected));
    assert_eq!(pvlog_storage_core::segment_codec::uuid_value(&bytes[..15]), None);
    assert_eq!(pvlog_storage_core::segment_codec::uuid_value(&[]), None);
}

#[test]
fn sealing_is_deterministic() {
    let bytes: Vec<u8> = (0..2000u32).map(|i| (i % 251) as u8).collect();
    let a = seal_segment(&bytes, 7).unwrap();
    let b = seal_segment(&bytes, 7).unwrap();
    assert_eq!(a.compressed_bytes, b.compressed_bytes);
    assert_eq!(a.content_hash, b.content_hash);
    assert_eq!(a.compressed_bytes, zstd_frame_level9_checksum(&bytes));
    assert_eq!(open_segment(&a).unwrap(), bytes);
}

fn zstd_frame_level9_checksum(bytes: &[u8]) -> Vec<u8> {
    let mut encoder = zstd::stream::Encoder::new(Vec::new(), 9).unwrap();
    encoder.include_checksum(true).unwrap();
    std::io::Write::write_all(&mut encoder, bytes).unwrap();
    encoder.finish().unwrap()
}

#[test]
fn header_must_match_the_artifact() {
    assert_eq!(check_header(1, 4, 4), Ok(()));
    assert_eq!(check_header(2, 4, 4), Err(SegmentCodecError::Integrity));
    assert_eq!(check_header(1, 3, 4), Err(SegmentCodecError::Integrity));
}

#[test]
fn column_checks_stop_before_the_rows() {
    let points = vec![point(0, Some(5), vec![(3, 1)], "api", 0), point(1, Some(6), vec![], "api", 1)];
    let mut env = build_envelope(9, &points).unwrap();
    assert_eq!(columns_error(&env, 2), None);
    assert_eq!(columns_error(&env, 3), Some(SegmentCodecError::Integrity));
    env.provenance_index[0] = 99;
    assert_eq!(columns_error(&env, 2), None);
    assert_eq!(segment_points(&env, 2), Err(SegmentCodecError::Integrity));
    env.timestamp_deltas.clear();
    assert_eq!(columns_error(&env, 2), Some(SegmentCodecError::Integrity));
}
