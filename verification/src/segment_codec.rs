//! Deterministic telemetry segment v1 encoding and verified decoding.
//!
//! A segment is a columnar envelope of one ordered system interval. This module builds the
//! envelope from points and rebuilds points from an envelope, and frames the envelope's
//! serialized bytes with length, digest and zstd compression. Turning the envelope into its
//! protobuf bytes is done by the caller.

use vstd::prelude::*;

use crate::columns::{
    column, column_decodable, column_decodable_iff_gaps_fit, column_round_trip, column_spec, deltas_fit, expand,
    expand_spec, prefix_overflows, prefix_sum, successive_gap_overflows, SegmentCodecError,
};
use crate::external::{
    blake3_digest, blake3_hash, zstd_decode_all, zstd_decoded, zstd_encoder_new, zstd_finish, zstd_frame,
    zstd_include_checksum, zstd_write_all,
};

use crate::worker::{be_max, be_value, lemma_be_max_monotone, lemma_be_value_bound};

verus! {

#[derive(Clone, Debug, PartialEq, Eq)]
pub struct SegmentPoint {
    pub timestamp_epoch_millis: i64,
    pub generation_power_watts: Option<i64>,
    /// Extended channel values keyed by channel identifier, in ascending channel order.
    pub extended: Vec<(u128, i64)>,
    pub source_kind: String,
    pub source_reference: String,
    pub received_at_epoch_millis: i64,
    pub quality_flags: u32,
}

#[derive(Clone, Debug, PartialEq, Eq)]
pub struct ArchivedSegmentBytes {
    pub schema_version: u16,
    pub row_count: u32,
    pub uncompressed_length: u64,
    pub compressed_length: u64,
    pub content_hash: [u8; 32],
    pub compressed_bytes: Vec<u8>,
}

/// A delta-encoded integer column of the envelope.
#[derive(Clone, Debug, PartialEq, Eq)]
pub struct IntegerColumn {
    pub field: i32,
    pub presence: Vec<u8>,
    pub scale: i32,
    pub deltas: Vec<i64>,
}

/// A delta-encoded extended channel column of the envelope.
#[derive(Clone, Debug, PartialEq, Eq)]
pub struct ExtendedColumn {
    pub channel_id: u128,
    pub value_type: i32,
    pub presence: Vec<u8>,
    pub scale: i32,
    pub deltas: Vec<i64>,
    pub booleans: Vec<u8>,
}

/// One distinct provenance tuple shared by the rows that reference it.
#[derive(Clone, Debug, PartialEq, Eq)]
pub struct Provenance {
    pub source_kind: String,
    pub source_reference: String,
    pub received_delta: i64,
}

impl View for Provenance {
    type V = (Seq<char>, Seq<char>, i64);

    open spec fn view(&self) -> (Seq<char>, Seq<char>, i64) {
        (self.source_kind@, self.source_reference@, self.received_delta)
    }
}

/// The columnar content of a telemetry segment v1.
#[derive(Clone, Debug, PartialEq, Eq)]
pub struct SegmentEnvelope {
    pub schema_version: u32,
    pub system_id: u128,
    pub range_start: i64,
    pub range_end: i64,
    pub row_count: u32,
    pub base_timestamp: i64,
    pub timestamp_deltas: Vec<i64>,
    pub columns: Vec<IntegerColumn>,
    pub extended: Vec<ExtendedColumn>,
    pub provenance: Vec<Provenance>,
    pub provenance_index: Vec<u32>,
    pub quality_flags: Vec<u32>,
}

/// Timestamps are strictly ascending.
pub open spec fn points_strictly_ordered(p: Seq<SegmentPoint>) -> bool {
    forall|i: int, j: int|
        0 <= i < j < p.len() ==> (#[trigger] p[i]).timestamp_epoch_millis < (#[trigger] p[j]).timestamp_epoch_millis
}

/// The value of channel `c` in an extended row: the first entry with that key.
pub open spec fn channel_value(ext: Seq<(u128, i64)>, c: u128) -> Option<i64>
    decreases ext.len(),
{
    if ext.len() == 0 {
        None
    } else if ext[0].0 == c {
        Some(ext[0].1)
    } else {
        channel_value(ext.drop_first(), c)
    }
}

/// Some point carries a value for channel `c`.
pub open spec fn channel_used(p: Seq<SegmentPoint>, c: u128) -> bool {
    exists|i: int, j: int|
        0 <= i < p.len() && 0 <= j < p[i].extended@.len() && #[trigger] p[i].extended@[j].0 == c
}

/// The provenance tuple of one point.
pub open spec fn provenance_of(p: SegmentPoint) -> (Seq<char>, Seq<char>, i64) {
    (p.source_kind@, p.source_reference@, (p.received_at_epoch_millis - p.timestamp_epoch_millis) as i64)
}

/// Distinct elements of `s` in order of first appearance.
pub open spec fn dedup_first<A>(s: Seq<A>) -> Seq<A>
    decreases s.len(),
{
    if s.len() == 0 {
        Seq::empty()
    } else {
        let d = dedup_first(s.drop_last());
        if d.contains(s.last()) {
            d
        } else {
            d.push(s.last())
        }
    }
}

/// The reason points cannot be encoded, if any.
pub open spec fn encode_error(p: Seq<SegmentPoint>) -> Option<SegmentCodecError> {
    if p.len() == 0 || !points_strictly_ordered(p) {
        Some(SegmentCodecError::UnorderedPoints)
    } else if p.len() > u32::MAX {
        Some(SegmentCodecError::Size)
    } else if exists|i: int|
        0 <= i < p.len() - 1 && #[trigger] p[i + 1].timestamp_epoch_millis - p[i].timestamp_epoch_millis
            > i64::MAX {
        Some(SegmentCodecError::Overflow)
    } else if exists|i: int|
        0 <= i < p.len() && !(i64::MIN <= #[trigger] p[i].received_at_epoch_millis
            - p[i].timestamp_epoch_millis <= i64::MAX) {
        Some(SegmentCodecError::Overflow)
    } else if p.last().timestamp_epoch_millis == i64::MAX {
        Some(SegmentCodecError::Overflow)
    } else if column_gap_overflows(p) {
        Some(SegmentCodecError::Overflow)
    } else {
        None
    }
}

/// Two successive present values of the generation column, or of a channel that some point
/// carries, differ by more than `i64` holds, so that their delta cannot be stored.
pub open spec fn column_gap_overflows(p: Seq<SegmentPoint>) -> bool {
    ||| successive_gap_overflows(generation_values(p))
    ||| exists|c: u128| channel_used(p, c) && #[trigger] successive_gap_overflows(channel_values(p, c))
}

/// Every delta list of the envelope decodes without leaving `i64`.
pub open spec fn envelope_deltas_fit(env: SegmentEnvelope) -> bool {
    &&& env.columns@.len() > 0 ==> !prefix_overflows(env.columns@[0].deltas@, env.columns@[0].deltas@.len() as int)
    &&& forall|k: int|
        0 <= k < env.extended@.len() ==> !prefix_overflows(
            #[trigger] env.extended@[k].deltas@,
            env.extended@[k].deltas@.len() as int,
        )
}

/// Checks that every delta list of the envelope decodes without leaving `i64`.
fn envelope_deltas_ok(env: &SegmentEnvelope) -> (r: bool)
    ensures
        r == envelope_deltas_fit(*env),
{
    if env.columns.len() > 0 && !deltas_fit(&env.columns[0].deltas) {
        return false;
    }
    let mut k: usize = 0;
    while k < env.extended.len()
        invariant
            k <= env.extended@.len(),
            env.columns@.len() > 0 ==> !prefix_overflows(env.columns@[0].deltas@, env.columns@[0].deltas@.len() as int),
            forall|j: int|
                0 <= j < k ==> !prefix_overflows(
                    #[trigger] env.extended@[j].deltas@,
                    env.extended@[j].deltas@.len() as int,
                ),
        decreases env.extended@.len() - k,
    {
        if !deltas_fit(&env.extended[k].deltas) {
            return false;
        }
        k += 1;
    }
    true
}

/// For the envelope of `p`, its delta lists decode exactly when no column of `p` has two
/// successive values too far apart.
proof fn lemma_envelope_deltas(env: SegmentEnvelope, system_id: u128, p: Seq<SegmentPoint>)
    requires
        envelope_encodes(env, system_id, p),
    ensures
        envelope_deltas_fit(env) <==> !column_gap_overflows(p),
{
    let gv = generation_values(p);
    column_decodable_iff_gaps_fit(gv);
    if env.columns@.len() == 0 {
        assert forall|i: int| 0 <= i < gv.len() implies (#[trigger] gv[i]) is None by {
            if gv[i] is Some {
                assert(p[i].generation_power_watts is Some);
            }
        }
    }
    assert forall|k: int| 0 <= k < env.extended@.len() implies (!prefix_overflows(
        #[trigger] env.extended@[k].deltas@,
        env.extended@[k].deltas@.len() as int,
    ) <==> !successive_gap_overflows(channel_values(p, env.extended@[k].channel_id))) by {
        column_decodable_iff_gaps_fit(channel_values(p, env.extended@[k].channel_id));
    }
    if envelope_deltas_fit(env) {
        assert forall|c: u128| channel_used(p, c) implies !#[trigger] successive_gap_overflows(channel_values(p, c)) by {
            let k = choose|k: int| 0 <= k < env.extended@.len() && (#[trigger] env.extended@[k]).channel_id == c;
            assert(!prefix_overflows(env.extended@[k].deltas@, env.extended@[k].deltas@.len() as int));
        }
    } else {
        if !(env.columns@.len() > 0 ==> !prefix_overflows(
            env.columns@[0].deltas@,
            env.columns@[0].deltas@.len() as int,
        )) {
        } else {
            let k = choose|k: int|
                0 <= k < env.extended@.len() && prefix_overflows(
                    #[trigger] env.extended@[k].deltas@,
                    env.extended@[k].deltas@.len() as int,
                );
            let c = env.extended@[k].channel_id;
            assert(channel_used(p, c));
            assert(successive_gap_overflows(channel_values(p, c)));
        }
    }
}

pub open spec fn generation_values(p: Seq<SegmentPoint>) -> Seq<Option<i64>> {
    Seq::new(p.len(), |i: int| p[i].generation_power_watts)
}

pub open spec fn channel_values(p: Seq<SegmentPoint>, c: u128) -> Seq<Option<i64>> {
    Seq::new(p.len(), |i: int| channel_value(p[i].extended@, c))
}

pub open spec fn provenance_entries(p: Seq<SegmentPoint>) -> Seq<(Seq<char>, Seq<char>, i64)> {
    Seq::new(p.len(), |i: int| provenance_of(p[i]))
}

/// `env` is the segment v1 envelope of `points` for system `system_id`.
pub open spec fn envelope_encodes(env: SegmentEnvelope, system_id: u128, p: Seq<SegmentPoint>) -> bool {
    let provenance = dedup_first(provenance_entries(p));
    &&& env.schema_version == 1
    &&& env.system_id == system_id
    &&& env.range_start == p[0].timestamp_epoch_millis
    &&& env.range_end == p.last().timestamp_epoch_millis + 1
    &&& env.row_count == p.len()
    &&& env.base_timestamp == p[0].timestamp_epoch_millis
    &&& env.timestamp_deltas@ == Seq::new(
        (p.len() - 1) as nat,
        |i: int| (p[i + 1].timestamp_epoch_millis - p[i].timestamp_epoch_millis) as i64,
    )
    &&& env.columns@.len() == (if exists|i: int|
        0 <= i < p.len() && (#[trigger] p[i]).generation_power_watts is Some {
        1int
    } else {
        0int
    })
    &&& env.columns@.len() == 1 ==> {
        &&& env.columns@[0].field == 1
        &&& env.columns@[0].scale == 0
        &&& env.columns@[0].presence@ == column_spec(generation_values(p)).0
        &&& env.columns@[0].deltas@ == column_spec(generation_values(p)).1
    }
    &&& forall|a: int, b: int|
        0 <= a < b < env.extended@.len() ==> (#[trigger] env.extended@[a]).channel_id
            < (#[trigger] env.extended@[b]).channel_id
    &&& forall|c: u128|
        channel_used(p, c) <==> exists|k: int|
            0 <= k < env.extended@.len() && (#[trigger] env.extended@[k]).channel_id == c
    &&& forall|k: int|
        0 <= k < env.extended@.len() ==> {
            let col = #[trigger] env.extended@[k];
            &&& col.value_type == 1
            &&& col.scale == 0
            &&& col.booleans@.len() == 0
            &&& col.presence@ == column_spec(channel_values(p, col.channel_id)).0
            &&& col.deltas@ == column_spec(channel_values(p, col.channel_id)).1
        }
    &&& env.provenance@.map_values(|v: Provenance| v@) == provenance
    &&& env.provenance_index@.len() == p.len()
    &&& forall|i: int|
        0 <= i < p.len() ==> #[trigger] env.provenance_index@[i] < provenance.len() && provenance[env.provenance_index@[i] as int]
            == provenance_of(p[i])
    &&& env.quality_flags@ == Seq::new(p.len(), |i: int| p[i].quality_flags)
}

/// Channel `c` occurs in points `0..i`, or among the first `j` entries of point `i`.
pub open spec fn channel_seen(p: Seq<SegmentPoint>, i: int, j: int, c: u128) -> bool {
    ||| exists|a: int, b: int|
        0 <= a < i && 0 <= b < p[a].extended@.len() && #[trigger] p[a].extended@[b].0 == c
    ||| exists|b: int| 0 <= b < j && #[trigger] p[i].extended@[b].0 == c
}

pub open spec fn strictly_increasing(s: Seq<u128>) -> bool {
    forall|a: int, b: int| 0 <= a < b < s.len() ==> #[trigger] s[a] < #[trigger] s[b]
}

/// Inserts `c` into an ascending list of distinct channels unless already present.
fn insert_channel(chs: &mut Vec<u128>, c: u128)
    requires
        strictly_increasing(old(chs)@),
    ensures
        strictly_increasing(final(chs)@),
        forall|x: u128| final(chs)@.contains(x) <==> (old(chs)@.contains(x) || x == c),
{
    let mut k: usize = 0;
    while k < chs.len() && chs[k] < c
        invariant
            k <= chs.len(),
            forall|a: int| 0 <= a < k ==> #[trigger] chs@[a] < c,
        decreases chs.len() - k,
    {
        k += 1;
    }
    if k < chs.len() && chs[k] == c {
        return;
    }
    let ghost before = chs@;
    chs.insert(k, c);
    proof {
        let after = chs@;
        assert forall|a: int, b: int| 0 <= a < b < after.len() implies #[trigger] after[a] < #[trigger] after[b] by {
            if b < k {
                assert(after[a] == before[a] && after[b] == before[b]);
            } else if b == k {
                assert(after[a] == before[a]);
            } else if a < k {
                assert(after[a] == before[a] && after[b] == before[b - 1]);
                assert(before[k as int] > c);
                if b - 1 > k {
                    assert(before[k as int] < before[b - 1]);
                }
            } else if a == k {
                assert(after[b] == before[b - 1]);
                assert(before[k as int] > c);
                if b - 1 > k {
                    assert(before[k as int] < before[b - 1]);
                }
            } else {
                assert(after[a] == before[a - 1] && after[b] == before[b - 1]);
            }
        }
        assert forall|x: u128| after.contains(x) <==> (before.contains(x) || x == c) by {
            if after.contains(x) {
                let a = choose|a: int| 0 <= a < after.len() && after[a] == x;
                if a < k {
                    assert(after[a] == before[a]);
                } else if a > k {
                    assert(after[a] == before[a - 1]);
                }
            }
            if before.contains(x) {
                let a = choose|a: int| 0 <= a < before.len() && before[a] == x;
                if a < k {
                    assert(after[a] == before[a]);
                } else {
                    assert(after[a + 1] == before[a]);
                }
            }
            if x == c {
                assert(after[k as int] == c);
            }
        }
    }
}

/// The value of channel `c` in an extended row.
fn channel_lookup(ext: &Vec<(u128, i64)>, c: u128) -> (r: Option<i64>)
    ensures
        r == channel_value(ext@, c),
{
    let mut k: usize = 0;
    assert(ext@.skip(0) =~= ext@);
    while k < ext.len()
        invariant
            k <= ext.len(),
            channel_value(ext@, c) == channel_value(ext@.skip(k as int), c),
        decreases ext.len() - k,
    {
        proof {
            assert(ext@.skip(k as int).drop_first() =~= ext@.skip(k as int + 1));
        }
        if ext[k].0 == c {
            return Some(ext[k].1);
        }
        k += 1;
    }
    None
}

fn copy_string(s: &String) -> (r: String)
    ensures
        r == *s,
{
    s.clone()
}

proof fn lemma_dedup_first_push<A>(s: Seq<A>, x: A)
    ensures
        dedup_first(s.push(x)) == (if dedup_first(s).contains(x) {
            dedup_first(s)
        } else {
            dedup_first(s).push(x)
        }),
{
    assert(s.push(x).drop_last() =~= s);
}

/// Position of `entry` in `list`, if present.
fn find_provenance(list: &Vec<Provenance>, entry: &Provenance) -> (r: Option<usize>)
    ensures
        match r {
            Some(k) => k < list.len() && list@[k as int]@ == entry@,
            None => !list@.map_values(|v: Provenance| v@).contains(entry@),
        },
{
    let mut k: usize = 0;
    while k < list.len()
        invariant
            k <= list.len(),
            forall|a: int| 0 <= a < k ==> (#[trigger] list@[a])@ != entry@,
        decreases list.len() - k,
    {
        let candidate = &list[k];
        if candidate.received_delta == entry.received_delta && candidate.source_kind
            == entry.source_kind && candidate.source_reference == entry.source_reference {
            return Some(k);
        }
        k += 1;
    }
    proof {
        let m = list@.map_values(|v: Provenance| v@);
        if m.contains(entry@) {
            let a = choose|a: int| 0 <= a < m.len() && m[a] == entry@;
            assert(list@[a]@ == entry@);
        }
    }
    None
}

fn check_ordered(points: &[SegmentPoint]) -> (r: bool)
    ensures
        r == (points@.len() > 0 && points_strictly_ordered(points@)),
{
    let ghost p = points@;
    let n = points.len();
    if n == 0 {
        return false;
    }
    let mut i: usize = 1;
    while i < n
        invariant
            1 <= i <= n,
            n == p.len(),
            p == points@,
            points_strictly_ordered(p.take(i as int)),
        decreases n - i,
    {
        if points[i - 1].timestamp_epoch_millis >= points[i].timestamp_epoch_millis {
            proof {
                assert(p[i - 1].timestamp_epoch_millis >= p[i as int].timestamp_epoch_millis);
            }
            return false;
        }
        proof {
            let a = p.take(i as int);
            let b = p.take(i as int + 1);
            assert forall|x: int, y: int| 0 <= x < y < b.len() implies (
            #[trigger] b[x]).timestamp_epoch_millis < (#[trigger] b[y]).timestamp_epoch_millis by {
                if y < a.len() {
                    assert(b[x] == a[x] && b[y] == a[y]);
                } else if x < a.len() - 1 {
                    assert(b[x] == a[x] && a[a.len() - 1] == b[y - 1]);
                    assert(a[x].timestamp_epoch_millis < a[a.len() - 1].timestamp_epoch_millis);
                }
            }
        }
        i += 1;
    }
    proof {
        assert(p.take(n as int) =~= p);
    }
    true
}

pub open spec fn timestamp_deltas_spec(p: Seq<SegmentPoint>) -> Seq<i64> {
    Seq::new(
        (p.len() - 1) as nat,
        |i: int| (p[i + 1].timestamp_epoch_millis - p[i].timestamp_epoch_millis) as i64,
    )
}

pub open spec fn delta_overflows(p: Seq<SegmentPoint>) -> bool {
    exists|i: int|
        0 <= i < p.len() - 1 && #[trigger] p[i + 1].timestamp_epoch_millis - p[i].timestamp_epoch_millis
            > i64::MAX
}

pub open spec fn provenance_overflows(p: Seq<SegmentPoint>) -> bool {
    exists|i: int|
        0 <= i < p.len() && !(i64::MIN <= #[trigger] p[i].received_at_epoch_millis
            - p[i].timestamp_epoch_millis <= i64::MAX)
}

fn encode_timestamp_deltas(points: &[SegmentPoint]) -> (r: Option<Vec<i64>>)
    requires
        points@.len() > 0,
        points_strictly_ordered(points@),
    ensures
        match r {
            Some(v) => !delta_overflows(points@) && v@ == timestamp_deltas_spec(points@),
            None => delta_overflows(points@),
        },
{
    let ghost p = points@;
    let n = points.len();
    let mut timestamp_deltas: Vec<i64> = Vec::new();
    let mut i: usize = 1;
    while i < n
        invariant
            1 <= i <= n,
            n == p.len(),
            p == points@,
            points_strictly_ordered(p),
            timestamp_deltas@ == Seq::new(
                (i - 1) as nat,
                |k: int| (p[k + 1].timestamp_epoch_millis - p[k].timestamp_epoch_millis) as i64,
            ),
            forall|k: int|
                0 <= k < i - 1 ==> !(#[trigger] p[k + 1].timestamp_epoch_millis - p[k].timestamp_epoch_millis
                    > i64::MAX),
        decreases n - i,
    {
        let prev = i - 1;
        match points[i].timestamp_epoch_millis.checked_sub(points[prev].timestamp_epoch_millis) {
            Some(d) => timestamp_deltas.push(d),
            None => {
                proof {
                    assert(p[prev as int].timestamp_epoch_millis < p[i as int].timestamp_epoch_millis);
                    assert(p[prev + 1].timestamp_epoch_millis - p[prev as int].timestamp_epoch_millis
                        > i64::MAX);
                }
                return None;
            },
        }
        proof {
            assert(timestamp_deltas@ =~= Seq::new(
                i as nat,
                |k: int| (p[k + 1].timestamp_epoch_millis - p[k].timestamp_epoch_millis) as i64,
            ));
        }
        i += 1;
    }
    Some(timestamp_deltas)
}

fn encode_provenance(points: &[SegmentPoint]) -> (r: Option<(Vec<Provenance>, Vec<u32>)>)
    requires
        points@.len() <= u32::MAX,
    ensures
        match r {
            Some((table, index)) => {
                let provenance = dedup_first(provenance_entries(points@));
                &&& !provenance_overflows(points@)
                &&& table@.map_values(|v: Provenance| v@) == provenance
                &&& index@.len() == points@.len()
                &&& forall|i: int|
                    0 <= i < points@.len() ==> #[trigger] index@[i] < provenance.len()
                        && provenance[index@[i] as int] == provenance_of(points@[i])
            },
            None => provenance_overflows(points@),
        },
{
    let ghost p = points@;
    let n = points.len();
    let mut provenance: Vec<Provenance> = Vec::new();
    let mut provenance_index: Vec<u32> = Vec::new();
    let mut i: usize = 0;
    while i < n
        invariant
            i <= n,
            n == p.len(),
            n <= u32::MAX,
            p == points@,
            provenance@.map_values(|v: Provenance| v@) == dedup_first(provenance_entries(p).take(i as int)),
            provenance@.len() <= i,
            provenance_index@.len() == i,
            forall|k: int|
                0 <= k < i ==> #[trigger] provenance_index@[k] < provenance@.len()
                    && provenance@[provenance_index@[k] as int]@ == provenance_of(p[k]),
            forall|k: int|
                0 <= k < i ==> i64::MIN <= #[trigger] p[k].received_at_epoch_millis
                    - p[k].timestamp_epoch_millis <= i64::MAX,
        decreases n - i,
    {
        let point = &points[i];
        let delta = match point.received_at_epoch_millis.checked_sub(point.timestamp_epoch_millis) {
            Some(d) => d,
            None => {
                proof {
                    assert(!(i64::MIN <= p[i as int].received_at_epoch_millis
                        - p[i as int].timestamp_epoch_millis <= i64::MAX));
                }
                return None;
            },
        };
        let entry = Provenance {
            source_kind: copy_string(&point.source_kind),
            source_reference: copy_string(&point.source_reference),
            received_delta: delta,
        };
        proof {
            assert(entry@ == provenance_of(p[i as int]));
            assert(provenance_entries(p).take(i as int + 1) =~= provenance_entries(p).take(
                i as int,
            ).push(entry@));
            lemma_dedup_first_push(provenance_entries(p).take(i as int), entry@);
        }
        let ghost before = provenance@;
        let index = match find_provenance(&provenance, &entry) {
            Some(k) => {
                proof {
                    let m = before.map_values(|v: Provenance| v@);
                    assert(m[k as int] == entry@);
                    assert(m.contains(entry@));
                }
                k
            },
            None => {
                provenance.push(entry);
                proof {
                    assert(provenance@.map_values(|v: Provenance| v@) =~= before.map_values(
                        |v: Provenance| v@,
                    ).push(entry@));
                }
                provenance.len() - 1
            },
        };
        proof {
            assert forall|k: int| 0 <= k < i implies #[trigger] provenance_index@[k] < provenance@.len()
                && provenance@[provenance_index@[k] as int]@ == provenance_of(p[k]) by {
                assert(provenance@[provenance_index@[k] as int] == before[provenance_index@[k] as int]);
            }
        }
        provenance_index.push(index as u32);
        i += 1;
    }
    proof {
        assert(provenance_entries(p).take(n as int) =~= provenance_entries(p));
        let m = provenance@.map_values(|v: Provenance| v@);
        assert forall|k: int| 0 <= k < n implies #[trigger] provenance_index@[k] < m.len()
            && m[provenance_index@[k] as int] == provenance_of(p[k]) by {}
    }
    Some((provenance, provenance_index))
}

fn encode_generation(points: &[SegmentPoint]) -> (r: Vec<IntegerColumn>)
    ensures
        r@.len() == (if exists|i: int|
            0 <= i < points@.len() && (#[trigger] points@[i]).generation_power_watts is Some {
            1int
        } else {
            0int
        }),
        r@.len() == 1 ==> {
            &&& r@[0].field == 1
            &&& r@[0].scale == 0
            &&& r@[0].presence@ == column_spec(generation_values(points@)).0
            &&& r@[0].deltas@ == column_spec(generation_values(points@)).1
        },
{
    let ghost p = points@;
    let n = points.len();
    let mut generation: Vec<Option<i64>> = Vec::new();
    let mut any_generation = false;
    let mut i: usize = 0;
    while i < n
        invariant
            i <= n,
            n == p.len(),
            p == points@,
            generation@ == generation_values(p).take(i as int),
            any_generation <==> exists|k: int| 0 <= k < i && (#[trigger] p[k]).generation_power_watts is Some,
        decreases n - i,
    {
        let g = points[i].generation_power_watts;
        if g.is_some() {
            any_generation = true;
        }
        generation.push(g);
        proof {
            assert(generation@ =~= generation_values(p).take(i as int + 1));
        }
        i += 1;
    }
    proof {
        assert(generation@ =~= generation_values(p));
    }
    let mut columns: Vec<IntegerColumn> = Vec::new();
    if any_generation {
        let (presence, deltas) = column(&generation);
        columns.push(IntegerColumn { field: 1, presence, scale: 0, deltas });
    }
    columns
}

fn collect_channels(points: &[SegmentPoint]) -> (r: Vec<u128>)
    ensures
        strictly_increasing(r@),
        forall|c: u128| r@.contains(c) <==> channel_used(points@, c),
{
    let ghost p = points@;
    let n = points.len();
    let mut channels: Vec<u128> = Vec::new();
    let mut i: usize = 0;
    while i < n
        invariant
            i <= n,
            n == p.len(),
            p == points@,
            strictly_increasing(channels@),
            forall|c: u128| channels@.contains(c) <==> channel_seen(p, i as int, 0, c),
        decreases n - i,
    {
        let ext = &points[i].extended;
        let mut j: usize = 0;
        while j < ext.len()
            invariant
                i < n,
                n == p.len(),
                p == points@,
                *ext == p[i as int].extended,
                j <= ext.len(),
                strictly_increasing(channels@),
                forall|c: u128| channels@.contains(c) <==> channel_seen(p, i as int, j as int, c),
            decreases ext.len() - j,
        {
            let c = ext[j].0;
            insert_channel(&mut channels, c);
            proof {
                assert forall|x: u128| channels@.contains(x) <==> channel_seen(p, i as int, j as int + 1, x) by {
                    if channel_seen(p, i as int, j as int + 1, x) && x != c {
                        if exists|b: int| 0 <= b < j + 1 && #[trigger] p[i as int].extended@[b].0 == x {
                            let b = choose|b: int| 0 <= b < j + 1 && #[trigger] p[i as int].extended@[b].0 == x;
                            assert(b < j);
                        }
                    }
                    if x == c {
                        assert(p[i as int].extended@[j as int].0 == x);
                    }
                }
            }
            j += 1;
        }
        proof {
            assert forall|x: u128| channels@.contains(x) <==> channel_seen(p, i as int + 1, 0, x) by {
                if channel_seen(p, i as int, ext.len() as int, x) {
                    if exists|b: int| 0 <= b < ext.len() && #[trigger] p[i as int].extended@[b].0 == x {
                        let b = choose|b: int| 0 <= b < ext.len() && #[trigger] p[i as int].extended@[b].0 == x;
                        assert(0 <= i < i + 1 && p[i as int].extended@[b].0 == x);
                    }
                }
                if channel_seen(p, i as int + 1, 0, x) {
                    let (a, b) = choose|a: int, b: int|
                        0 <= a < i + 1 && 0 <= b < p[a].extended@.len() && #[trigger] p[a].extended@[b].0 == x;
                    if a == i {
                        assert(p[i as int].extended@[b].0 == x);
                    }
                }
            }
        }
        i += 1;
    }
    proof {
        assert forall|x: u128| channels@.contains(x) <==> channel_used(p, x) by {
            assert(channel_seen(p, n as int, 0, x) <==> channel_used(p, x));
        }
    }
    channels
}

fn encode_extended(points: &[SegmentPoint], channels: &Vec<u128>) -> (r: Vec<ExtendedColumn>)
    ensures
        r@.len() == channels@.len(),
        forall|a: int| 0 <= a < r@.len() ==> (#[trigger] r@[a]).channel_id == channels@[a],
        forall|a: int|
            0 <= a < r@.len() ==> {
                let col = #[trigger] r@[a];
                &&& col.value_type == 1
                &&& col.scale == 0
                &&& col.booleans@.len() == 0
                &&& col.presence@ == column_spec(channel_values(points@, col.channel_id)).0
                &&& col.deltas@ == column_spec(channel_values(points@, col.channel_id)).1
            },
{
    let ghost p = points@;
    let n = points.len();
    let mut extended: Vec<ExtendedColumn> = Vec::new();
    let mut k: usize = 0;
    while k < channels.len()
        invariant
            k <= channels.len(),
            n == p.len(),
            p == points@,
            extended@.len() == k,
            forall|a: int| 0 <= a < k ==> (#[trigger] extended@[a]).channel_id == channels@[a],
            forall|a: int|
                0 <= a < k ==> {
                    let col = #[trigger] extended@[a];
                    &&& col.value_type == 1
                    &&& col.scale == 0
                    &&& col.booleans@.len() == 0
                    &&& col.presence@ == column_spec(channel_values(p, col.channel_id)).0
                    &&& col.deltas@ == column_spec(channel_values(p, col.channel_id)).1
                },
        decreases channels.len() - k,
    {
        let c = channels[k];
        let mut values: Vec<Option<i64>> = Vec::new();
        let mut i: usize = 0;
        while i < n
            invariant
                i <= n,
                n == p.len(),
                p == points@,
                values@ == channel_values(p, c).take(i as int),
            decreases n - i,
        {
            let v = channel_lookup(&points[i].extended, c);
            values.push(v);
            proof {
                assert(values@ =~= channel_values(p, c).take(i as int + 1));
            }
            i += 1;
        }
        proof {
            assert(values@ =~= channel_values(p, c));
        }
        let (presence, deltas) = column(&values);
        extended.push(
            ExtendedColumn { channel_id: c, value_type: 1, presence, scale: 0, deltas, booleans: Vec::new() },
        );
        k += 1;
    }
    extended
}

fn encode_quality_flags(points: &[SegmentPoint]) -> (r: Vec<u32>)
    ensures
        r@ == Seq::new(points@.len(), |k: int| points@[k].quality_flags),
{
    let ghost p = points@;
    let n = points.len();
    let mut quality_flags: Vec<u32> = Vec::new();
    let mut i: usize = 0;
    while i < n
        invariant
            i <= n,
            n == p.len(),
            p == points@,
            quality_flags@ == Seq::new(i as nat, |k: int| p[k].quality_flags),
        decreases n - i,
    {
        quality_flags.push(points[i].quality_flags);
        proof {
            assert(quality_flags@ =~= Seq::new(i as nat + 1, |k: int| p[k].quality_flags));
        }
        i += 1;
    }
    quality_flags
}

/// The identifier stored as 16 bytes: their big-endian value, or `None` when the stored field
/// does not hold exactly 16 bytes.
pub fn uuid_value(bytes: &[u8]) -> (r: Option<u128>)
    ensures
        r == if bytes@.len() == 16 { Some(be_value(bytes@) as u128) } else { None::<u128> },
        r matches Some(v) ==> v == be_value(bytes@),
{
    if bytes.len() != 16 {
        return None;
    }
    proof {
        assert(be_max(16) == 0xffff_ffff_ffff_ffff_ffff_ffff_ffff_ffff) by {
            reveal_with_fuel(be_max, 17);
        }
    }
    let ghost b = bytes@;
    let mut value: u128 = 0;
    let mut i: usize = 0;
    while i < 16
        invariant
            i <= 16,
            bytes@ == b,
            b.len() == 16,
            value == be_value(b.take(i as int)),
            be_max(16) == 0xffff_ffff_ffff_ffff_ffff_ffff_ffff_ffff,
        decreases 16 - i,
    {
        proof {
            let t = b.take(i as int + 1);
            assert(t.drop_last() =~= b.take(i as int));
            assert(t.last() == b[i as int]);
            lemma_be_value_bound(t);
            lemma_be_max_monotone(t.len(), 16);
        }
        value = value * 256 + bytes[i] as u128;
        i += 1;
    }
    proof {
        assert(b.take(16) =~= b);
    }
    Some(value)
}

/// Builds the segment v1 envelope of one ordered system interval.
///
/// Fails for empty or unordered points, more rows than a segment can count, or timestamp,
/// provenance or column delta arithmetic that leaves the `i64` range. Each point lists its
/// channels in ascending order, once each, as a map keyed by channel keeps them.
pub fn build_envelope(system_id: u128, points: &[SegmentPoint]) -> (r: Result<
    SegmentEnvelope,
    SegmentCodecError,
>)
    requires
        rows_ascending(points@),
    ensures
        match encode_error(points@) {
            Some(e) => r == Err::<SegmentEnvelope, SegmentCodecError>(e),
            None => r matches Ok(env) && envelope_encodes(env, system_id, points@),
        },
{
    let ghost p = points@;
    if !check_ordered(points) {
        return Err(SegmentCodecError::UnorderedPoints);
    }
    let n = points.len();
    if n as u64 > u32::MAX as u64 {
        return Err(SegmentCodecError::Size);
    }
    let timestamp_deltas = match encode_timestamp_deltas(points) {
        Some(v) => v,
        None => {
            return Err(SegmentCodecError::Overflow);
        },
    };
    let (provenance, provenance_index) = match encode_provenance(points) {
        Some(t) => t,
        None => {
            return Err(SegmentCodecError::Overflow);
        },
    };
    let range_end = match points[n - 1].timestamp_epoch_millis.checked_add(1) {
        Some(v) => v,
        None => {
            return Err(SegmentCodecError::Overflow);
        },
    };
    let columns = encode_generation(points);
    let channels = collect_channels(points);
    let extended = encode_extended(points, &channels);
    let quality_flags = encode_quality_flags(points);
    let base = points[0].timestamp_epoch_millis;
    let env = SegmentEnvelope {
        schema_version: 1,
        system_id,
        range_start: base,
        range_end,
        row_count: n as u32,
        base_timestamp: base,
        timestamp_deltas,
        columns,
        extended,
        provenance,
        provenance_index,
        quality_flags,
    };
    proof {
        assert forall|c: u128| channel_used(p, c) <==> exists|k: int|
            0 <= k < env.extended@.len() && (#[trigger] env.extended@[k]).channel_id == c by {
            if channels@.contains(c) {
                let k = choose|k: int| 0 <= k < channels@.len() && channels@[k] == c;
                assert(env.extended@[k].channel_id == c);
            }
            if exists|k: int| 0 <= k < env.extended@.len() && (#[trigger] env.extended@[k]).channel_id == c {
                let k = choose|k: int| 0 <= k < env.extended@.len() && (#[trigger] env.extended@[k]).channel_id == c;
                assert(channels@[k] == c);
            }
        }
        assert forall|a: int, b: int| 0 <= a < b < env.extended@.len() implies (
        #[trigger] env.extended@[a]).channel_id < (#[trigger] env.extended@[b]).channel_id by {
            assert(channels@[a] < channels@[b]);
        }
        assert(env.timestamp_deltas@ =~= timestamp_deltas_spec(p));
        lemma_envelope_deltas(env, system_id, p);
    }
    if !envelope_deltas_ok(&env) {
        return Err(SegmentCodecError::Overflow);
    }
    Ok(env)
}

/// Keys of an extended row are strictly ascending.
pub open spec fn row_keys_ascending(s: Seq<(u128, i64)>) -> bool {
    forall|a: int, b: int| 0 <= a < b < s.len() ==> (#[trigger] s[a]).0 < (#[trigger] s[b]).0
}

proof fn lemma_channel_value_sorted(s: Seq<(u128, i64)>, x: u128)
    requires
        row_keys_ascending(s),
    ensures
        (forall|j: int| 0 <= j < s.len() ==> (#[trigger] s[j]).0 != x) ==> channel_value(s, x) is None,
        forall|j: int| 0 <= j < s.len() && (#[trigger] s[j]).0 == x ==> channel_value(s, x) == Some(s[j].1),
    decreases s.len(),
{
    if s.len() > 0 {
        let t = s.drop_first();
        assert forall|a: int, b: int| 0 <= a < b < t.len() implies (#[trigger] t[a]).0 < (#[trigger] t[b]).0 by {
            assert(t[a] == s[a + 1] && t[b] == s[b + 1]);
        }
        lemma_channel_value_sorted(t, x);
        assert forall|j: int| 0 <= j < s.len() && (#[trigger] s[j]).0 == x implies channel_value(s, x) == Some(s[j].1) by {
            if j > 0 {
                assert(t[j - 1] == s[j]);
                assert(s[0].0 < s[j].0);
            }
        }
        if forall|j: int| 0 <= j < s.len() ==> (#[trigger] s[j]).0 != x {
            assert forall|j: int| 0 <= j < t.len() implies (#[trigger] t[j]).0 != x by {
                assert(t[j] == s[j + 1]);
            }
        }
    }
}

/// Sets channel `c` of an ascending extended row to `v`.
fn row_insert(row: &mut Vec<(u128, i64)>, c: u128, v: i64)
    requires
        row_keys_ascending(old(row)@),
    ensures
        row_keys_ascending(final(row)@),
        forall|x: u128| channel_value(final(row)@, x) == (if x == c { Some(v) } else { channel_value(old(row)@, x) }),
{
    let ghost before = row@;
    let mut k: usize = 0;
    while k < row.len() && row[k].0 < c
        invariant
            k <= row.len(),
            row@ == before,
            forall|a: int| 0 <= a < k ==> (#[trigger] row@[a]).0 < c,
        decreases row.len() - k,
    {
        k += 1;
    }
    if k < row.len() && row[k].0 == c {
        row.set(k, (c, v));
    } else {
        row.insert(k, (c, v));
    }
    proof {
        let after = row@;
        assert forall|a: int, b: int| 0 <= a < b < after.len() implies (#[trigger] after[a]).0 < (#[trigger] after[b]).0 by {
            if after.len() == before.len() {
                assert(after[a].0 == before[a].0 && after[b].0 == before[b].0);
            } else if b < k {
                assert(after[a] == before[a] && after[b] == before[b]);
            } else if b == k {
                assert(after[a] == before[a]);
            } else if a < k {
                assert(after[a] == before[a] && after[b] == before[b - 1]);
                assert(before[k as int].0 > c);
                if b - 1 > k {
                    assert(before[k as int].0 < before[b - 1].0);
                }
            } else if a == k {
                assert(after[b] == before[b - 1]);
                assert(before[k as int].0 > c);
                if b - 1 > k {
                    assert(before[k as int].0 < before[b - 1].0);
                }
            } else {
                assert(after[a] == before[a - 1] && after[b] == before[b - 1]);
            }
        }
        lemma_channel_value_sorted(before, c);
        assert forall|x: u128| channel_value(after, x) == (if x == c { Some(v) } else { channel_value(before, x) }) by {
            lemma_channel_value_sorted(before, x);
            lemma_channel_value_sorted(after, x);
            if after.len() == before.len() {
                assert(after[k as int] == (c, v));
                if x == c {
                } else {
                    assert forall|j: int| 0 <= j < after.len() && (#[trigger] after[j]).0 == x implies before[j] == after[j] by {}
                    if exists|j: int| 0 <= j < before.len() && (#[trigger] before[j]).0 == x {
                        let j = choose|j: int| 0 <= j < before.len() && (#[trigger] before[j]).0 == x;
                        assert(after[j] == before[j]);
                    }
                }
            } else {
                assert(after[k as int] == (c, v));
                if x != c {
                    if exists|j: int| 0 <= j < before.len() && (#[trigger] before[j]).0 == x {
                        let j = choose|j: int| 0 <= j < before.len() && (#[trigger] before[j]).0 == x;
                        if j < k {
                            assert(after[j] == before[j]);
                        } else {
                            assert(after[j + 1] == before[j]);
                        }
                    }
                    assert forall|j: int| 0 <= j < after.len() && (#[trigger] after[j]).0 == x implies exists|jj: int|
                        0 <= jj < before.len() && before[jj] == after[j] by {
                        if j < k {
                            assert(before[j] == after[j]);
                        } else if j > k {
                            assert(before[j - 1] == after[j]);
                        }
                    }
                }
            }
        }
    }
}

/// Value of channel `c` in row `i` after applying the first `k` extended columns in order:
/// a later column overrides an earlier one for the same channel.
pub open spec fn row_value(cols: Seq<ExtendedColumn>, vals: Seq<Seq<Option<i64>>>, k: int, i: int, c: u128) -> Option<
    i64,
>
    decreases k,
{
    if k <= 0 {
        None
    } else if cols[k - 1].channel_id == c && vals[k - 1][i] is Some {
        vals[k - 1][i]
    } else {
        row_value(cols, vals, k - 1, i, c)
    }
}

/// Row count announced by the envelope and consistent with its per-row columns.
pub open spec fn envelope_shape_ok(env: SegmentEnvelope) -> bool {
    let count = env.row_count as int;
    &&& count != 0
    &&& env.timestamp_deltas@.len() + 1 == count
    &&& env.provenance_index@.len() == count
    &&& env.quality_flags@.len() == count
}

/// Reconstructed timestamp of row `i`.
pub open spec fn row_timestamp(env: SegmentEnvelope, i: int) -> int {
    env.base_timestamp + prefix_sum(env.timestamp_deltas@, i)
}

pub open spec fn timestamps_overflow(env: SegmentEnvelope) -> bool {
    exists|i: int| 1 <= i < env.row_count && !(i64::MIN <= #[trigger] row_timestamp(env, i) <= i64::MAX)
}

/// Index of the first integer column for the generation field, if any.
pub open spec fn generation_column(cols: Seq<IntegerColumn>) -> Option<int>
    decreases cols.len(),
{
    if cols.len() == 0 {
        None
    } else {
        match generation_column(cols.drop_last()) {
            Some(g) => Some(g),
            None => if cols.last().field == 1 { Some(cols.len() - 1) } else { None },
        }
    }
}

pub open spec fn generation_outcome(env: SegmentEnvelope) -> Result<Seq<Option<i64>>, SegmentCodecError> {
    match generation_column(env.columns@) {
        Some(g) => expand_spec(env.columns@[g].presence@, env.columns@[g].deltas@, env.row_count as int),
        None => Ok(Seq::new(env.row_count as nat, |i: int| None::<i64>)),
    }
}

/// The failure of the first extended column among `cols[0..k]` that cannot be expanded.
pub open spec fn extended_error(cols: Seq<ExtendedColumn>, k: int, count: int) -> Option<SegmentCodecError>
    decreases k,
{
    if k <= 0 {
        None
    } else {
        match extended_error(cols, k - 1, count) {
            Some(e) => Some(e),
            None => match expand_spec(cols[k - 1].presence@, cols[k - 1].deltas@, count) {
                Err(e) => Some(e),
                Ok(_) => None,
            },
        }
    }
}

/// Expanded values of every extended column.
pub open spec fn extended_values(env: SegmentEnvelope) -> Seq<Seq<Option<i64>>> {
    Seq::new(
        env.extended@.len(),
        |k: int|
            match expand_spec(env.extended@[k].presence@, env.extended@[k].deltas@, env.row_count as int) {
                Ok(v) => v,
                Err(_) => Seq::empty(),
            },
    )
}

/// The failure of row `i`: a dangling provenance index or an unrepresentable receive time.
pub open spec fn row_error(env: SegmentEnvelope, i: int) -> Option<SegmentCodecError> {
    let pi = env.provenance_index@[i] as int;
    if pi >= env.provenance@.len() {
        Some(SegmentCodecError::Integrity)
    } else if !(i64::MIN <= row_timestamp(env, i) + env.provenance@[pi].received_delta <= i64::MAX) {
        Some(SegmentCodecError::Overflow)
    } else {
        None
    }
}

/// The failure of the first failing row among `0..n`.
pub open spec fn rows_error(env: SegmentEnvelope, n: int) -> Option<SegmentCodecError>
    decreases n,
{
    if n <= 0 {
        None
    } else {
        match rows_error(env, n - 1) {
            Some(e) => Some(e),
            None => row_error(env, n - 1),
        }
    }
}

/// The reason an envelope cannot be decoded for an artifact announcing `row_count` rows.
pub open spec fn decode_error(env: SegmentEnvelope, row_count: u32) -> Option<SegmentCodecError> {
    if env.schema_version != 1 || env.row_count != row_count {
        Some(SegmentCodecError::Integrity)
    } else if !envelope_shape_ok(env) {
        Some(SegmentCodecError::Integrity)
    } else if timestamps_overflow(env) {
        Some(SegmentCodecError::Overflow)
    } else if generation_outcome(env) is Err {
        Some(generation_outcome(env)->Err_0)
    } else if extended_error(env.extended@, env.extended@.len() as int, env.row_count as int) is Some {
        extended_error(env.extended@, env.extended@.len() as int, env.row_count as int)
    } else {
        rows_error(env, env.row_count as int)
    }
}

/// `points` are the rows of `env`.
pub open spec fn points_decoded(env: SegmentEnvelope, points: Seq<SegmentPoint>) -> bool {
    let vals = extended_values(env);
    &&& points.len() == env.row_count
    &&& forall|i: int|
        0 <= i < points.len() ==> {
            let pt = #[trigger] points[i];
            let prov = env.provenance@[env.provenance_index@[i] as int];
            &&& pt.timestamp_epoch_millis == row_timestamp(env, i)
            &&& pt.generation_power_watts == generation_outcome(env)->Ok_0[i]
            &&& row_keys_ascending(pt.extended@)
            &&& forall|c: u128|
                channel_value(pt.extended@, c) == row_value(env.extended@, vals, env.extended@.len() as int, i, c)
            &&& pt.source_kind@ == prov.source_kind@
            &&& pt.source_reference@ == prov.source_reference@
            &&& pt.received_at_epoch_millis == row_timestamp(env, i) + prov.received_delta
            &&& pt.quality_flags == env.quality_flags@[i]
        }
}

fn decode_timestamps(env: &SegmentEnvelope) -> (r: Option<Vec<i64>>)
    requires
        envelope_shape_ok(*env),
    ensures
        match r {
            Some(v) => !timestamps_overflow(*env) && v@.len() == env.row_count && forall|i: int|
                0 <= i < v@.len() ==> #[trigger] v@[i] == row_timestamp(*env, i),
            None => timestamps_overflow(*env),
        },
{
    let count = env.row_count as usize;
    let ghost d = env.timestamp_deltas@;
    let mut timestamps: Vec<i64> = Vec::new();
    timestamps.push(env.base_timestamp);
    let mut previous = env.base_timestamp;
    let mut i: usize = 1;
    while i < count
        invariant
            1 <= i <= count,
            count == env.row_count,
            d == env.timestamp_deltas@,
            d.len() + 1 == count,
            timestamps@.len() == i,
            previous == row_timestamp(*env, i - 1),
            forall|k: int| 0 <= k < i ==> #[trigger] timestamps@[k] == row_timestamp(*env, k),
            forall|k: int| 1 <= k < i ==> i64::MIN <= #[trigger] row_timestamp(*env, k) <= i64::MAX,
        decreases count - i,
    {
        proof {
            assert(prefix_sum(d, i as int) == prefix_sum(d, i - 1) + d[i - 1]);
        }
        match previous.checked_add(env.timestamp_deltas[i - 1]) {
            Some(t) => {
                timestamps.push(t);
                previous = t;
            },
            None => {
                proof {
                    assert(!(i64::MIN <= row_timestamp(*env, i as int) <= i64::MAX));
                }
                return None;
            },
        }
        i += 1;
    }
    proof {
        assert forall|k: int| 1 <= k < env.row_count implies i64::MIN <= #[trigger] row_timestamp(*env, k)
            <= i64::MAX by {}
    }
    Some(timestamps)
}

fn decode_generation(env: &SegmentEnvelope) -> (r: Result<Vec<Option<i64>>, SegmentCodecError>)
    ensures
        match generation_outcome(*env) {
            Ok(v) => r matches Ok(x) && x@ == v,
            Err(e) => r == Err::<Vec<Option<i64>>, SegmentCodecError>(e),
        },
{
    let count = env.row_count as usize;
    let ghost cols = env.columns@;
    let mut k: usize = 0;
    while k < env.columns.len()
        invariant
            k <= cols.len(),
            cols == env.columns@,
            count == env.row_count,
            generation_column(cols.take(k as int)) is None,
        decreases env.columns.len() - k,
    {
        proof {
            assert(cols.take(k as int + 1).drop_last() =~= cols.take(k as int));
        }
        if env.columns[k].field == 1 {
            proof {
                assert(generation_column(cols.take(k as int + 1)) == Some(k as int));
                lemma_generation_column_prefix(cols, k as int + 1);
            }
            return expand(env.columns[k].presence.as_slice(), env.columns[k].deltas.as_slice(), count);
        }
        k += 1;
    }
    proof {
        assert(cols.take(k as int) =~= cols);
    }
    let mut values: Vec<Option<i64>> = Vec::new();
    let mut i: usize = 0;
    while i < count
        invariant
            i <= count,
            values@ == Seq::new(i as nat, |j: int| None::<i64>),
        decreases count - i,
    {
        values.push(None);
        proof {
            assert(values@ =~= Seq::new(i as nat + 1, |j: int| None::<i64>));
        }
        i += 1;
    }
    Ok(values)
}

proof fn lemma_generation_column_prefix(cols: Seq<IntegerColumn>, j: int)
    requires
        0 <= j <= cols.len(),
        generation_column(cols.take(j)) is Some,
    ensures
        generation_column(cols) == generation_column(cols.take(j)),
    decreases cols.len() - j,
{
    if j < cols.len() {
        assert(cols.take(j + 1).drop_last() =~= cols.take(j));
        lemma_generation_column_prefix(cols, j + 1);
    } else {
        assert(cols.take(j) =~= cols);
    }
}

fn decode_extended(env: &SegmentEnvelope) -> (r: Result<Vec<Vec<Option<i64>>>, SegmentCodecError>)
    ensures
        match extended_error(env.extended@, env.extended@.len() as int, env.row_count as int) {
            Some(e) => r == Err::<Vec<Vec<Option<i64>>>, SegmentCodecError>(e),
            None => r matches Ok(v) && v@.len() == env.extended@.len() && forall|k: int|
                0 <= k < v@.len() ==> (#[trigger] v@[k])@ == extended_values(*env)[k],
        },
{
    let count = env.row_count as usize;
    let ghost cols = env.extended@;
    let mut all: Vec<Vec<Option<i64>>> = Vec::new();
    let mut k: usize = 0;
    while k < env.extended.len()
        invariant
            k <= cols.len(),
            cols == env.extended@,
            count == env.row_count,
            extended_error(cols, k as int, count as int) is None,
            all@.len() == k,
            forall|a: int| 0 <= a < k ==> (#[trigger] all@[a])@ == extended_values(*env)[a],
        decreases env.extended.len() - k,
    {
        match expand(env.extended[k].presence.as_slice(), env.extended[k].deltas.as_slice(), count) {
            Ok(values) => {
                all.push(values);
            },
            Err(e) => {
                proof {
                    lemma_extended_error_prefix(cols, k as int + 1, count as int);
                }
                return Err(e);
            },
        }
        k += 1;
    }
    Ok(all)
}

proof fn lemma_extended_error_prefix(cols: Seq<ExtendedColumn>, j: int, count: int)
    requires
        0 <= j <= cols.len(),
        extended_error(cols, j, count) is Some,
    ensures
        extended_error(cols, cols.len() as int, count) == extended_error(cols, j, count),
    decreases cols.len() - j,
{
    if j < cols.len() {
        lemma_extended_error_prefix(cols, j + 1, count);
    }
}

proof fn lemma_rows_error_prefix(env: SegmentEnvelope, j: int, n: int)
    requires
        0 <= j <= n,
        rows_error(env, j) is Some,
    ensures
        rows_error(env, n) == rows_error(env, j),
    decreases n - j,
{
    if j < n {
        lemma_rows_error_prefix(env, j, n - 1);
    }
}

/// The envelope's header must match its artifact: schema version 1 and the row count the
/// artifact was sealed with.
pub fn check_header(schema_version: u32, envelope_rows: u32, sealed_rows: u32) -> (r: Result<(), SegmentCodecError>)
    ensures
        r is Ok <==> (schema_version == 1 && envelope_rows == sealed_rows),
        r is Err ==> r == Err::<(), SegmentCodecError>(SegmentCodecError::Integrity),
{
    if schema_version != 1 || envelope_rows != sealed_rows {
        Err(SegmentCodecError::Integrity)
    } else {
        Ok(())
    }
}

/// The first failure among the header, the column lengths, the timestamps and the columns of an
/// envelope, if any; the rows themselves are not yet looked at.
pub open spec fn columns_error_spec(env: SegmentEnvelope, row_count: u32) -> Option<SegmentCodecError> {
    if env.schema_version != 1 || env.row_count != row_count {
        Some(SegmentCodecError::Integrity)
    } else if !envelope_shape_ok(env) {
        Some(SegmentCodecError::Integrity)
    } else if timestamps_overflow(env) {
        Some(SegmentCodecError::Overflow)
    } else if generation_outcome(env) is Err {
        Some(generation_outcome(env)->Err_0)
    } else {
        extended_error(env.extended@, env.extended@.len() as int, env.row_count as int)
    }
}

/// Checks an envelope as far as its columns: the failure `segment_points` reports before it
/// looks at any row, or `None` when the header, lengths, timestamps and columns are sound.
pub fn columns_error(env: &SegmentEnvelope, row_count: u32) -> (r: Option<SegmentCodecError>)
    ensures
        r == columns_error_spec(*env, row_count),
        r is Some ==> decode_error(*env, row_count) == r,
{
    if let Err(e) = check_header(env.schema_version, env.row_count, row_count) {
        return Some(e);
    }
    let count = env.row_count as usize;
    if count == 0 || env.timestamp_deltas.len() != count - 1 || env.provenance_index.len() != count
        || env.quality_flags.len() != count {
        return Some(SegmentCodecError::Integrity);
    }
    if decode_timestamps(env).is_none() {
        return Some(SegmentCodecError::Overflow);
    }
    if let Err(e) = decode_generation(env) {
        return Some(e);
    }
    match decode_extended(env) {
        Err(e) => Some(e),
        Ok(_) => None,
    }
}

/// Rebuilds the ordered points of a verified segment envelope.
///
/// Fails when the envelope disagrees with the artifact's row count or its own column lengths,
/// when a column or provenance reference is inconsistent, or when reconstructed timestamps or
/// values leave the `i64` range.
pub fn segment_points(env: &SegmentEnvelope, row_count: u32) -> (r: Result<
    (u128, Vec<SegmentPoint>),
    SegmentCodecError,
>)
    ensures
        match decode_error(*env, row_count) {
            Some(e) => r == Err::<(u128, Vec<SegmentPoint>), SegmentCodecError>(e),
            None => r matches Ok((id, pts)) && id == env.system_id && points_decoded(*env, pts@),
        },
{
    check_header(env.schema_version, env.row_count, row_count)?;
    let count = env.row_count as usize;
    if count == 0 || env.timestamp_deltas.len() != count - 1 || env.provenance_index.len() != count
        || env.quality_flags.len() != count {
        return Err(SegmentCodecError::Integrity);
    }
    let timestamps = match decode_timestamps(env) {
        Some(t) => t,
        None => {
            return Err(SegmentCodecError::Overflow);
        },
    };
    let generation = decode_generation(env)?;
    let columns = decode_extended(env)?;
    let ghost vals = extended_values(*env);
    let mut points: Vec<SegmentPoint> = Vec::new();
    let mut i: usize = 0;
    while i < count
        invariant
            i <= count,
            count == env.row_count,
            env.schema_version == 1,
            env.row_count == row_count,
            !timestamps_overflow(*env),
            envelope_shape_ok(*env),
            timestamps@.len() == count,
            forall|k: int| 0 <= k < count ==> #[trigger] timestamps@[k] == row_timestamp(*env, k),
            generation_outcome(*env) is Ok,
            generation@ == generation_outcome(*env)->Ok_0,
            columns@.len() == env.extended@.len(),
            forall|k: int| 0 <= k < columns@.len() ==> (#[trigger] columns@[k])@ == vals[k],
            vals == extended_values(*env),
            extended_error(env.extended@, env.extended@.len() as int, env.row_count as int) is None,
            rows_error(*env, i as int) is None,
            points@.len() == i,
            forall|k: int|
                0 <= k < i ==> {
                    let pt = #[trigger] points@[k];
                    let prov = env.provenance@[env.provenance_index@[k] as int];
                    &&& pt.timestamp_epoch_millis == row_timestamp(*env, k)
                    &&& pt.generation_power_watts == generation_outcome(*env)->Ok_0[k]
                    &&& row_keys_ascending(pt.extended@)
                    &&& forall|c: u128|
                        channel_value(pt.extended@, c) == row_value(env.extended@, vals, env.extended@.len() as int, k, c)
                    &&& pt.source_kind@ == prov.source_kind@
                    &&& pt.source_reference@ == prov.source_reference@
                    &&& pt.received_at_epoch_millis == row_timestamp(*env, k) + prov.received_delta
                    &&& pt.quality_flags == env.quality_flags@[k]
                },
        decreases count - i,
    {
        let pi = env.provenance_index[i] as usize;
        if pi >= env.provenance.len() {
            proof {
                assert(rows_error(*env, i as int + 1) == Some(SegmentCodecError::Integrity));
                lemma_rows_error_prefix(*env, i as int + 1, count as int);
            }
            return Err(SegmentCodecError::Integrity);
        }
        let provenance = &env.provenance[pi];
        let timestamp = timestamps[i];
        let received = match timestamp.checked_add(provenance.received_delta) {
            Some(v) => v,
            None => {
                proof {
                    assert(rows_error(*env, i as int + 1) == Some(SegmentCodecError::Overflow));
                    lemma_rows_error_prefix(*env, i as int + 1, count as int);
                }
                return Err(SegmentCodecError::Overflow);
            },
        };
        let mut row: Vec<(u128, i64)> = Vec::new();
        let mut k: usize = 0;
        while k < columns.len()
            invariant
                k <= columns@.len(),
                i < count,
                count == env.row_count,
                columns@.len() == env.extended@.len(),
                forall|a: int| 0 <= a < columns@.len() ==> (#[trigger] columns@[a])@ == vals[a],
                vals == extended_values(*env),
                extended_error(env.extended@, env.extended@.len() as int, env.row_count as int) is None,
                row_keys_ascending(row@),
                forall|c: u128| channel_value(row@, c) == row_value(env.extended@, vals, k as int, i as int, c),
            decreases columns.len() - k,
        {
            proof {
                lemma_expanded_column_len(*env, k as int);
            }
            match columns[k][i] {
                Some(v) => {
                    row_insert(&mut row, env.extended[k].channel_id, v);
                },
                None => {},
            }
            k += 1;
        }
        points.push(
            SegmentPoint {
                timestamp_epoch_millis: timestamp,
                generation_power_watts: generation[i],
                extended: row,
                source_kind: copy_string(&provenance.source_kind),
                source_reference: copy_string(&provenance.source_reference),
                received_at_epoch_millis: received,
                quality_flags: env.quality_flags[i],
            },
        );
        i += 1;
    }
    Ok((env.system_id, points))
}

/// Every expanded extended column has one value per row.
proof fn lemma_expanded_column_len(env: SegmentEnvelope, k: int)
    requires
        0 <= k < env.extended@.len(),
        extended_error(env.extended@, env.extended@.len() as int, env.row_count as int) is None,
    ensures
        extended_values(env)[k].len() == env.row_count,
        expand_spec(env.extended@[k].presence@, env.extended@[k].deltas@, env.row_count as int) is Ok,
{
    lemma_extended_error_none_prefix(env.extended@, env.extended@.len() as int, k + 1, env.row_count as int);
}

proof fn lemma_extended_error_none_prefix(cols: Seq<ExtendedColumn>, n: int, j: int, count: int)
    requires
        0 < j <= n,
        extended_error(cols, n, count) is None,
    ensures
        extended_error(cols, j, count) is None,
        expand_spec(cols[j - 1].presence@, cols[j - 1].deltas@, count) is Ok,
    decreases n - j,
{
    if j < n {
        lemma_extended_error_none_prefix(cols, n, j + 1, count);
    }
}

/// `a` frames the serialized envelope `uncompressed` announcing `row_count` rows.
pub open spec fn seals(a: ArchivedSegmentBytes, uncompressed: Seq<u8>, row_count: u32) -> bool {
    &&& a.schema_version == 1
    &&& a.row_count == row_count
    &&& a.uncompressed_length == uncompressed.len()
    &&& a.compressed_length == a.compressed_bytes@.len()
    &&& a.content_hash@ == blake3_digest(uncompressed)
    &&& zstd_decoded(a.compressed_bytes@) == Some(uncompressed)
    &&& a.compressed_bytes@ == zstd_frame(9, true, uncompressed)
}

/// What opening an artifact yields: its verified uncompressed envelope bytes.
pub open spec fn open_outcome(a: ArchivedSegmentBytes) -> Result<Seq<u8>, SegmentCodecError> {
    if a.schema_version != 1 || a.compressed_length != a.compressed_bytes@.len() {
        Err(SegmentCodecError::Integrity)
    } else {
        match zstd_decoded(a.compressed_bytes@) {
            None => Err(SegmentCodecError::Compression),
            Some(content) => if a.uncompressed_length != content.len() || blake3_digest(content)
                != a.content_hash@ {
                Err(SegmentCodecError::Integrity)
            } else {
                Ok(content)
            },
        }
    }
}

/// Frames serialized envelope bytes: BLAKE3 content digest, lengths, and a checksummed zstd
/// stream at level 9. Framing in memory always succeeds, and the frame depends on the bytes alone.
pub fn seal_segment(uncompressed: &[u8], row_count: u32) -> (r: Result<
    ArchivedSegmentBytes,
    SegmentCodecError,
>)
    ensures
        r matches Ok(a) && seals(a, uncompressed@, row_count),
{
    let content_hash = blake3_hash(uncompressed);
    let mut encoder = match zstd_encoder_new(9) {
        Some(e) => e,
        None => {
            return Err(SegmentCodecError::Compression);
        },
    };
    if !zstd_include_checksum(&mut encoder, true) {
        return Err(SegmentCodecError::Compression);
    }
    if !zstd_write_all(&mut encoder, uncompressed) {
        return Err(SegmentCodecError::Compression);
    }
    let compressed_bytes = match zstd_finish(encoder) {
        Some(bytes) => bytes,
        None => {
            return Err(SegmentCodecError::Compression);
        },
    };
    proof {
        assert(Seq::<u8>::empty() + uncompressed@ =~= uncompressed@);
    }
    Ok(
        ArchivedSegmentBytes {
            schema_version: 1,
            row_count,
            uncompressed_length: uncompressed.len() as u64,
            compressed_length: compressed_bytes.len() as u64,
            content_hash,
            compressed_bytes,
        },
    )
}

fn digests_equal(a: &[u8; 32], b: &[u8]) -> (r: bool)
    ensures
        r == (a@ == b@),
{
    if b.len() != 32 {
        return false;
    }
    let mut i: usize = 0;
    while i < 32
        invariant
            i <= 32,
            b@.len() == 32,
            a@.len() == 32,
            forall|k: int| 0 <= k < i ==> a@[k] == b@[k],
        decreases 32 - i,
    {
        if a[i] != b[i] {
            return false;
        }
        i += 1;
    }
    proof {
        assert(a@ =~= b@);
    }
    true
}

/// Verifies an artifact's framing and returns its uncompressed envelope bytes.
pub fn open_segment(artifact: &ArchivedSegmentBytes) -> (r: Result<Vec<u8>, SegmentCodecError>)
    ensures
        match open_outcome(*artifact) {
            Ok(content) => r matches Ok(v) && v@ == content,
            Err(e) => r == Err::<Vec<u8>, SegmentCodecError>(e),
        },
{
    if artifact.schema_version != 1 || artifact.compressed_length != artifact.compressed_bytes.len() as u64 {
        return Err(SegmentCodecError::Integrity);
    }
    let uncompressed = match zstd_decode_all(artifact.compressed_bytes.as_slice()) {
        Some(v) => v,
        None => {
            return Err(SegmentCodecError::Compression);
        },
    };
    if artifact.uncompressed_length != uncompressed.len() as u64 {
        return Err(SegmentCodecError::Integrity);
    }
    let digest = blake3_hash(uncompressed.as_slice());
    if !digests_equal(&digest, artifact.content_hash.as_slice()) {
        return Err(SegmentCodecError::Integrity);
    }
    Ok(uncompressed)
}

/// Opening a sealed artifact returns exactly the bytes that were sealed.
pub proof fn sealed_segment_opens(a: ArchivedSegmentBytes, uncompressed: Seq<u8>, row_count: u32)
    requires
        seals(a, uncompressed, row_count),
    ensures
        open_outcome(a) == Ok::<Seq<u8>, SegmentCodecError>(uncompressed),
{
}

/// Sealing is deterministic: two artifacts that seal the same bytes with the same row count agree
/// in every field.
pub proof fn sealing_is_deterministic(a: ArchivedSegmentBytes, b: ArchivedSegmentBytes, uncompressed: Seq<u8>, row_count: u32)
    requires
        seals(a, uncompressed, row_count),
        seals(b, uncompressed, row_count),
    ensures
        a.schema_version == b.schema_version,
        a.row_count == b.row_count,
        a.uncompressed_length == b.uncompressed_length,
        a.compressed_length == b.compressed_length,
        a.content_hash@ == b.content_hash@,
        a.compressed_bytes@ == b.compressed_bytes@,
{
}

/// The fields of an integer column, with its lists as sequences.
pub open spec fn integer_column_view(c: IntegerColumn) -> (i32, Seq<u8>, i32, Seq<i64>) {
    (c.field, c.presence@, c.scale, c.deltas@)
}

/// The fields of an extended column, with its lists as sequences.
pub open spec fn extended_column_view(c: ExtendedColumn) -> (u128, i32, Seq<u8>, i32, Seq<i64>, Seq<u8>) {
    (c.channel_id, c.value_type, c.presence@, c.scale, c.deltas@, c.booleans@)
}

proof fn lemma_dedup_first_distinct<A>(s: Seq<A>)
    ensures
        forall|i: int, j: int|
            0 <= i < j < dedup_first(s).len() ==> #[trigger] dedup_first(s)[i] != #[trigger] dedup_first(s)[j],
    decreases s.len(),
{
    if s.len() > 0 {
        let t = s.drop_last();
        lemma_dedup_first_distinct(t);
        assert(s =~= t.push(s.last()));
        lemma_dedup_first_push(t, s.last());
        let d = dedup_first(t);
        if !d.contains(s.last()) {
            let e = d.push(s.last());
            assert forall|i: int, j: int| 0 <= i < j < e.len() implies #[trigger] e[i] != #[trigger] e[j] by {
                if j == e.len() - 1 {
                    assert(e[i] == d[i]);
                    if e[i] == e[j] {
                        assert(d.contains(s.last()));
                    }
                } else {
                    assert(e[i] == d[i] && e[j] == d[j]);
                }
            }
        }
    }
}

/// Two strictly increasing channel lists that hold the same channels are equal.
proof fn lemma_channels_unique(a: Seq<u128>, b: Seq<u128>)
    requires
        strictly_increasing(a),
        strictly_increasing(b),
        forall|c: u128| a.contains(c) <==> b.contains(c),
    ensures
        a == b,
    decreases a.len() + b.len(),
{
    if a.len() == 0 && b.len() == 0 {
        assert(a =~= b);
    } else if a.len() == 0 {
        assert(b.contains(b[b.len() - 1]));
    } else if b.len() == 0 {
        assert(a.contains(a[a.len() - 1]));
    } else {
        let x = a[a.len() - 1];
        let y = b[b.len() - 1];
        assert(a.contains(x));
        assert(b.contains(y));
        let i = choose|i: int| 0 <= i < b.len() && b[i] == x;
        let j = choose|j: int| 0 <= j < a.len() && a[j] == y;
        if i < b.len() - 1 {
            assert(b[i] < b[b.len() - 1]);
        }
        if j < a.len() - 1 {
            assert(a[j] < a[a.len() - 1]);
        }
        assert(x == y);
        let ta = a.drop_last();
        let tb = b.drop_last();
        assert forall|c: u128| ta.contains(c) <==> tb.contains(c) by {
            if ta.contains(c) {
                let k = choose|k: int| 0 <= k < ta.len() && ta[k] == c;
                assert(a[k] == c && a[k] < x);
                assert(b.contains(c));
                let m = choose|m: int| 0 <= m < b.len() && b[m] == c;
                assert(m != b.len() - 1);
                assert(tb[m] == c);
            }
            if tb.contains(c) {
                let k = choose|k: int| 0 <= k < tb.len() && tb[k] == c;
                assert(b[k] == c && b[k] < y);
                assert(a.contains(c));
                let m = choose|m: int| 0 <= m < a.len() && a[m] == c;
                assert(m != a.len() - 1);
                assert(ta[m] == c);
            }
        }
        assert forall|p: int, q: int| 0 <= p < q < ta.len() implies #[trigger] ta[p] < #[trigger] ta[q] by {
            assert(ta[p] == a[p] && ta[q] == a[q]);
        }
        assert forall|p: int, q: int| 0 <= p < q < tb.len() implies #[trigger] tb[p] < #[trigger] tb[q] by {
            assert(tb[p] == b[p] && tb[q] == b[q]);
        }
        lemma_channels_unique(ta, tb);
        assert(a =~= ta.push(x));
        assert(b =~= tb.push(y));
    }
}

/// Building an envelope is deterministic: two envelopes of the same points for the same system
/// agree in every field.
pub proof fn envelope_is_determined(e1: SegmentEnvelope, e2: SegmentEnvelope, system_id: u128, p: Seq<SegmentPoint>)
    requires
        envelope_encodes(e1, system_id, p),
        envelope_encodes(e2, system_id, p),
    ensures
        e1.schema_version == e2.schema_version,
        e1.system_id == e2.system_id,
        e1.range_start == e2.range_start,
        e1.range_end == e2.range_end,
        e1.row_count == e2.row_count,
        e1.base_timestamp == e2.base_timestamp,
        e1.timestamp_deltas@ == e2.timestamp_deltas@,
        e1.columns@.map_values(|c: IntegerColumn| integer_column_view(c)) == e2.columns@.map_values(
            |c: IntegerColumn| integer_column_view(c),
        ),
        e1.extended@.map_values(|c: ExtendedColumn| extended_column_view(c)) == e2.extended@.map_values(
            |c: ExtendedColumn| extended_column_view(c),
        ),
        e1.provenance@.map_values(|v: Provenance| v@) == e2.provenance@.map_values(|v: Provenance| v@),
        e1.provenance_index@ == e2.provenance_index@,
        e1.quality_flags@ == e2.quality_flags@,
{
    assert(e1.timestamp_deltas@ =~= e2.timestamp_deltas@);
    assert(e1.quality_flags@ =~= e2.quality_flags@);
    assert(e1.columns@.map_values(|c: IntegerColumn| integer_column_view(c)) =~= e2.columns@.map_values(
        |c: IntegerColumn| integer_column_view(c),
    ));
    let ids1 = e1.extended@.map_values(|c: ExtendedColumn| c.channel_id);
    let ids2 = e2.extended@.map_values(|c: ExtendedColumn| c.channel_id);
    assert forall|c: u128| ids1.contains(c) <==> ids2.contains(c) by {
        if ids1.contains(c) {
            let k = choose|k: int| 0 <= k < ids1.len() && ids1[k] == c;
            assert(e1.extended@[k].channel_id == c);
            assert(channel_used(p, c));
            let m = choose|m: int| 0 <= m < e2.extended@.len() && (#[trigger] e2.extended@[m]).channel_id == c;
            assert(ids2[m] == c);
        }
        if ids2.contains(c) {
            let k = choose|k: int| 0 <= k < ids2.len() && ids2[k] == c;
            assert(e2.extended@[k].channel_id == c);
            assert(channel_used(p, c));
            let m = choose|m: int| 0 <= m < e1.extended@.len() && (#[trigger] e1.extended@[m]).channel_id == c;
            assert(ids1[m] == c);
        }
    }
    assert forall|a: int, b: int| 0 <= a < b < ids1.len() implies #[trigger] ids1[a] < #[trigger] ids1[b] by {
        assert(e1.extended@[a].channel_id < e1.extended@[b].channel_id);
    }
    assert forall|a: int, b: int| 0 <= a < b < ids2.len() implies #[trigger] ids2[a] < #[trigger] ids2[b] by {
        assert(e2.extended@[a].channel_id < e2.extended@[b].channel_id);
    }
    lemma_channels_unique(ids1, ids2);
    assert forall|k: int| 0 <= k < e1.extended@.len() implies extended_column_view(#[trigger] e1.extended@[k])
        == extended_column_view(e2.extended@[k]) by {
        assert(ids1[k] == ids2[k]);
        let c1 = e1.extended@[k];
        let c2 = e2.extended@[k];
        assert(c1.booleans@ =~= c2.booleans@);
    }
    assert(e1.extended@.map_values(|c: ExtendedColumn| extended_column_view(c)) =~= e2.extended@.map_values(
        |c: ExtendedColumn| extended_column_view(c),
    ));
    let provenance = dedup_first(provenance_entries(p));
    lemma_dedup_first_distinct(provenance_entries(p));
    assert forall|i: int| 0 <= i < p.len() implies e1.provenance_index@[i] == e2.provenance_index@[i] by {
        let x = e1.provenance_index@[i] as int;
        let y = e2.provenance_index@[i] as int;
        assert(provenance[x] == provenance_of(p[i]));
        assert(provenance[y] == provenance_of(p[i]));
        if x < y {
            assert(provenance[x] != provenance[y]);
        } else if y < x {
            assert(provenance[y] != provenance[x]);
        }
    }
    assert(e1.provenance_index@ =~= e2.provenance_index@);
}

/// Every point lists its extended channels in ascending channel order, each channel once.
pub open spec fn rows_ascending(p: Seq<SegmentPoint>) -> bool {
    forall|i: int| 0 <= i < p.len() ==> row_keys_ascending(#[trigger] p[i].extended@)
}

/// Every column of the points can be rebuilt from its deltas.
pub open spec fn columns_decodable(p: Seq<SegmentPoint>) -> bool {
    &&& column_decodable(generation_values(p))
    &&& forall|c: u128| #[trigger] column_decodable(channel_values(p, c))
}

/// The fields of a point, with its text and channels as sequences.
pub open spec fn point_view(pt: SegmentPoint) -> (i64, Option<i64>, Seq<(u128, i64)>, Seq<char>, Seq<char>, i64, u32) {
    (
        pt.timestamp_epoch_millis,
        pt.generation_power_watts,
        pt.extended@,
        pt.source_kind@,
        pt.source_reference@,
        pt.received_at_epoch_millis,
        pt.quality_flags,
    )
}

proof fn lemma_timestamp_prefix(env: SegmentEnvelope, system_id: u128, p: Seq<SegmentPoint>, i: int)
    requires
        encode_error(p) is None,
        envelope_encodes(env, system_id, p),
        0 <= i < p.len(),
    ensures
        prefix_sum(env.timestamp_deltas@, i) == p[i].timestamp_epoch_millis - p[0].timestamp_epoch_millis,
    decreases i,
{
    let d = env.timestamp_deltas@;
    if i > 0 {
        lemma_timestamp_prefix(env, system_id, p, i - 1);
        let j = i - 1;
        assert(p[j + 1] == p[i]);
        assert(!(p[j + 1].timestamp_epoch_millis - p[j].timestamp_epoch_millis > i64::MAX));
        assert(p[j].timestamp_epoch_millis < p[i].timestamp_epoch_millis);
        assert(d[j] == p[i].timestamp_epoch_millis - p[j].timestamp_epoch_millis);
        assert(prefix_sum(d, i) == prefix_sum(d, i - 1) + d[i - 1]);
    }
}

proof fn lemma_generation_outcome(env: SegmentEnvelope, system_id: u128, p: Seq<SegmentPoint>)
    requires
        encode_error(p) is None,
        columns_decodable(p),
        envelope_encodes(env, system_id, p),
    ensures
        generation_outcome(env) == Ok::<Seq<Option<i64>>, SegmentCodecError>(generation_values(p)),
{
    let cols = env.columns@;
    if cols.len() == 1 {
        assert(cols.drop_last().len() == 0);
        assert(generation_column(cols.drop_last()) is None);
        assert(cols.last() == cols[0]);
        assert(generation_column(cols) == Some(0int));
        column_round_trip(generation_values(p));
    } else {
        assert(cols.len() == 0);
        assert forall|i: int| 0 <= i < p.len() implies (#[trigger] p[i]).generation_power_watts is None by {}
        assert(Seq::new(env.row_count as nat, |i: int| None::<i64>) =~= generation_values(p));
    }
}

proof fn lemma_extended_columns(env: SegmentEnvelope, system_id: u128, p: Seq<SegmentPoint>, k: int)
    requires
        encode_error(p) is None,
        columns_decodable(p),
        envelope_encodes(env, system_id, p),
        0 <= k <= env.extended@.len(),
    ensures
        extended_error(env.extended@, k, env.row_count as int) is None,
        forall|m: int|
            0 <= m < k ==> expand_spec(
                (#[trigger] env.extended@[m]).presence@,
                env.extended@[m].deltas@,
                env.row_count as int,
            ) == Ok::<Seq<Option<i64>>, SegmentCodecError>(channel_values(p, env.extended@[m].channel_id)),
    decreases k,
{
    if k > 0 {
        lemma_extended_columns(env, system_id, p, k - 1);
        let col = env.extended@[k - 1];
        assert(column_decodable(channel_values(p, col.channel_id)));
        column_round_trip(channel_values(p, col.channel_id));
    }
}

proof fn lemma_rows_ok(env: SegmentEnvelope, system_id: u128, p: Seq<SegmentPoint>, n: int)
    requires
        encode_error(p) is None,
        envelope_encodes(env, system_id, p),
        0 <= n <= p.len(),
    ensures
        rows_error(env, n) is None,
        forall|i: int|
            0 <= i < n ==> row_timestamp(env, i) + env.provenance@[env.provenance_index@[i] as int].received_delta
                == (#[trigger] p[i]).received_at_epoch_millis,
    decreases n,
{
    if n > 0 {
        lemma_rows_ok(env, system_id, p, n - 1);
        let i = n - 1;
        lemma_timestamp_prefix(env, system_id, p, i);
        let provenance = dedup_first(provenance_entries(p));
        let pi = env.provenance_index@[i] as int;
        assert(env.provenance@.map_values(|v: Provenance| v@)[pi] == env.provenance@[pi]@);
        assert(provenance[pi] == provenance_of(p[i]));
        assert(i64::MIN <= p[i].received_at_epoch_millis - p[i].timestamp_epoch_millis <= i64::MAX);
        assert(env.provenance@[pi].received_delta == p[i].received_at_epoch_millis - p[i].timestamp_epoch_millis);
    }
}

proof fn lemma_row_value(cols: Seq<ExtendedColumn>, vals: Seq<Seq<Option<i64>>>, k: int, i: int, c: u128)
    requires
        0 <= k <= cols.len(),
        forall|a: int, b: int| 0 <= a < b < cols.len() ==> (#[trigger] cols[a]).channel_id < (#[trigger] cols[b]).channel_id,
    ensures
        forall|m: int| 0 <= m < k && (#[trigger] cols[m]).channel_id == c ==> row_value(cols, vals, k, i, c) == vals[m][i],
        (forall|m: int| 0 <= m < k ==> (#[trigger] cols[m]).channel_id != c) ==> row_value(cols, vals, k, i, c) is None,
    decreases k,
{
    if k > 0 {
        lemma_row_value(cols, vals, k - 1, i, c);
        if cols[k - 1].channel_id == c {
            assert forall|m: int| 0 <= m < k - 1 implies (#[trigger] cols[m]).channel_id != c by {
                assert(cols[m].channel_id < cols[k - 1].channel_id);
            }
        }
    }
}

proof fn lemma_rows_equal(a: Seq<(u128, i64)>, b: Seq<(u128, i64)>)
    requires
        row_keys_ascending(a),
        row_keys_ascending(b),
        forall|c: u128| channel_value(a, c) == channel_value(b, c),
    ensures
        a == b,
    decreases a.len(),
{
    if a.len() == 0 {
        if b.len() > 0 {
            lemma_channel_value_sorted(b, b[0].0);
            lemma_channel_value_sorted(a, b[0].0);
            assert(channel_value(a, b[0].0) == channel_value(b, b[0].0));
        }
        assert(a =~= b);
    } else {
        let x = a[0].0;
        lemma_channel_value_sorted(a, x);
        lemma_channel_value_sorted(b, x);
        assert(channel_value(a, x) == Some(a[0].1));
        assert(channel_value(b, x) == channel_value(a, x));
        let j = choose|j: int| 0 <= j < b.len() && (#[trigger] b[j]).0 == x;
        if j > 0 {
            let y = b[0].0;
            lemma_channel_value_sorted(a, y);
            lemma_channel_value_sorted(b, y);
            assert(b[0].0 < b[j].0);
            assert(channel_value(b, y) == Some(b[0].1));
            assert(channel_value(a, y) == channel_value(b, y));
            let m = choose|m: int| 0 <= m < a.len() && (#[trigger] a[m]).0 == y;
            if m > 0 {
                assert(a[0].0 < a[m].0);
            }
            assert(false);
        }
        assert(b[0] == a[0]);
        let ta = a.drop_first();
        let tb = b.drop_first();
        assert forall|p: int, q: int| 0 <= p < q < ta.len() implies (#[trigger] ta[p]).0 < (#[trigger] ta[q]).0 by {
            assert(ta[p] == a[p + 1] && ta[q] == a[q + 1]);
        }
        assert forall|p: int, q: int| 0 <= p < q < tb.len() implies (#[trigger] tb[p]).0 < (#[trigger] tb[q]).0 by {
            assert(tb[p] == b[p + 1] && tb[q] == b[q + 1]);
        }
        assert forall|c: u128| channel_value(ta, c) == channel_value(tb, c) by {
            if c == x {
                lemma_channel_value_sorted(ta, c);
                lemma_channel_value_sorted(tb, c);
                assert forall|q: int| 0 <= q < ta.len() implies (#[trigger] ta[q]).0 != c by {
                    assert(ta[q] == a[q + 1]);
                    assert(a[0].0 < a[q + 1].0);
                }
                assert forall|q: int| 0 <= q < tb.len() implies (#[trigger] tb[q]).0 != c by {
                    assert(tb[q] == b[q + 1]);
                    assert(b[0].0 < b[q + 1].0);
                }
            } else {
                assert(channel_value(a, c) == channel_value(ta, c));
                assert(channel_value(b, c) == channel_value(tb, c));
            }
        }
        lemma_rows_equal(ta, tb);
        assert(a =~= seq![a[0]] + ta);
        assert(b =~= seq![b[0]] + tb);
    }
}

/// Points that encode without error have columns that decode back.
proof fn lemma_encodable_columns_decode(p: Seq<SegmentPoint>)
    requires
        encode_error(p) is None,
    ensures
        columns_decodable(p),
{
    column_decodable_iff_gaps_fit(generation_values(p));
    assert forall|c: u128| #[trigger] column_decodable(channel_values(p, c)) by {
        let cv = channel_values(p, c);
        column_decodable_iff_gaps_fit(cv);
        if !channel_used(p, c) {
            assert forall|i: int| 0 <= i < cv.len() implies (#[trigger] cv[i]) is None by {
                lemma_channel_value_absent(p[i].extended@, c);
            }
        }
    }
}

/// A row without an entry for channel `c` has no value for it.
proof fn lemma_channel_value_absent(ext: Seq<(u128, i64)>, c: u128)
    ensures
        (forall|j: int| 0 <= j < ext.len() ==> (#[trigger] ext[j]).0 != c) ==> channel_value(ext, c) is None,
    decreases ext.len(),
{
    if ext.len() > 0 {
        let t = ext.drop_first();
        lemma_channel_value_absent(t, c);
        if forall|j: int| 0 <= j < ext.len() ==> (#[trigger] ext[j]).0 != c {
            assert forall|j: int| 0 <= j < t.len() implies (#[trigger] t[j]).0 != c by {
                assert(t[j] == ext[j + 1]);
            }
        }
    }
}

/// Decoding an envelope gives back the points it was built from: the envelope of points that
/// encode without error, whose rows list each channel once in ascending order, decodes without
/// error, and every decoded point equals the point it came from.
pub proof fn envelope_round_trip(env: SegmentEnvelope, system_id: u128, p: Seq<SegmentPoint>, pts: Seq<SegmentPoint>)
    requires
        encode_error(p) is None,
        rows_ascending(p),
        envelope_encodes(env, system_id, p),
    ensures
        decode_error(env, p.len() as u32) is None,
        points_decoded(env, pts) ==> pts.len() == p.len() && forall|i: int|
            0 <= i < p.len() ==> point_view(#[trigger] pts[i]) == point_view(p[i]),
{
    lemma_encodable_columns_decode(p);
    let n = p.len() as int;
    let cols = env.extended@;
    assert forall|i: int| 0 <= i < n implies #[trigger] row_timestamp(env, i) == p[i].timestamp_epoch_millis by {
        lemma_timestamp_prefix(env, system_id, p, i);
    }
    assert(!timestamps_overflow(env)) by {
        if timestamps_overflow(env) {
            let i = choose|i: int| 1 <= i < env.row_count && !(i64::MIN <= #[trigger] row_timestamp(env, i) <= i64::MAX);
            assert(row_timestamp(env, i) == p[i].timestamp_epoch_millis);
        }
    }
    lemma_generation_outcome(env, system_id, p);
    lemma_extended_columns(env, system_id, p, cols.len() as int);
    lemma_rows_ok(env, system_id, p, n);
    if points_decoded(env, pts) {
        let vals = extended_values(env);
        assert forall|i: int| 0 <= i < n implies point_view(#[trigger] pts[i]) == point_view(p[i]) by {
            let pt = pts[i];
            let provenance = dedup_first(provenance_entries(p));
            let pi = env.provenance_index@[i] as int;
            assert(env.provenance@.map_values(|v: Provenance| v@)[pi] == env.provenance@[pi]@);
            assert(provenance[pi] == provenance_of(p[i]));
            assert forall|c: u128| channel_value(pt.extended@, c) == channel_value(p[i].extended@, c) by {
                lemma_row_value(cols, vals, cols.len() as int, i, c);
                lemma_channel_value_sorted(p[i].extended@, c);
                if exists|m: int| 0 <= m < cols.len() && (#[trigger] cols[m]).channel_id == c {
                    let m = choose|m: int| 0 <= m < cols.len() && (#[trigger] cols[m]).channel_id == c;
                    assert(vals[m] == channel_values(p, c));
                } else {
                    assert(!channel_used(p, c));
                    assert forall|j: int| 0 <= j < p[i].extended@.len() implies (#[trigger] p[i].extended@[j]).0 != c by {
                        if p[i].extended@[j].0 == c {
                            assert(channel_used(p, c));
                        }
                    }
                }
            }
            lemma_rows_equal(pt.extended@, p[i].extended@);
        }
    }
}

} // verus!
