//! Deterministic telemetry rollup construction over timezone-resolved UTC windows.

use vstd::prelude::*;

verus! {

#[derive(Clone, Copy, Debug, PartialEq, Eq, Structural)]
pub enum RollupGranularity {
    FifteenMinutes,
    Hourly,
    Daily,
    Monthly,
    Yearly,
}

/// A local-calendar bucket resolved to an unambiguous half-open UTC interval.
#[derive(Clone, Debug, PartialEq, Eq)]
pub struct RollupWindow {
    pub granularity: RollupGranularity,
    pub start_epoch_millis: i64,
    pub end_epoch_millis: i64,
    /// Human-readable local bucket identity including offset where it can repeat at DST fallback.
    pub local_label: String,
}

impl RollupWindow {
    /// A field-by-field copy of this window.
    pub fn duplicate(&self) -> (r: RollupWindow)
        ensures
            r == *self,
    {
        RollupWindow {
            granularity: self.granularity,
            start_epoch_millis: self.start_epoch_millis,
            end_epoch_millis: self.end_epoch_millis,
            local_label: self.local_label.clone(),
        }
    }
}

#[derive(Clone, Copy, Debug, PartialEq, Eq, Structural)]
pub struct RollupSample {
    pub timestamp_epoch_millis: i64,
    pub value: i64,
    /// Duration represented by this sample, clipped to its bucket by the ingest/derivation layer.
    pub covered_millis: u64,
}

#[derive(Clone, Debug, PartialEq, Eq)]
pub struct TelemetryRollup {
    pub window: RollupWindow,
    pub sum: i128,
    pub min: i64,
    pub max: i64,
    pub count: u64,
    pub first: i64,
    pub last: i64,
    /// Covered milliseconds capped to the bucket duration.
    pub covered_millis: u64,
    /// Coverage in basis points (`10_000` means complete).
    pub coverage_basis_points: u16,
}

#[derive(Clone, Copy, Debug, PartialEq, Eq, Structural)]
pub enum RollupBuildError {
    /// Rollup windows are invalid, overlapping, or use another granularity.
    InvalidWindow,
    /// Rollup samples must have unique ascending timestamps.
    SampleOrdering,
    /// A rollup sample is outside the supplied timezone windows.
    SampleOutsideWindows,
    /// Rollup arithmetic overflowed.
    Overflow,
}

impl RollupBuildError {
    /// Operator-facing description of the failure.
    pub fn message(&self) -> (r: &'static str)
        ensures
            r@ == match *self {
                RollupBuildError::InvalidWindow => "rollup windows are invalid, overlapping, or use another granularity"@,
                RollupBuildError::SampleOrdering => "rollup samples must have unique ascending timestamps"@,
                RollupBuildError::SampleOutsideWindows => "a rollup sample is outside the supplied timezone windows"@,
                RollupBuildError::Overflow => "rollup arithmetic overflowed"@,
            },
    {
        match self {
            RollupBuildError::InvalidWindow =>
                "rollup windows are invalid, overlapping, or use another granularity",
            RollupBuildError::SampleOrdering => "rollup samples must have unique ascending timestamps",
            RollupBuildError::SampleOutsideWindows =>
                "a rollup sample is outside the supplied timezone windows",
            RollupBuildError::Overflow => "rollup arithmetic overflowed",
        }
    }
}

/// Every window uses the requested granularity, is non-empty, and no window starts before an
/// earlier window ends.
pub open spec fn windows_well_formed(granularity: RollupGranularity, w: Seq<RollupWindow>) -> bool {
    &&& forall|i: int|
        0 <= i < w.len() ==> (#[trigger] w[i]).granularity == granularity
            && w[i].start_epoch_millis < w[i].end_epoch_millis
    &&& forall|i: int, j: int|
        0 <= i < j < w.len() ==> (#[trigger] w[i]).end_epoch_millis
            <= (#[trigger] w[j]).start_epoch_millis
}

/// Sample timestamps are unique and ascending.
pub open spec fn samples_strictly_ordered(s: Seq<RollupSample>) -> bool {
    forall|i: int, j: int|
        0 <= i < j < s.len() ==> (#[trigger] s[i]).timestamp_epoch_millis
            < (#[trigger] s[j]).timestamp_epoch_millis
}

/// Number of samples whose timestamp precedes `t`.
pub open spec fn samples_before(s: Seq<RollupSample>, t: i64) -> nat
    decreases s.len(),
{
    if s.len() == 0 {
        0
    } else {
        samples_before(s.drop_last(), t) + if s.last().timestamp_epoch_millis < t {
            1nat
        } else {
            0nat
        }
    }
}

/// Samples of a strictly ordered sequence that fall in the half-open window.
pub open spec fn window_bucket(s: Seq<RollupSample>, w: RollupWindow) -> Seq<RollupSample> {
    s.subrange(samples_before(s, w.start_epoch_millis) as int, samples_before(s, w.end_epoch_millis) as int)
}

pub open spec fn value_sum(b: Seq<RollupSample>) -> int
    decreases b.len(),
{
    if b.len() == 0 {
        0
    } else {
        value_sum(b.drop_last()) + b.last().value
    }
}

pub open spec fn covered_sum(b: Seq<RollupSample>) -> int
    decreases b.len(),
{
    if b.len() == 0 {
        0
    } else {
        covered_sum(b.drop_last()) + b.last().covered_millis
    }
}

pub open spec fn value_min(b: Seq<RollupSample>) -> int
    decreases b.len(),
{
    if b.len() <= 1 {
        if b.len() == 0 { 0 } else { b[0].value as int }
    } else {
        let m = value_min(b.drop_last());
        if b.last().value < m { b.last().value as int } else { m }
    }
}

pub open spec fn value_max(b: Seq<RollupSample>) -> int
    decreases b.len(),
{
    if b.len() <= 1 {
        if b.len() == 0 { 0 } else { b[0].value as int }
    } else {
        let m = value_max(b.drop_last());
        if b.last().value > m { b.last().value as int } else { m }
    }
}

pub open spec fn window_duration(w: RollupWindow) -> int {
    w.end_epoch_millis - w.start_epoch_millis
}

pub open spec fn capped_covered(w: RollupWindow, b: Seq<RollupSample>) -> int {
    if covered_sum(b) < window_duration(w) { covered_sum(b) } else { window_duration(w) }
}

/// The duration, the covered total, or the basis-point scaling does not fit the result types.
pub open spec fn bucket_overflows(w: RollupWindow, b: Seq<RollupSample>) -> bool {
    ||| window_duration(w) > i64::MAX
    ||| covered_sum(b) > u64::MAX
    ||| capped_covered(w, b) * 10_000 > u64::MAX
}

/// The rollup of one non-empty window bucket.
pub open spec fn rollup_of(w: RollupWindow, b: Seq<RollupSample>) -> TelemetryRollup {
    TelemetryRollup {
        window: w,
        sum: value_sum(b) as i128,
        min: value_min(b) as i64,
        max: value_max(b) as i64,
        count: b.len() as u64,
        first: b[0].value,
        last: b.last().value,
        covered_millis: capped_covered(w, b) as u64,
        coverage_basis_points: (capped_covered(w, b) * 10_000 / window_duration(w)) as u16,
    }
}

/// Samples already assigned once windows `0..k` were processed.
pub open spec fn samples_consumed(s: Seq<RollupSample>, w: Seq<RollupWindow>, k: int) -> nat {
    if k <= 0 {
        0
    } else {
        samples_before(s, w[k - 1].end_epoch_millis)
    }
}

/// Result of processing windows `k..` in order: the first gap sample or overflowing bucket
/// fails the build, a sample after the last window fails it, and otherwise every non-empty
/// bucket yields one rollup.
pub open spec fn rollup_outcome(s: Seq<RollupSample>, w: Seq<RollupWindow>, k: int) -> Result<
    Seq<TelemetryRollup>,
    RollupBuildError,
>
    decreases w.len() - k,
{
    if k < 0 || k >= w.len() {
        if samples_consumed(s, w, w.len() as int) < s.len() {
            Err(RollupBuildError::SampleOutsideWindows)
        } else {
            Ok(Seq::empty())
        }
    } else if samples_before(s, w[k].start_epoch_millis) > samples_consumed(s, w, k) {
        Err(RollupBuildError::SampleOutsideWindows)
    } else {
        let b = window_bucket(s, w[k]);
        if b.len() > 0 && bucket_overflows(w[k], b) {
            Err(RollupBuildError::Overflow)
        } else {
            match rollup_outcome(s, w, k + 1) {
                Ok(rest) => Ok(
                    if b.len() > 0 {
                        seq![rollup_of(w[k], b)] + rest
                    } else {
                        rest
                    },
                ),
                Err(e) => Err(e),
            }
        }
    }
}

/// The result of `build_rollups` on the given inputs.
pub open spec fn build_rollups_spec(
    granularity: RollupGranularity,
    s: Seq<RollupSample>,
    w: Seq<RollupWindow>,
) -> Result<Seq<TelemetryRollup>, RollupBuildError> {
    if !windows_well_formed(granularity, w) {
        Err(RollupBuildError::InvalidWindow)
    } else if !samples_strictly_ordered(s) {
        Err(RollupBuildError::SampleOrdering)
    } else {
        rollup_outcome(s, w, 0)
    }
}

pub open spec fn prepend_ok(
    acc: Seq<TelemetryRollup>,
    r: Result<Seq<TelemetryRollup>, RollupBuildError>,
) -> Result<Seq<TelemetryRollup>, RollupBuildError> {
    match r {
        Ok(rest) => Ok(acc + rest),
        Err(e) => Err(e),
    }
}

proof fn lemma_samples_before_bounded(s: Seq<RollupSample>, t: i64)
    ensures
        samples_before(s, t) <= s.len(),
    decreases s.len(),
{
    if s.len() > 0 {
        lemma_samples_before_bounded(s.drop_last(), t);
    }
}

proof fn lemma_samples_before_monotone(s: Seq<RollupSample>, t1: i64, t2: i64)
    requires
        t1 <= t2,
    ensures
        samples_before(s, t1) <= samples_before(s, t2),
    decreases s.len(),
{
    if s.len() > 0 {
        lemma_samples_before_monotone(s.drop_last(), t1, t2);
    }
}

/// In an ordered sequence, exactly the first `samples_before(s, t)` samples precede `t`.
proof fn lemma_samples_before_index(s: Seq<RollupSample>, t: i64)
    requires
        samples_strictly_ordered(s),
    ensures
        samples_before(s, t) <= s.len(),
        forall|i: int|
            0 <= i < s.len() ==> (i < samples_before(s, t) <==> (#[trigger] s[i]).timestamp_epoch_millis
                < t),
    decreases s.len(),
{
    lemma_samples_before_bounded(s, t);
    if s.len() > 0 {
        let d = s.drop_last();
        assert(samples_strictly_ordered(d)) by {
            assert forall|i: int, j: int| 0 <= i < j < d.len() implies (#[trigger] d[i]).timestamp_epoch_millis
                < (#[trigger] d[j]).timestamp_epoch_millis by {
                assert(d[i] == s[i] && d[j] == s[j]);
            }
        }
        lemma_samples_before_index(d, t);
        if s.last().timestamp_epoch_millis < t {
            assert forall|i: int| 0 <= i < d.len() implies (#[trigger] d[i]).timestamp_epoch_millis
                < t by {
                assert(d[i] == s[i]);
                assert(s[i].timestamp_epoch_millis < s[s.len() - 1].timestamp_epoch_millis);
            }
        }
        assert forall|i: int| 0 <= i < s.len() implies (i < samples_before(s, t) <==> (
        #[trigger] s[i]).timestamp_epoch_millis < t) by {
            if i < d.len() {
                assert(d[i] == s[i]);
            }
        }
    }
}

proof fn lemma_drop_last_take<A>(b: Seq<A>, j: int)
    requires
        0 < j <= b.len(),
    ensures
        b.take(j).drop_last() == b.take(j - 1),
        b.take(j).last() == b[j - 1],
{
    assert(b.take(j).drop_last() =~= b.take(j - 1));
}

proof fn lemma_covered_sum_monotone(b: Seq<RollupSample>, j: int)
    requires
        0 <= j <= b.len(),
    ensures
        covered_sum(b.take(j)) <= covered_sum(b),
        covered_sum(b.take(j)) >= 0,
    decreases b.len() - j,
{
    if j < b.len() {
        lemma_covered_sum_monotone(b, j + 1);
        lemma_drop_last_take(b, j + 1);
    } else {
        assert(b.take(j) =~= b);
        lemma_covered_sum_nonneg(b);
    }
    lemma_covered_sum_nonneg(b.take(j));
}

proof fn lemma_covered_sum_nonneg(b: Seq<RollupSample>)
    ensures
        covered_sum(b) >= 0,
    decreases b.len(),
{
    if b.len() > 0 {
        lemma_covered_sum_nonneg(b.drop_last());
    }
}

proof fn lemma_value_sum_bounds(b: Seq<RollupSample>)
    ensures
        -(b.len() as int) * 0x8000_0000_0000_0000 <= value_sum(b) <= (b.len() as int)
            * 0x7fff_ffff_ffff_ffff,
    decreases b.len(),
{
    if b.len() > 0 {
        lemma_value_sum_bounds(b.drop_last());
    }
}

proof fn lemma_min_max_range(b: Seq<RollupSample>)
    requires
        b.len() > 0,
    ensures
        i64::MIN <= value_min(b) <= i64::MAX,
        i64::MIN <= value_max(b) <= i64::MAX,
        value_min(b) <= value_max(b),
        forall|i: int| 0 <= i < b.len() ==> value_min(b) <= (#[trigger] b[i]).value <= value_max(b),
    decreases b.len(),
{
    if b.len() > 1 {
        let d = b.drop_last();
        lemma_min_max_range(d);
        assert forall|i: int| 0 <= i < b.len() implies value_min(b) <= (#[trigger] b[i]).value
            <= value_max(b) by {
            if i < d.len() {
                assert(d[i] == b[i]);
            }
        }
    }
}

fn validate_windows(granularity: RollupGranularity, windows: &[RollupWindow]) -> (r: Result<
    (),
    RollupBuildError,
>)
    ensures
        r is Ok <==> windows_well_formed(granularity, windows@),
        r is Err ==> r == Err::<(), RollupBuildError>(RollupBuildError::InvalidWindow),
{
    let mut index: usize = 0;
    while index < windows.len()
        invariant
            index <= windows.len(),
            windows_well_formed(granularity, windows@.take(index as int)),
        decreases windows.len() - index,
    {
        let window = &windows[index];
        if window.granularity != granularity || window.end_epoch_millis <= window.start_epoch_millis
            || (index > 0 && windows[index - 1].end_epoch_millis > window.start_epoch_millis) {
            proof {
                if index > 0 && windows@[index - 1].end_epoch_millis > window.start_epoch_millis {
                    assert(windows@[index as int - 1].end_epoch_millis
                        > windows@[index as int].start_epoch_millis);
                }
            }
            return Err(RollupBuildError::InvalidWindow);
        }
        proof {
            let p = windows@.take(index as int);
            let q = windows@.take(index as int + 1);
            assert forall|i: int| 0 <= i < q.len() implies (#[trigger] q[i]).granularity
                == granularity && q[i].start_epoch_millis < q[i].end_epoch_millis by {
                if i < p.len() {
                    assert(q[i] == p[i]);
                }
            }
            assert forall|i: int, j: int| 0 <= i < j < q.len() implies (
            #[trigger] q[i]).end_epoch_millis <= (#[trigger] q[j]).start_epoch_millis by {
                if j < p.len() {
                    assert(q[i] == p[i] && q[j] == p[j]);
                } else if i < p.len() - 1 {
                    assert(q[i] == p[i] && p[p.len() - 1] == q[j - 1]);
                    assert(p[i].end_epoch_millis <= p[p.len() - 1].start_epoch_millis);
                } else {
                    assert(q[i] == windows@[index as int - 1]);
                }
            }
        }
        index += 1;
    }
    assert(windows@.take(index as int) =~= windows@);
    Ok(())
}

fn samples_ordered(samples: &[RollupSample]) -> (r: bool)
    ensures
        r == samples_strictly_ordered(samples@),
{
    let mut index: usize = 1;
    if samples.len() == 0 {
        return true;
    }
    while index < samples.len()
        invariant
            1 <= index <= samples.len(),
            samples_strictly_ordered(samples@.take(index as int)),
        decreases samples.len() - index,
    {
        if samples[index - 1].timestamp_epoch_millis >= samples[index].timestamp_epoch_millis {
            proof {
                assert(samples@[index as int - 1].timestamp_epoch_millis
                    >= samples@[index as int].timestamp_epoch_millis);
            }
            return false;
        }
        proof {
            let p = samples@.take(index as int);
            let q = samples@.take(index as int + 1);
            assert forall|i: int, j: int| 0 <= i < j < q.len() implies (
            #[trigger] q[i]).timestamp_epoch_millis < (#[trigger] q[j]).timestamp_epoch_millis by {
                if j < p.len() {
                    assert(q[i] == p[i] && q[j] == p[j]);
                } else if i < p.len() - 1 {
                    assert(q[i] == p[i] && p[p.len() - 1] == q[j - 1]);
                    assert(p[i].timestamp_epoch_millis < p[p.len() - 1].timestamp_epoch_millis);
                } else {
                    assert(q[i] == samples@[index as int - 1]);
                }
            }
        }
        index += 1;
    }
    assert(samples@.take(index as int) =~= samples@);
    true
}

/// Aggregates one non-empty bucket `samples[lo..hi]` of `window`.
fn aggregate_bucket(window: &RollupWindow, samples: &[RollupSample], lo: usize, hi: usize) -> (r:
    Result<TelemetryRollup, RollupBuildError>)
    requires
        lo < hi <= samples.len(),
        window.start_epoch_millis < window.end_epoch_millis,
    ensures
        ({
            let b = samples@.subrange(lo as int, hi as int);
            &&& bucket_overflows(*window, b) ==> r == Err::<TelemetryRollup, RollupBuildError>(
                RollupBuildError::Overflow,
            )
            &&& !bucket_overflows(*window, b) ==> r == Ok::<TelemetryRollup, RollupBuildError>(
                rollup_of(*window, b),
            )
        }),
{
    let ghost b = samples@.subrange(lo as int, hi as int);
    let duration = match window.end_epoch_millis.checked_sub(window.start_epoch_millis) {
        Some(d) => d as u64,
        None => {
            return Err(RollupBuildError::Overflow);
        },
    };
    let mut covered: u64 = 0;
    let mut sum: i128 = 0;
    let mut min: i64 = samples[lo].value;
    let mut max: i64 = samples[lo].value;
    let mut i: usize = lo;
    while i < hi
        invariant
            lo <= i <= hi <= samples.len(),
            b == samples@.subrange(lo as int, hi as int),
            covered == covered_sum(b.take(i - lo)),
            sum == value_sum(b.take(i - lo)),
            i > lo ==> min == value_min(b.take(i - lo)) && max == value_max(b.take(i - lo)),
            i == lo ==> min == samples@[lo as int].value && max == samples@[lo as int].value,
        decreases hi - i,
    {
        let sample = samples[i];
        proof {
            let j = i - lo + 1;
            lemma_drop_last_take(b, j);
            assert(b[j - 1] == sample);
            lemma_value_sum_bounds(b.take(j));
        }
        covered = match covered.checked_add(sample.covered_millis) {
            Some(c) => c,
            None => {
                proof {
                    lemma_covered_sum_monotone(b, i - lo + 1);
                }
                return Err(RollupBuildError::Overflow);
            },
        };
        sum = sum + sample.value as i128;
        if i == lo {
            min = sample.value;
            max = sample.value;
        } else {
            if sample.value < min {
                min = sample.value;
            }
            if sample.value > max {
                max = sample.value;
            }
        }
        i += 1;
    }
    proof {
        assert(b.take(hi - lo) =~= b);
        lemma_covered_sum_nonneg(b);
    }
    let capped = if covered < duration { covered } else { duration };
    let scaled = match capped.checked_mul(10_000) {
        Some(v) => v,
        None => {
            return Err(RollupBuildError::Overflow);
        },
    };
    let coverage = scaled / duration;
    proof {
        assert(coverage <= 10_000) by (nonlinear_arith)
            requires
                coverage == scaled / duration,
                scaled == capped * 10_000,
                capped <= duration,
                duration > 0,
        ;
    }
    Ok(
        TelemetryRollup {
            window: window.duplicate(),
            sum,
            min,
            max,
            count: (hi - lo) as u64,
            first: samples[lo].value,
            last: samples[hi - 1].value,
            covered_millis: capped,
            coverage_basis_points: coverage as u16,
        },
    )
}

/// Builds rollups for pre-resolved timezone/calendar windows.
///
/// Fails for overlapping/invalid windows or mismatched granularity, duplicate or unordered
/// sample timestamps, samples outside all windows, or arithmetic overflow.
pub fn build_rollups(
    granularity: RollupGranularity,
    samples: &[RollupSample],
    windows: &[RollupWindow],
) -> (r: Result<Vec<TelemetryRollup>, RollupBuildError>)
    ensures
        match build_rollups_spec(granularity, samples@, windows@) {
            Ok(expected) => r matches Ok(v) && v@ == expected,
            Err(e) => r == Err::<Vec<TelemetryRollup>, RollupBuildError>(e),
        },
{
    if let Err(e) = validate_windows(granularity, windows) {
        return Err(e);
    }
    if !samples_ordered(samples) {
        return Err(RollupBuildError::SampleOrdering);
    }
    let ghost s = samples@;
    let ghost w = windows@;
    let mut result: Vec<TelemetryRollup> = Vec::new();
    let mut sample_index: usize = 0;
    let mut k: usize = 0;
    while k < windows.len()
        invariant
            s == samples@,
            w == windows@,
            windows_well_formed(granularity, w),
            samples_strictly_ordered(s),
            k <= windows.len(),
            sample_index == samples_consumed(s, w, k as int),
            sample_index <= s.len(),
            rollup_outcome(s, w, 0) == prepend_ok(result@, rollup_outcome(s, w, k as int)),
        decreases windows.len() - k,
    {
        let window = &windows[k];
        proof {
            lemma_samples_before_index(s, window.start_epoch_millis);
            lemma_samples_before_index(s, window.end_epoch_millis);
            lemma_samples_before_monotone(s, window.start_epoch_millis, window.end_epoch_millis);
            if k > 0 {
                assert(w[k - 1].end_epoch_millis <= w[k as int].start_epoch_millis);
                lemma_samples_before_monotone(s, w[k - 1].end_epoch_millis, window.start_epoch_millis);
            }
        }
        let first_index = sample_index;
        while sample_index < samples.len() && samples[sample_index].timestamp_epoch_millis
            < window.end_epoch_millis
            invariant
                s == samples@,
                w == windows@,
                samples_strictly_ordered(s),
                windows_well_formed(granularity, w),
                rollup_outcome(s, w, 0) == prepend_ok(result@, rollup_outcome(s, w, k as int)),
                k < w.len(),
                *window == w[k as int],
                first_index == samples_consumed(s, w, k as int),
                first_index <= sample_index <= samples_before(s, window.end_epoch_millis),
                first_index < sample_index ==> s[first_index as int].timestamp_epoch_millis
                    >= window.start_epoch_millis,
                samples_before(s, window.end_epoch_millis) <= s.len(),
                forall|i: int|
                    0 <= i < s.len() ==> (i < samples_before(s, window.end_epoch_millis) <==> (
                    #[trigger] s[i]).timestamp_epoch_millis < window.end_epoch_millis),
                forall|i: int|
                    0 <= i < s.len() ==> (i < samples_before(s, window.start_epoch_millis) <==> (
                    #[trigger] s[i]).timestamp_epoch_millis < window.start_epoch_millis),
            decreases samples.len() - sample_index,
        {
            if samples[sample_index].timestamp_epoch_millis < window.start_epoch_millis {
                proof {
                    if first_index < sample_index {
                        assert(s[first_index as int].timestamp_epoch_millis
                            < s[sample_index as int].timestamp_epoch_millis);
                    }
                    assert(s[first_index as int].timestamp_epoch_millis < window.start_epoch_millis);
                    assert(rollup_outcome(s, w, k as int) == Err::<
                        Seq<TelemetryRollup>,
                        RollupBuildError,
                    >(RollupBuildError::SampleOutsideWindows));
                }
                return Err(RollupBuildError::SampleOutsideWindows);
            }
            sample_index += 1;
        }
        proof {
            if sample_index < s.len() {
                assert(!(s[sample_index as int].timestamp_epoch_millis < window.end_epoch_millis));
            }
            assert(sample_index == samples_before(s, window.end_epoch_millis));
            if first_index < s.len() {
                assert(s[first_index as int].timestamp_epoch_millis >= window.start_epoch_millis);
            }
            assert(samples_before(s, window.start_epoch_millis) <= samples_consumed(s, w, k as int));
        }
        let ghost b = window_bucket(s, w[k as int]);
        proof {
            assert(b =~= s.subrange(first_index as int, sample_index as int)) by {
                if first_index > samples_before(s, window.start_epoch_millis) {
                    let i = samples_before(s, window.start_epoch_millis) as int;
                    assert(s[i].timestamp_epoch_millis >= window.start_epoch_millis);
                }
            }
        }
        if first_index < sample_index {
            match aggregate_bucket(window, samples, first_index, sample_index) {
                Ok(rollup) => {
                    proof {
                        let rest = rollup_outcome(s, w, k as int + 1);
                        match rest {
                            Ok(tail) => {
                                assert(result@.push(rollup) + tail =~= result@ + (seq![rollup]
                                    + tail));
                            },
                            Err(_) => {},
                        }
                    }
                    result.push(rollup);
                },
                Err(e) => {
                    return Err(e);
                },
            }
        }
        k += 1;
    }
    if sample_index != samples.len() {
        return Err(RollupBuildError::SampleOutsideWindows);
    }
    proof {
        assert(result@ + Seq::<TelemetryRollup>::empty() =~= result@);
    }
    Ok(result)
}

/// Sum of the sample counts of a list of rollups.
pub open spec fn total_count(rs: Seq<TelemetryRollup>) -> int
    decreases rs.len(),
{
    if rs.len() == 0 {
        0
    } else {
        rs[0].count + total_count(rs.drop_first())
    }
}

proof fn lemma_outcome_counts(s: Seq<RollupSample>, w: Seq<RollupWindow>, g: RollupGranularity, k: int)
    requires
        windows_well_formed(g, w),
        samples_strictly_ordered(s),
        s.len() <= u64::MAX,
        0 <= k <= w.len(),
        rollup_outcome(s, w, k) is Ok,
    ensures
        total_count(rollup_outcome(s, w, k)->Ok_0) == s.len() - samples_consumed(s, w, k),
    decreases w.len() - k,
{
    if k == w.len() {
        if k > 0 {
            lemma_samples_before_bounded(s, w[k - 1].end_epoch_millis);
        }
    } else {
        let wk = w[k];
        lemma_samples_before_monotone(s, wk.start_epoch_millis, wk.end_epoch_millis);
        lemma_samples_before_bounded(s, wk.end_epoch_millis);
        if k > 0 {
            lemma_samples_before_monotone(s, w[k - 1].end_epoch_millis, wk.start_epoch_millis);
        }
        lemma_outcome_counts(s, w, g, k + 1);
        let b = window_bucket(s, wk);
        let rest = rollup_outcome(s, w, k + 1)->Ok_0;
        if b.len() > 0 {
            let rs = seq![rollup_of(wk, b)] + rest;
            assert(rs.drop_first() =~= rest);
            assert(rs[0].count == b.len());
        }
    }
}

/// Every sample lands in exactly one rollup: when rollups are built, their sample counts add up
/// to the number of samples.
pub proof fn rollup_counts_cover_samples(g: RollupGranularity, s: Seq<RollupSample>, w: Seq<RollupWindow>)
    requires
        s.len() <= u64::MAX,
        build_rollups_spec(g, s, w) is Ok,
    ensures
        total_count(build_rollups_spec(g, s, w)->Ok_0) == s.len(),
{
    lemma_outcome_counts(s, w, g, 0);
}

/// Every rollup is internally consistent: it counts at least one sample, its first and last
/// values lie between its minimum and maximum, its covered time never exceeds its window, and
/// its coverage never exceeds 10000 basis points.
pub proof fn rollup_is_consistent(w: RollupWindow, b: Seq<RollupSample>)
    requires
        b.len() > 0,
        b.len() <= u64::MAX,
        w.start_epoch_millis < w.end_epoch_millis,
        !bucket_overflows(w, b),
    ensures
        rollup_of(w, b).count >= 1,
        rollup_of(w, b).min <= rollup_of(w, b).first <= rollup_of(w, b).max,
        rollup_of(w, b).min <= rollup_of(w, b).last <= rollup_of(w, b).max,
        rollup_of(w, b).covered_millis <= window_duration(w),
        rollup_of(w, b).coverage_basis_points <= 10_000,
{
    lemma_min_max_range(b);
    lemma_covered_sum_nonneg(b);
    let c = capped_covered(w, b);
    let d = window_duration(w);
    assert(c * 10_000 / d <= 10_000) by (nonlinear_arith)
        requires
            0 <= c <= d,
            d > 0,
    ;
}

/// What a rollup says of its bucket: its count is the number of samples, its first and last
/// values are those of the first and last sample, its maximum is a sample value no sample
/// exceeds, its minimum a sample value no sample goes below, and adding a sample to the bucket
/// adds that sample's value to the sum.
pub proof fn rollup_summarises_its_bucket(w: RollupWindow, b: Seq<RollupSample>, x: RollupSample)
    requires
        b.len() > 0,
        b.len() < u64::MAX,
    ensures
        rollup_of(w, b).count == b.len(),
        rollup_of(w, b).first == b[0].value,
        rollup_of(w, b).last == b[b.len() - 1].value,
        forall|i: int| 0 <= i < b.len() ==> (#[trigger] b[i]).value <= rollup_of(w, b).max,
        exists|i: int| 0 <= i < b.len() && (#[trigger] b[i]).value == rollup_of(w, b).max,
        forall|i: int| 0 <= i < b.len() ==> rollup_of(w, b).min <= (#[trigger] b[i]).value,
        exists|i: int| 0 <= i < b.len() && (#[trigger] b[i]).value == rollup_of(w, b).min,
        rollup_of(w, b.push(x)).sum == rollup_of(w, b).sum + x.value,
{
    lemma_min_max_range(b);
    lemma_min_max_attained(b);
    lemma_value_sum_bounds(b);
    lemma_value_sum_bounds(b.push(x));
    assert(b.push(x).drop_last() =~= b);
    assert(b.len() * i64::MIN >= -0x1_0000_0000_0000_0000 * 0x8000_0000_0000_0000) by (nonlinear_arith)
        requires
            0 < b.len() < 0x1_0000_0000_0000_0000,
    ;
    assert(b.len() * i64::MAX <= 0x1_0000_0000_0000_0000 * 0x7fff_ffff_ffff_ffff) by (nonlinear_arith)
        requires
            0 < b.len() < 0x1_0000_0000_0000_0000,
    ;
    assert((b.len() + 1) * i64::MIN >= -0x1_0000_0000_0000_0000 * 0x8000_0000_0000_0000) by (nonlinear_arith)
        requires
            0 < b.len() + 1 <= 0x1_0000_0000_0000_0000,
    ;
    assert((b.len() + 1) * i64::MAX <= 0x1_0000_0000_0000_0000 * 0x7fff_ffff_ffff_ffff) by (nonlinear_arith)
        requires
            0 < b.len() + 1 <= 0x1_0000_0000_0000_0000,
    ;
}

proof fn lemma_min_max_attained(b: Seq<RollupSample>)
    requires
        b.len() > 0,
    ensures
        exists|i: int| 0 <= i < b.len() && (#[trigger] b[i]).value == value_max(b),
        exists|i: int| 0 <= i < b.len() && (#[trigger] b[i]).value == value_min(b),
    decreases b.len(),
{
    if b.len() == 1 {
        assert(b[0].value == value_max(b));
        assert(b[0].value == value_min(b));
    } else {
        let d = b.drop_last();
        lemma_min_max_attained(d);
        let j = choose|i: int| 0 <= i < d.len() && (#[trigger] d[i]).value == value_max(d);
        let k = choose|i: int| 0 <= i < d.len() && (#[trigger] d[i]).value == value_min(d);
        assert(d[j] == b[j]);
        assert(d[k] == b[k]);
        assert(b.last() == b[b.len() - 1]);
        if b.last().value > value_max(d) {
            assert(b[b.len() - 1].value == value_max(b));
        } else {
            assert(b[j].value == value_max(b));
        }
        if b.last().value < value_min(d) {
            assert(b[b.len() - 1].value == value_min(b));
        } else {
            assert(b[k].value == value_min(b));
        }
    }
}

/// A window's bucket holds exactly the samples that fall in the half-open window: a sample is in
/// it when its timestamp is at or after the start and before the end, and in no other case.
pub proof fn bucket_is_exactly_the_window(s: Seq<RollupSample>, w: RollupWindow)
    requires
        samples_strictly_ordered(s),
        w.start_epoch_millis <= w.end_epoch_millis,
    ensures
        forall|i: int|
            0 <= i < window_bucket(s, w).len() ==> w.start_epoch_millis <= (
            #[trigger] window_bucket(s, w)[i]).timestamp_epoch_millis < w.end_epoch_millis,
        forall|j: int|
            0 <= j < s.len() && w.start_epoch_millis <= (#[trigger] s[j]).timestamp_epoch_millis
                < w.end_epoch_millis ==> window_bucket(s, w).contains(s[j]),
{
    lemma_samples_before_index(s, w.start_epoch_millis);
    lemma_samples_before_index(s, w.end_epoch_millis);
    lemma_samples_before_monotone(s, w.start_epoch_millis, w.end_epoch_millis);
    let lo = samples_before(s, w.start_epoch_millis) as int;
    let hi = samples_before(s, w.end_epoch_millis) as int;
    let b = window_bucket(s, w);
    assert forall|i: int| 0 <= i < b.len() implies w.start_epoch_millis <= (#[trigger] b[i]).timestamp_epoch_millis
        < w.end_epoch_millis by {
        assert(b[i] == s[lo + i]);
    }
    assert forall|j: int|
        0 <= j < s.len() && w.start_epoch_millis <= (#[trigger] s[j]).timestamp_epoch_millis
            < w.end_epoch_millis implies b.contains(s[j]) by {
        assert(lo <= j < hi);
        assert(b[j - lo] == s[j]);
    }
}

/// Coverage grows with each sample's covered time until the window's duration caps it, and is
/// reported in basis points of that duration.
pub proof fn rollup_coverage_accumulates(w: RollupWindow, b: Seq<RollupSample>, x: RollupSample)
    requires
        b.len() > 0,
        w.start_epoch_millis < w.end_epoch_millis,
        !bucket_overflows(w, b),
        !bucket_overflows(w, b.push(x)),
    ensures
        rollup_of(w, b.push(x)).covered_millis == (if rollup_of(w, b).covered_millis + x.covered_millis
            < w.end_epoch_millis - w.start_epoch_millis {
            rollup_of(w, b).covered_millis + x.covered_millis
        } else {
            w.end_epoch_millis - w.start_epoch_millis
        }),
        rollup_of(w, b).covered_millis <= w.end_epoch_millis - w.start_epoch_millis,
        rollup_of(w, b).coverage_basis_points == rollup_of(w, b).covered_millis * 10_000 / (w.end_epoch_millis
            - w.start_epoch_millis),
{
    assert(b.push(x).drop_last() =~= b);
    lemma_covered_sum_nonneg(b);
    let c = capped_covered(w, b);
    let d = window_duration(w);
    assert(c * 10_000 / d <= 10_000) by (nonlinear_arith)
        requires
            0 <= c <= d,
            d > 0,
    ;
}

} // verus!
