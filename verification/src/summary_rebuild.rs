//! Idempotent daily and lifetime summary rebuild planning.

use vstd::prelude::*;

verus! {

#[derive(Clone, Copy, Debug, PartialEq, Eq, PartialOrd, Ord, Structural)]
pub struct SummaryDay(pub i32);

#[derive(Clone, Copy, Debug, Default, PartialEq, Eq, Structural)]
pub struct ModeledYieldAggregate {
    pub expected_energy_wh: Option<i64>,
    pub expected_lower_wh: Option<i64>,
    pub expected_upper_wh: Option<i64>,
    pub forecast_energy_wh: Option<i64>,
    pub forecast_lower_wh: Option<i64>,
    pub forecast_upper_wh: Option<i64>,
    pub actual_coverage_basis_points: u16,
    pub expected_coverage_basis_points: u16,
    pub forecast_coverage_basis_points: u16,
}

/// One authoritative daily aggregate; `system_id` is the UUID's 128-bit big-endian value.
#[derive(Clone, Copy, Debug, PartialEq, Eq, Structural)]
pub struct DailyAggregate {
    pub system_id: u128,
    pub day: SummaryDay,
    pub generation_wh: i64,
    pub consumption_wh: i64,
    pub quality_flags: u32,
    pub source_revision: u64,
    pub calendar_year: i32,
    pub calendar_month: u8,
    pub modeled: ModeledYieldAggregate,
}

#[derive(Clone, Copy, Debug, PartialEq, Eq, PartialOrd, Ord, Structural)]
pub enum SummaryPeriod {
    Day(SummaryDay),
    Month { year: i32, month: u8 },
    Year(i32),
    Lifetime,
}

#[derive(Clone, Copy, Debug, Default, PartialEq, Eq, Structural)]
pub struct ModeledSummary {
    pub actual_energy_wh: i128,
    pub expected_energy_wh: Option<i128>,
    pub forecast_energy_wh: Option<i128>,
    pub expected_lower_wh: Option<i128>,
    pub expected_upper_wh: Option<i128>,
    pub forecast_lower_wh: Option<i128>,
    pub forecast_upper_wh: Option<i128>,
    pub generation_performance_basis_points: Option<u32>,
    pub forecast_realization_basis_points: Option<u32>,
    pub actual_coverage_basis_points: u16,
    pub expected_coverage_basis_points: u16,
    pub forecast_coverage_basis_points: u16,
}

#[derive(Clone, Copy, Debug, Default, PartialEq, Eq, Structural)]
pub struct LifetimeAggregate {
    pub generation_wh: i128,
    pub consumption_wh: i128,
    pub quality_flags: u32,
    pub through_day: Option<SummaryDay>,
}

/// Daily aggregates keyed by (system, day), lifetime aggregates keyed by system, and the set
/// of invalidated (system, day) pairs; each kept in ascending key order.
#[derive(Clone, Debug, Default, PartialEq, Eq)]
pub struct SummaryProjection {
    daily: Vec<DailyAggregate>,
    lifetime: Vec<(u128, LifetimeAggregate)>,
    invalidated: Vec<(u128, SummaryDay)>,
}

/// Ordering key of a (system, day) pair.
pub open spec fn day_key(system_id: u128, day: SummaryDay) -> int {
    system_id * 0x1_0000_0000 + (day.0 + 0x8000_0000)
}

pub open spec fn daily_key(a: DailyAggregate) -> int {
    day_key(a.system_id, a.day)
}

pub open spec fn daily_ascending(s: Seq<DailyAggregate>) -> bool {
    forall|a: int, b: int| 0 <= a < b < s.len() ==> daily_key(#[trigger] s[a]) < daily_key(#[trigger] s[b])
}

pub open spec fn lifetime_ascending(s: Seq<(u128, LifetimeAggregate)>) -> bool {
    forall|a: int, b: int| 0 <= a < b < s.len() ==> (#[trigger] s[a]).0 < (#[trigger] s[b]).0
}

pub open spec fn invalidated_ascending(s: Seq<(u128, SummaryDay)>) -> bool {
    forall|a: int, b: int|
        0 <= a < b < s.len() ==> day_key((#[trigger] s[a]).0, s[a].1) < day_key((#[trigger] s[b]).0, s[b].1)
}

/// The daily aggregate stored under key `k`.
pub open spec fn daily_at(s: Seq<DailyAggregate>, k: int) -> Option<DailyAggregate>
    decreases s.len(),
{
    if s.len() == 0 {
        None
    } else if daily_key(s.last()) == k {
        Some(s.last())
    } else {
        daily_at(s.drop_last(), k)
    }
}

/// The lifetime aggregate stored for system `sid`.
pub open spec fn lifetime_at(s: Seq<(u128, LifetimeAggregate)>, sid: u128) -> Option<LifetimeAggregate>
    decreases s.len(),
{
    if s.len() == 0 {
        None
    } else if s.last().0 == sid {
        Some(s.last().1)
    } else {
        lifetime_at(s.drop_last(), sid)
    }
}

/// Key `k` is in the invalidated set.
pub open spec fn invalidated_has(s: Seq<(u128, SummaryDay)>, k: int) -> bool {
    exists|i: int| 0 <= i < s.len() && day_key(#[trigger] s[i].0, s[i].1) == k
}

/// Sums of one system's daily generation and consumption, bitwise union of its quality flags,
/// and its latest day.
pub open spec fn lifetime_generation(s: Seq<DailyAggregate>, sid: u128) -> int
    decreases s.len(),
{
    if s.len() == 0 {
        0
    } else {
        lifetime_generation(s.drop_last(), sid) + if s.last().system_id == sid {
            s.last().generation_wh as int
        } else {
            0
        }
    }
}

pub open spec fn lifetime_consumption(s: Seq<DailyAggregate>, sid: u128) -> int
    decreases s.len(),
{
    if s.len() == 0 {
        0
    } else {
        lifetime_consumption(s.drop_last(), sid) + if s.last().system_id == sid {
            s.last().consumption_wh as int
        } else {
            0
        }
    }
}

pub open spec fn lifetime_flags(s: Seq<DailyAggregate>, sid: u128) -> u32
    decreases s.len(),
{
    if s.len() == 0 {
        0
    } else if s.last().system_id == sid {
        lifetime_flags(s.drop_last(), sid) | s.last().quality_flags
    } else {
        lifetime_flags(s.drop_last(), sid)
    }
}

pub open spec fn lifetime_through(s: Seq<DailyAggregate>, sid: u128) -> Option<SummaryDay>
    decreases s.len(),
{
    if s.len() == 0 {
        None
    } else {
        let prev = lifetime_through(s.drop_last(), sid);
        if s.last().system_id == sid {
            match prev {
                Some(d) => if s.last().day.0 > d.0 { Some(s.last().day) } else { Some(d) },
                None => Some(s.last().day),
            }
        } else {
            prev
        }
    }
}

/// The lifetime aggregate of system `sid` rebuilt from the daily aggregates `s`.
pub open spec fn lifetime_of(s: Seq<DailyAggregate>, sid: u128) -> LifetimeAggregate {
    LifetimeAggregate {
        generation_wh: lifetime_generation(s, sid) as i128,
        consumption_wh: lifetime_consumption(s, sid) as i128,
        quality_flags: lifetime_flags(s, sid),
        through_day: lifetime_through(s, sid),
    }
}

/// Aggregate `a` belongs to system `sid` and falls in `period`.
pub open spec fn period_matches(a: DailyAggregate, sid: u128, period: SummaryPeriod) -> bool {
    a.system_id == sid && match period {
        SummaryPeriod::Day(d) => a.day == d,
        SummaryPeriod::Month { year, month } => a.calendar_year == year && a.calendar_month == month,
        SummaryPeriod::Year(y) => a.calendar_year == y,
        SummaryPeriod::Lifetime => true,
    }
}

pub open spec fn matched_count(s: Seq<DailyAggregate>, sid: u128, period: SummaryPeriod) -> nat
    decreases s.len(),
{
    if s.len() == 0 {
        0
    } else {
        matched_count(s.drop_last(), sid, period) + if period_matches(s.last(), sid, period) {
            1nat
        } else {
            0nat
        }
    }
}

pub open spec fn actual_total(s: Seq<DailyAggregate>, sid: u128, period: SummaryPeriod) -> int
    decreases s.len(),
{
    if s.len() == 0 {
        0
    } else {
        actual_total(s.drop_last(), sid, period) + if period_matches(s.last(), sid, period) {
            s.last().generation_wh as int
        } else {
            0
        }
    }
}

/// Modeled component `f`: expected, forecast, expected lower/upper, forecast lower/upper.
pub open spec fn modeled_component(m: ModeledYieldAggregate, f: int) -> Option<i64> {
    if f == 0 {
        m.expected_energy_wh
    } else if f == 1 {
        m.forecast_energy_wh
    } else if f == 2 {
        m.expected_lower_wh
    } else if f == 3 {
        m.expected_upper_wh
    } else if f == 4 {
        m.forecast_lower_wh
    } else {
        m.forecast_upper_wh
    }
}

/// Sum of modeled component `f` over matching days that carry it; `None` when none does.
pub open spec fn component_total(s: Seq<DailyAggregate>, sid: u128, period: SummaryPeriod, f: int) -> Option<int>
    decreases s.len(),
{
    if s.len() == 0 {
        None
    } else {
        let prev = component_total(s.drop_last(), sid, period, f);
        if period_matches(s.last(), sid, period) && modeled_component(s.last().modeled, f) is Some {
            let v = modeled_component(s.last().modeled, f)->Some_0 as int;
            match prev {
                Some(t) => Some(t + v),
                None => Some(v),
            }
        } else {
            prev
        }
    }
}

/// Coverage component `g`: actual, expected, forecast.
pub open spec fn coverage_component(m: ModeledYieldAggregate, g: int) -> u16 {
    if g == 0 {
        m.actual_coverage_basis_points
    } else if g == 1 {
        m.expected_coverage_basis_points
    } else {
        m.forecast_coverage_basis_points
    }
}

/// Minimum of coverage component `g` over matching days, or zero when no day matches.
pub open spec fn coverage_minimum(s: Seq<DailyAggregate>, sid: u128, period: SummaryPeriod, g: int) -> u16
    decreases s.len(),
{
    if s.len() == 0 {
        0
    } else {
        let prev = coverage_minimum(s.drop_last(), sid, period, g);
        if period_matches(s.last(), sid, period) {
            let next = coverage_component(s.last().modeled, g);
            if matched_count(s.drop_last(), sid, period) == 0 || next < prev {
                next
            } else {
                prev
            }
        } else {
            prev
        }
    }
}

/// Actual energy as basis points of a positive modeled energy, when both coverages are
/// non-zero and the quotient fits.
pub open spec fn ratio_spec(actual: int, modeled: Option<int>, actual_coverage: u16, modeled_coverage: u16) -> Option<u32> {
    match modeled {
        None => None,
        Some(m) => if actual < 0 || m <= 0 || actual_coverage == 0 || modeled_coverage == 0 {
            None
        } else if actual * 10_000 > i128::MAX {
            None
        } else if actual * 10_000 / m > u32::MAX {
            None
        } else {
            Some((actual * 10_000 / m) as u32)
        },
    }
}

pub open spec fn total_as_i128(t: Option<int>) -> Option<i128> {
    match t {
        Some(v) => Some(v as i128),
        None => None,
    }
}

/// The modeled summary of system `sid` over `period`.
pub open spec fn modeled_summary_spec(s: Seq<DailyAggregate>, sid: u128, period: SummaryPeriod) -> ModeledSummary {
    let actual = actual_total(s, sid, period);
    let ac = coverage_minimum(s, sid, period, 0);
    let ec = coverage_minimum(s, sid, period, 1);
    let fc = coverage_minimum(s, sid, period, 2);
    ModeledSummary {
        actual_energy_wh: actual as i128,
        expected_energy_wh: total_as_i128(component_total(s, sid, period, 0)),
        forecast_energy_wh: total_as_i128(component_total(s, sid, period, 1)),
        expected_lower_wh: total_as_i128(component_total(s, sid, period, 2)),
        expected_upper_wh: total_as_i128(component_total(s, sid, period, 3)),
        forecast_lower_wh: total_as_i128(component_total(s, sid, period, 4)),
        forecast_upper_wh: total_as_i128(component_total(s, sid, period, 5)),
        generation_performance_basis_points: ratio_spec(actual, component_total(s, sid, period, 0), ac, ec),
        forecast_realization_basis_points: ratio_spec(actual, component_total(s, sid, period, 1), ac, fc),
        actual_coverage_basis_points: ac,
        expected_coverage_basis_points: ec,
        forecast_coverage_basis_points: fc,
    }
}

/// Adds an optional day value to an optional running total.
pub fn accumulate_optional(total: &mut Option<i128>, value: Option<i64>)
    requires
        (*old(total) is Some && value is Some) ==> i128::MIN <= (*old(total))->Some_0 + value->Some_0
            <= i128::MAX,
    ensures
        *final(total) == (match value {
            Some(v) => Some(
                (match *old(total) {
                    Some(t) => t + v,
                    None => v as int,
                }) as i128,
            ),
            None => *old(total),
        }),
{
    if let Some(v) = value {
        let t = match *total {
            Some(t) => t,
            None => 0,
        };
        *total = Some(t + v as i128);
    }
}

/// The running minimum of a coverage, or the next value when none was seen yet.
pub fn minimum_coverage(current: u16, next: u16, initialized: bool) -> (r: u16)
    ensures
        r == (if initialized && current < next { current } else { next }),
{
    if initialized {
        if current < next { current } else { next }
    } else {
        next
    }
}

/// Actual energy in basis points of modeled energy.
pub fn ratio(actual: i128, modeled: Option<i128>, actual_coverage: u16, modeled_coverage: u16) -> (r: Option<u32>)
    ensures
        r == ratio_spec(
            actual as int,
            match modeled {
                Some(m) => Some(m as int),
                None => None,
            },
            actual_coverage,
            modeled_coverage,
        ),
{
    let modeled = match modeled {
        Some(m) => m,
        None => {
            return None;
        },
    };
    if actual < 0 || modeled <= 0 || actual_coverage == 0 || modeled_coverage == 0 {
        return None;
    }
    let scaled = match actual.checked_mul(10_000) {
        Some(v) => v,
        None => {
            return None;
        },
    };
    let q = scaled / modeled;
    if q > u32::MAX as i128 {
        None
    } else {
        Some(q as u32)
    }
}

proof fn lemma_daily_at_sorted(s: Seq<DailyAggregate>, k: int)
    requires
        daily_ascending(s),
    ensures
        (forall|j: int| 0 <= j < s.len() ==> daily_key(#[trigger] s[j]) != k) ==> daily_at(s, k) is None,
        forall|j: int| 0 <= j < s.len() && daily_key(#[trigger] s[j]) == k ==> daily_at(s, k) == Some(s[j]),
    decreases s.len(),
{
    if s.len() > 0 {
        let t = s.drop_last();
        assert forall|a: int, b: int| 0 <= a < b < t.len() implies daily_key(#[trigger] t[a]) < daily_key(#[trigger] t[b]) by {
            assert(t[a] == s[a] && t[b] == s[b]);
        }
        lemma_daily_at_sorted(t, k);
        assert forall|j: int| 0 <= j < s.len() && daily_key(#[trigger] s[j]) == k implies daily_at(s, k) == Some(s[j]) by {
            if j < s.len() - 1 {
                assert(t[j] == s[j]);
                assert(daily_key(s[j]) < daily_key(s[s.len() - 1]));
            }
        }
        if forall|j: int| 0 <= j < s.len() ==> daily_key(#[trigger] s[j]) != k {
            assert forall|j: int| 0 <= j < t.len() implies daily_key(#[trigger] t[j]) != k by {
                assert(t[j] == s[j]);
            }
        }
    }
}

proof fn lemma_daily_ascending_prefix(s: Seq<DailyAggregate>)
    requires
        daily_ascending(s),
        s.len() > 0,
    ensures
        daily_ascending(s.drop_last()),
        forall|j: int| 0 <= j < s.len() - 1 ==> daily_key(#[trigger] s.drop_last()[j]) < daily_key(s.last()),
{
    let t = s.drop_last();
    assert forall|a: int, b: int| 0 <= a < b < t.len() implies daily_key(#[trigger] t[a]) < daily_key(#[trigger] t[b]) by {
        assert(t[a] == s[a] && t[b] == s[b]);
    }
    assert forall|j: int| 0 <= j < s.len() - 1 implies daily_key(#[trigger] t[j]) < daily_key(s.last()) by {
        assert(t[j] == s[j]);
        assert(s.last() == s[s.len() - 1]);
    }
}

/// The last key of an ascending sequence bounds every stored key.
proof fn lemma_daily_last_is_max(s: Seq<DailyAggregate>, k: int)
    requires
        daily_ascending(s),
        s.len() > 0,
        daily_at(s, k) is Some,
    ensures
        k <= daily_key(s.last()),
{
    lemma_daily_at_sorted(s, k);
    let j = choose|j: int| 0 <= j < s.len() && daily_key(#[trigger] s[j]) == k;
    assert(s.last() == s[s.len() - 1]);
    if j < s.len() - 1 {
        assert(daily_key(s[j]) < daily_key(s[s.len() - 1]));
    }
}

/// Two ascending sequences that store the same aggregate under every key are equal.
proof fn lemma_daily_unique(s1: Seq<DailyAggregate>, s2: Seq<DailyAggregate>)
    requires
        daily_ascending(s1),
        daily_ascending(s2),
        forall|k: int| daily_at(s1, k) == daily_at(s2, k),
    ensures
        s1 == s2,
    decreases s1.len() + s2.len(),
{
    if s1.len() == 0 && s2.len() == 0 {
        assert(s1 =~= s2);
    } else if s1.len() == 0 {
        assert(daily_at(s2, daily_key(s2.last())) == Some(s2.last()));
        assert(daily_at(s1, daily_key(s2.last())) is None);
    } else if s2.len() == 0 {
        assert(daily_at(s1, daily_key(s1.last())) == Some(s1.last()));
        assert(daily_at(s2, daily_key(s1.last())) is None);
    } else {
        let l1 = s1.last();
        let l2 = s2.last();
        assert(daily_at(s1, daily_key(l1)) == Some(l1));
        assert(daily_at(s2, daily_key(l2)) == Some(l2));
        lemma_daily_last_is_max(s2, daily_key(l1));
        lemma_daily_last_is_max(s1, daily_key(l2));
        assert(l1 == l2);
        let t1 = s1.drop_last();
        let t2 = s2.drop_last();
        lemma_daily_ascending_prefix(s1);
        lemma_daily_ascending_prefix(s2);
        assert forall|k: int| daily_at(t1, k) == daily_at(t2, k) by {
            if k == daily_key(l1) {
                lemma_daily_at_sorted(t1, k);
                lemma_daily_at_sorted(t2, k);
            } else {
                assert(daily_at(s1, k) == daily_at(t1, k));
                assert(daily_at(s2, k) == daily_at(t2, k));
            }
        }
        lemma_daily_unique(t1, t2);
        assert(s1 =~= t1.push(l1));
        assert(s2 =~= t2.push(l2));
    }
}

proof fn lemma_lifetime_at_sorted(s: Seq<(u128, LifetimeAggregate)>, sid: u128)
    requires
        lifetime_ascending(s),
    ensures
        (forall|j: int| 0 <= j < s.len() ==> (#[trigger] s[j]).0 != sid) ==> lifetime_at(s, sid) is None,
        forall|j: int| 0 <= j < s.len() && (#[trigger] s[j]).0 == sid ==> lifetime_at(s, sid) == Some(s[j].1),
    decreases s.len(),
{
    if s.len() > 0 {
        let t = s.drop_last();
        assert forall|a: int, b: int| 0 <= a < b < t.len() implies (#[trigger] t[a]).0 < (#[trigger] t[b]).0 by {
            assert(t[a] == s[a] && t[b] == s[b]);
        }
        lemma_lifetime_at_sorted(t, sid);
        assert forall|j: int| 0 <= j < s.len() && (#[trigger] s[j]).0 == sid implies lifetime_at(s, sid) == Some(s[j].1) by {
            if j < s.len() - 1 {
                assert(t[j] == s[j]);
                assert(s[j].0 < s[s.len() - 1].0);
            }
        }
        if forall|j: int| 0 <= j < s.len() ==> (#[trigger] s[j]).0 != sid {
            assert forall|j: int| 0 <= j < t.len() implies (#[trigger] t[j]).0 != sid by {
                assert(t[j] == s[j]);
            }
        }
    }
}

/// Two ascending lifetime lists that store the same aggregate for every system are equal.
proof fn lemma_lifetime_unique(s1: Seq<(u128, LifetimeAggregate)>, s2: Seq<(u128, LifetimeAggregate)>)
    requires
        lifetime_ascending(s1),
        lifetime_ascending(s2),
        forall|sid: u128| lifetime_at(s1, sid) == lifetime_at(s2, sid),
    ensures
        s1 == s2,
    decreases s1.len() + s2.len(),
{
    lemma_lifetime_at_sorted(s1, 0);
    if s1.len() == 0 && s2.len() == 0 {
        assert(s1 =~= s2);
    } else if s1.len() == 0 {
        assert(lifetime_at(s2, s2.last().0) is Some);
    } else if s2.len() == 0 {
        assert(lifetime_at(s1, s1.last().0) is Some);
    } else {
        let l1 = s1.last();
        let l2 = s2.last();
        assert(lifetime_at(s1, l1.0) == Some(l1.1));
        assert(lifetime_at(s2, l2.0) == Some(l2.1));
        lemma_lifetime_at_sorted(s2, l1.0);
        lemma_lifetime_at_sorted(s1, l2.0);
        let j2 = choose|j: int| 0 <= j < s2.len() && (#[trigger] s2[j]).0 == l1.0;
        let j1 = choose|j: int| 0 <= j < s1.len() && (#[trigger] s1[j]).0 == l2.0;
        assert(s2[s2.len() - 1] == l2);
        assert(s1[s1.len() - 1] == l1);
        if j2 < s2.len() - 1 {
            assert(s2[j2].0 < s2[s2.len() - 1].0);
        }
        if j1 < s1.len() - 1 {
            assert(s1[j1].0 < s1[s1.len() - 1].0);
        }
        assert(l1.0 == l2.0);
        assert(l1 == l2);
        let t1 = s1.drop_last();
        let t2 = s2.drop_last();
        assert forall|a: int, b: int| 0 <= a < b < t1.len() implies (#[trigger] t1[a]).0 < (#[trigger] t1[b]).0 by {
            assert(t1[a] == s1[a] && t1[b] == s1[b]);
        }
        assert forall|a: int, b: int| 0 <= a < b < t2.len() implies (#[trigger] t2[a]).0 < (#[trigger] t2[b]).0 by {
            assert(t2[a] == s2[a] && t2[b] == s2[b]);
        }
        assert forall|sid: u128| lifetime_at(t1, sid) == lifetime_at(t2, sid) by {
            if sid == l1.0 {
                lemma_lifetime_at_sorted(t1, sid);
                lemma_lifetime_at_sorted(t2, sid);
                assert forall|j: int| 0 <= j < t1.len() implies (#[trigger] t1[j]).0 != sid by {
                    assert(t1[j] == s1[j]);
                    assert(s1[j].0 < s1[s1.len() - 1].0);
                }
                assert forall|j: int| 0 <= j < t2.len() implies (#[trigger] t2[j]).0 != sid by {
                    assert(t2[j] == s2[j]);
                    assert(s2[j].0 < s2[s2.len() - 1].0);
                }
            } else {
                assert(lifetime_at(s1, sid) == lifetime_at(t1, sid));
                assert(lifetime_at(s2, sid) == lifetime_at(t2, sid));
            }
        }
        lemma_lifetime_unique(t1, t2);
        assert(s1 =~= t1.push(l1));
        assert(s2 =~= t2.push(l2));
    }
}

/// Distinct (system, day) pairs have distinct ordering keys.
proof fn lemma_day_key_injective(a: u128, da: SummaryDay, b: u128, db: SummaryDay)
    requires
        day_key(a, da) == day_key(b, db),
    ensures
        a == b,
        da == db,
{
    let x: int = da.0 + 0x8000_0000;
    let y: int = db.0 + 0x8000_0000;
    assert(0 <= x < 0x1_0000_0000 && 0 <= y < 0x1_0000_0000);
    assert(a == b) by (nonlinear_arith)
        requires
            a * 0x1_0000_0000 + x == b * 0x1_0000_0000 + y,
            0 <= x < 0x1_0000_0000,
            0 <= y < 0x1_0000_0000,
            a >= 0,
            b >= 0,
    ;
}

/// Two ascending invalidation lists that hold the same keys are equal.
proof fn lemma_invalidated_unique(s1: Seq<(u128, SummaryDay)>, s2: Seq<(u128, SummaryDay)>)
    requires
        invalidated_ascending(s1),
        invalidated_ascending(s2),
        forall|k: int| invalidated_has(s1, k) == invalidated_has(s2, k),
    ensures
        s1 == s2,
    decreases s1.len() + s2.len(),
{
    if s1.len() == 0 && s2.len() == 0 {
        assert(s1 =~= s2);
    } else if s1.len() == 0 {
        let l = s2.last();
        assert(s2[s2.len() - 1] == l);
        assert(invalidated_has(s2, day_key(l.0, l.1)));
    } else if s2.len() == 0 {
        let l = s1.last();
        assert(s1[s1.len() - 1] == l);
        assert(invalidated_has(s1, day_key(l.0, l.1)));
    } else {
        let l1 = s1.last();
        let l2 = s2.last();
        let k1 = day_key(l1.0, l1.1);
        let k2 = day_key(l2.0, l2.1);
        assert(s1[s1.len() - 1] == l1);
        assert(s2[s2.len() - 1] == l2);
        assert(invalidated_has(s1, k1));
        assert(invalidated_has(s2, k2));
        let j2 = choose|i: int| 0 <= i < s2.len() && day_key(#[trigger] s2[i].0, s2[i].1) == k1;
        let j1 = choose|i: int| 0 <= i < s1.len() && day_key(#[trigger] s1[i].0, s1[i].1) == k2;
        if j2 < s2.len() - 1 {
            assert(day_key(s2[j2].0, s2[j2].1) < day_key(s2[s2.len() - 1].0, s2[s2.len() - 1].1));
        }
        if j1 < s1.len() - 1 {
            assert(day_key(s1[j1].0, s1[j1].1) < day_key(s1[s1.len() - 1].0, s1[s1.len() - 1].1));
        }
        assert(k1 == k2);
        lemma_day_key_injective(l1.0, l1.1, l2.0, l2.1);
        assert(l1 == l2);
        let t1 = s1.drop_last();
        let t2 = s2.drop_last();
        assert forall|a: int, b: int| 0 <= a < b < t1.len() implies day_key((#[trigger] t1[a]).0, t1[a].1) < day_key(
            (#[trigger] t1[b]).0,
            t1[b].1,
        ) by {
            assert(t1[a] == s1[a] && t1[b] == s1[b]);
        }
        assert forall|a: int, b: int| 0 <= a < b < t2.len() implies day_key((#[trigger] t2[a]).0, t2[a].1) < day_key(
            (#[trigger] t2[b]).0,
            t2[b].1,
        ) by {
            assert(t2[a] == s2[a] && t2[b] == s2[b]);
        }
        assert forall|k: int| invalidated_has(t1, k) == invalidated_has(t2, k) by {
            if invalidated_has(t1, k) {
                let i = choose|i: int| 0 <= i < t1.len() && day_key(#[trigger] t1[i].0, t1[i].1) == k;
                assert(t1[i] == s1[i]);
                assert(day_key(s1[i].0, s1[i].1) < k1);
                assert(invalidated_has(s1, k));
                let m = choose|i: int| 0 <= i < s2.len() && day_key(#[trigger] s2[i].0, s2[i].1) == k;
                assert(m != s2.len() - 1);
                assert(t2[m] == s2[m]);
            }
            if invalidated_has(t2, k) {
                let i = choose|i: int| 0 <= i < t2.len() && day_key(#[trigger] t2[i].0, t2[i].1) == k;
                assert(t2[i] == s2[i]);
                assert(day_key(s2[i].0, s2[i].1) < k2);
                assert(invalidated_has(s2, k));
                let m = choose|i: int| 0 <= i < s1.len() && day_key(#[trigger] s1[i].0, s1[i].1) == k;
                assert(m != s1.len() - 1);
                assert(t1[m] == s1[m]);
            }
        }
        lemma_invalidated_unique(t1, t2);
        assert(s1 =~= t1.push(l1));
        assert(s2 =~= t2.push(l2));
    }
}

proof fn lemma_lifetime_bounds(s: Seq<DailyAggregate>, sid: u128)
    ensures
        -(s.len() as int) * 0x8000_0000_0000_0000 <= lifetime_generation(s, sid) <= (s.len() as int)
            * 0x7fff_ffff_ffff_ffff,
        -(s.len() as int) * 0x8000_0000_0000_0000 <= lifetime_consumption(s, sid) <= (s.len() as int)
            * 0x7fff_ffff_ffff_ffff,
    decreases s.len(),
{
    if s.len() > 0 {
        lemma_lifetime_bounds(s.drop_last(), sid);
    }
}

proof fn lemma_summary_bounds(s: Seq<DailyAggregate>, sid: u128, period: SummaryPeriod)
    ensures
        -(s.len() as int) * 0x8000_0000_0000_0000 <= actual_total(s, sid, period) <= (s.len() as int)
            * 0x7fff_ffff_ffff_ffff,
        forall|f: int|
            #[trigger] component_total(s, sid, period, f) is Some ==> -(s.len() as int) * 0x8000_0000_0000_0000
                <= component_total(s, sid, period, f)->Some_0 <= (s.len() as int) * 0x7fff_ffff_ffff_ffff,
    decreases s.len(),
{
    if s.len() > 0 {
        let t = s.drop_last();
        lemma_summary_bounds(t, sid, period);
        assert forall|f: int| #[trigger] component_total(s, sid, period, f) is Some implies -(s.len() as int)
            * 0x8000_0000_0000_0000 <= component_total(s, sid, period, f)->Some_0 <= (s.len() as int)
            * 0x7fff_ffff_ffff_ffff by {
            if component_total(t, sid, period, f) is Some {
                assert(-(t.len() as int) * 0x8000_0000_0000_0000 <= component_total(t, sid, period, f)->Some_0
                    <= (t.len() as int) * 0x7fff_ffff_ffff_ffff);
            }
        }
    }
}

fn key_below(sid_a: u128, day_a: SummaryDay, sid_b: u128, day_b: SummaryDay) -> (r: bool)
    ensures
        r == (day_key(sid_a, day_a) < day_key(sid_b, day_b)),
{
    sid_a < sid_b || (sid_a == sid_b && day_a.0 < day_b.0)
}

fn period_matches_exec(a: &DailyAggregate, sid: u128, period: SummaryPeriod) -> (r: bool)
    ensures
        r == period_matches(*a, sid, period),
{
    if a.system_id != sid {
        return false;
    }
    match period {
        SummaryPeriod::Day(d) => a.day.0 == d.0,
        SummaryPeriod::Month { year, month } => a.calendar_year == year && a.calendar_month == month,
        SummaryPeriod::Year(y) => a.calendar_year == y,
        SummaryPeriod::Lifetime => true,
    }
}

/// What one reconciliation of `a` does: the stored aggregate under its key becomes `a`, the key
/// leaves the invalidated set, the system's lifetime is rebuilt from the new daily aggregates,
/// and `changed` tells whether the stored aggregate differed from `a`.
pub open spec fn reconcile_outcome(
    before: SummaryProjection,
    a: DailyAggregate,
    after: SummaryProjection,
    changed: bool,
) -> bool {
    &&& changed == (daily_at(before.daily_seq(), daily_key(a)) != Some(a))
    &&& forall|k: int|
        daily_at(after.daily_seq(), k) == (if k == daily_key(a) {
            Some(a)
        } else {
            daily_at(before.daily_seq(), k)
        })
    &&& forall|k: int|
        invalidated_has(after.invalidated_seq(), k) == (invalidated_has(before.invalidated_seq(), k) && k
            != daily_key(a))
    &&& forall|s: u128|
        lifetime_at(after.lifetime_seq(), s) == (if s == a.system_id {
            Some(lifetime_of(after.daily_seq(), s))
        } else {
            lifetime_at(before.lifetime_seq(), s)
        })
}

impl SummaryProjection {
    /// The stored maps are in ascending key order, so each key is stored at most once.
    pub open spec fn wf(&self) -> bool {
        &&& daily_ascending(self.daily_seq())
        &&& lifetime_ascending(self.lifetime_seq())
        &&& invalidated_ascending(self.invalidated_seq())
    }

    /// Daily aggregates in ascending (system, day) order.
    pub closed spec fn daily_seq(&self) -> Seq<DailyAggregate> {
        self.daily@
    }

    pub closed spec fn lifetime_seq(&self) -> Seq<(u128, LifetimeAggregate)> {
        self.lifetime@
    }

    pub closed spec fn invalidated_seq(&self) -> Seq<(u128, SummaryDay)> {
        self.invalidated@
    }

    /// An empty projection.
    pub fn new() -> (r: SummaryProjection)
        ensures
            r.wf(),
            r.daily_seq().len() == 0,
            r.lifetime_seq().len() == 0,
            r.invalidated_seq().len() == 0,
    {
        SummaryProjection { daily: Vec::new(), lifetime: Vec::new(), invalidated: Vec::new() }
    }

    /// The stored daily aggregate of a system day.
    pub fn daily_aggregate(&self, system_id: u128, day: SummaryDay) -> (r: Option<DailyAggregate>)
        requires
            self.wf(),
        ensures
            r == daily_at(self.daily_seq(), day_key(system_id, day)),
    {
        proof {
            lemma_daily_at_sorted(self.daily@, day_key(system_id, day));
        }
        let mut k: usize = 0;
        while k < self.daily.len()
            invariant
                k <= self.daily@.len(),
                self.wf(),
                forall|j: int| 0 <= j < k ==> daily_key(#[trigger] self.daily@[j]) != day_key(system_id, day),
            decreases self.daily.len() - k,
        {
            if self.daily[k].system_id == system_id && self.daily[k].day.0 == day.0 {
                proof {
                    lemma_daily_at_sorted(self.daily@, day_key(system_id, day));
                    assert(daily_key(self.daily@[k as int]) == day_key(system_id, day));
                }
                return Some(self.daily[k]);
            }
            k += 1;
        }
        None
    }

    /// The stored lifetime aggregate of a system.
    pub fn lifetime_aggregate(&self, system_id: u128) -> (r: Option<LifetimeAggregate>)
        requires
            self.wf(),
        ensures
            r == lifetime_at(self.lifetime_seq(), system_id),
    {
        proof {
            lemma_lifetime_at_sorted(self.lifetime@, system_id);
        }
        let mut k: usize = 0;
        while k < self.lifetime.len()
            invariant
                k <= self.lifetime@.len(),
                self.wf(),
                forall|j: int| 0 <= j < k ==> (#[trigger] self.lifetime@[j]).0 != system_id,
            decreases self.lifetime.len() - k,
        {
            if self.lifetime[k].0 == system_id {
                proof {
                    lemma_lifetime_at_sorted(self.lifetime@, system_id);
                    assert(self.lifetime@[k as int].0 == system_id);
                }
                return Some(self.lifetime[k].1);
            }
            k += 1;
        }
        None
    }

    /// Invalidated (system, day) pairs in ascending order.
    pub fn invalidated_days(&self) -> (r: Vec<(u128, SummaryDay)>)
        ensures
            r@ == self.invalidated_seq(),
            self.wf() ==> invalidated_ascending(r@),
    {
        let mut out: Vec<(u128, SummaryDay)> = Vec::new();
        let mut k: usize = 0;
        while k < self.invalidated.len()
            invariant
                k <= self.invalidated@.len(),
                out@ == self.invalidated@.take(k as int),
            decreases self.invalidated.len() - k,
        {
            out.push(self.invalidated[k]);
            proof {
                assert(out@ =~= self.invalidated@.take(k as int + 1));
            }
            k += 1;
        }
        proof {
            assert(self.invalidated@.take(k as int) =~= self.invalidated@);
        }
        out
    }

    /// Removes the lifetime aggregate of a system, if stored.
    fn remove_lifetime(&mut self, system_id: u128)
        requires
            old(self).wf(),
        ensures
            final(self).wf(),
            final(self).daily@ == old(self).daily@,
            final(self).invalidated@ == old(self).invalidated@,
            forall|s: u128|
                lifetime_at(final(self).lifetime@, s) == (if s == system_id {
                    None
                } else {
                    lifetime_at(old(self).lifetime@, s)
                }),
    {
        let ghost before = self.lifetime@;
        let mut k: usize = 0;
        while k < self.lifetime.len() && self.lifetime[k].0 != system_id
            invariant
                k <= self.lifetime@.len(),
                self.lifetime@ == before,
                forall|j: int| 0 <= j < k ==> (#[trigger] self.lifetime@[j]).0 != system_id,
            decreases self.lifetime.len() - k,
        {
            k += 1;
        }
        if k < self.lifetime.len() {
            self.lifetime.remove(k);
        }
        proof {
            let after = self.lifetime@;
            if k < before.len() {
                assert(after =~= before.remove(k as int));
                assert forall|a: int, b: int| 0 <= a < b < after.len() implies (#[trigger] after[a]).0 < (#[trigger] after[b]).0 by {
                    let aa = if a < k { a } else { a + 1 };
                    let bb = if b < k { b } else { b + 1 };
                    assert(after[a] == before[aa] && after[b] == before[bb]);
                }
            }
            lemma_lifetime_at_sorted(before, system_id);
            assert forall|s: u128| lifetime_at(after, s) == (if s == system_id { None } else { lifetime_at(before, s) }) by {
                lemma_lifetime_at_sorted(before, s);
                lemma_lifetime_at_sorted(after, s);
                if k < before.len() {
                    assert forall|j: int| 0 <= j < after.len() implies after[j] == before[if j < k { j } else { j + 1 }] by {}
                    if s != system_id {
                        if exists|j: int| 0 <= j < before.len() && (#[trigger] before[j]).0 == s {
                            let j = choose|j: int| 0 <= j < before.len() && (#[trigger] before[j]).0 == s;
                            assert(j != k);
                            if j < k {
                                assert(after[j] == before[j]);
                            } else {
                                assert(after[j - 1] == before[j]);
                            }
                        }
                    } else {
                        assert forall|j: int| 0 <= j < after.len() implies (#[trigger] after[j]).0 != s by {
                            if j < k {
                                assert(after[j] == before[j]);
                            } else {
                                assert(after[j] == before[j + 1]);
                                assert(before[k as int].0 < before[j + 1].0);
                            }
                        }
                    }
                }
            }
        }
    }

    /// Stores the lifetime aggregate of a system.
    fn put_lifetime(&mut self, system_id: u128, value: LifetimeAggregate)
        requires
            old(self).wf(),
        ensures
            final(self).wf(),
            final(self).daily@ == old(self).daily@,
            final(self).invalidated@ == old(self).invalidated@,
            forall|s: u128|
                lifetime_at(final(self).lifetime@, s) == (if s == system_id {
                    Some(value)
                } else {
                    lifetime_at(old(self).lifetime@, s)
                }),
    {
        let ghost before = self.lifetime@;
        let mut k: usize = 0;
        while k < self.lifetime.len() && self.lifetime[k].0 < system_id
            invariant
                k <= self.lifetime@.len(),
                self.lifetime@ == before,
                forall|j: int| 0 <= j < k ==> (#[trigger] self.lifetime@[j]).0 < system_id,
            decreases self.lifetime.len() - k,
        {
            k += 1;
        }
        let replace = k < self.lifetime.len() && self.lifetime[k].0 == system_id;
        if replace {
            self.lifetime.set(k, (system_id, value));
        } else {
            self.lifetime.insert(k, (system_id, value));
        }
        proof {
            let after = self.lifetime@;
            assert forall|a: int, b: int| 0 <= a < b < after.len() implies (#[trigger] after[a]).0 < (#[trigger] after[b]).0 by {
                if replace {
                    assert(after[a].0 == before[a].0 && after[b].0 == before[b].0);
                } else {
                    let aa = if a < k { a } else if a == k { -1 } else { a - 1 };
                    let bb = if b < k { b } else if b == k { -1 } else { b - 1 };
                    if a > k {
                        assert(after[a] == before[aa] && after[b] == before[bb]);
                    } else if a == k {
                        assert(after[b] == before[bb]);
                        assert(before[k as int].0 > system_id);
                        if bb > k {
                            assert(before[k as int].0 < before[bb].0);
                        }
                    } else if b < k {
                        assert(after[a] == before[a] && after[b] == before[b]);
                    } else if b == k {
                        assert(after[a] == before[a]);
                    } else {
                        assert(after[a] == before[a] && after[b] == before[bb]);
                        assert(before[k as int].0 > system_id);
                        if bb > k {
                            assert(before[k as int].0 < before[bb].0);
                        }
                    }
                }
            }
            assert forall|s: u128| lifetime_at(after, s) == (if s == system_id { Some(value) } else { lifetime_at(before, s) }) by {
                lemma_lifetime_at_sorted(before, s);
                lemma_lifetime_at_sorted(after, s);
                if replace {
                    assert(after[k as int] == (system_id, value));
                    if s != system_id {
                        if exists|j: int| 0 <= j < before.len() && (#[trigger] before[j]).0 == s {
                            let j = choose|j: int| 0 <= j < before.len() && (#[trigger] before[j]).0 == s;
                            assert(after[j] == before[j]);
                        }
                        assert forall|j: int| 0 <= j < after.len() && (#[trigger] after[j]).0 == s implies after[j] == before[j] by {}
                    }
                } else {
                    assert(after[k as int] == (system_id, value));
                    if s != system_id {
                        if exists|j: int| 0 <= j < before.len() && (#[trigger] before[j]).0 == s {
                            let j = choose|j: int| 0 <= j < before.len() && (#[trigger] before[j]).0 == s;
                            if j < k {
                                assert(after[j] == before[j]);
                            } else {
                                assert(after[j + 1] == before[j]);
                            }
                        }
                        assert forall|j: int| 0 <= j < after.len() && (#[trigger] after[j]).0 == s implies exists|jj: int|
                            0 <= jj < before.len() && before[jj] == after[j] by {
                            if j < k {
                                assert(before[j] == after[j]);
                            } else if j > k {
                                assert(before[j - 1] == after[j]);
                            }
                        }
                    } else {
                        assert forall|j: int| 0 <= j < before.len() implies (#[trigger] before[j]).0 != s by {
                            if j >= k {
                                assert(before[j].0 >= before[k as int].0);
                            }
                        }
                    }
                }
            }
        }
    }

    /// Stores a daily aggregate under its (system, day) key.
    fn put_daily(&mut self, a: DailyAggregate)
        requires
            old(self).wf(),
        ensures
            final(self).wf(),
            final(self).lifetime@ == old(self).lifetime@,
            final(self).invalidated@ == old(self).invalidated@,
            forall|k: int|
                daily_at(final(self).daily@, k) == (if k == daily_key(a) {
                    Some(a)
                } else {
                    daily_at(old(self).daily@, k)
                }),
    {
        let ghost before = self.daily@;
        let mut k: usize = 0;
        while k < self.daily.len() && key_below(self.daily[k].system_id, self.daily[k].day, a.system_id, a.day)
            invariant
                k <= self.daily@.len(),
                self.daily@ == before,
                forall|j: int| 0 <= j < k ==> daily_key(#[trigger] self.daily@[j]) < daily_key(a),
            decreases self.daily.len() - k,
        {
            k += 1;
        }
        let replace = k < self.daily.len() && self.daily[k].system_id == a.system_id && self.daily[k].day.0
            == a.day.0;
        if replace {
            self.daily.set(k, a);
        } else {
            self.daily.insert(k, a);
        }
        proof {
            let after = self.daily@;
            assert forall|x: int, y: int| 0 <= x < y < after.len() implies daily_key(#[trigger] after[x])
                < daily_key(#[trigger] after[y]) by {
                if replace {
                    assert(daily_key(after[x]) == daily_key(before[x]) && daily_key(after[y]) == daily_key(before[y]));
                } else {
                    if x > k {
                        assert(after[x] == before[x - 1] && after[y] == before[y - 1]);
                    } else if x == k {
                        assert(after[y] == before[y - 1]);
                        assert(daily_key(before[k as int]) > daily_key(a));
                        if y - 1 > k {
                            assert(daily_key(before[k as int]) < daily_key(before[y - 1]));
                        }
                    } else if y < k {
                        assert(after[x] == before[x] && after[y] == before[y]);
                    } else if y == k {
                        assert(after[x] == before[x]);
                    } else {
                        assert(after[x] == before[x] && after[y] == before[y - 1]);
                        assert(daily_key(before[k as int]) > daily_key(a));
                        if y - 1 > k {
                            assert(daily_key(before[k as int]) < daily_key(before[y - 1]));
                        }
                    }
                }
            }
            assert forall|q: int| daily_at(after, q) == (if q == daily_key(a) { Some(a) } else { daily_at(before, q) }) by {
                lemma_daily_at_sorted(before, q);
                lemma_daily_at_sorted(after, q);
                assert(after[k as int] == a);
                if q != daily_key(a) {
                    if exists|j: int| 0 <= j < before.len() && daily_key(#[trigger] before[j]) == q {
                        let j = choose|j: int| 0 <= j < before.len() && daily_key(#[trigger] before[j]) == q;
                        if replace || j < k {
                            assert(after[j] == before[j]);
                        } else {
                            assert(after[j + 1] == before[j]);
                        }
                    }
                    assert forall|j: int| 0 <= j < after.len() && daily_key(#[trigger] after[j]) == q implies exists|jj: int|
                        0 <= jj < before.len() && before[jj] == after[j] by {
                        if replace || j < k {
                            assert(before[j] == after[j]);
                        } else if j > k {
                            assert(before[j - 1] == after[j]);
                        }
                    }
                } else if !replace {
                    assert forall|j: int| 0 <= j < before.len() implies daily_key(#[trigger] before[j]) != q by {
                        if j >= k {
                            assert(daily_key(before[j]) >= daily_key(before[k as int]));
                        }
                    }
                }
            }
        }
    }

    /// Adds a (system, day) pair to the invalidated set.
    fn mark_invalidated(&mut self, system_id: u128, day: SummaryDay)
        requires
            old(self).wf(),
        ensures
            final(self).wf(),
            final(self).daily@ == old(self).daily@,
            final(self).lifetime@ == old(self).lifetime@,
            forall|k: int|
                invalidated_has(final(self).invalidated@, k) == (invalidated_has(old(self).invalidated@, k)
                    || k == day_key(system_id, day)),
    {
        let ghost before = self.invalidated@;
        let mut k: usize = 0;
        while k < self.invalidated.len() && key_below(self.invalidated[k].0, self.invalidated[k].1, system_id, day)
            invariant
                k <= self.invalidated@.len(),
                self.invalidated@ == before,
                forall|j: int| 0 <= j < k ==> day_key((#[trigger] self.invalidated@[j]).0, self.invalidated@[j].1)
                    < day_key(system_id, day),
            decreases self.invalidated.len() - k,
        {
            k += 1;
        }
        if k < self.invalidated.len() && self.invalidated[k].0 == system_id && self.invalidated[k].1.0 == day.0 {
            proof {
                assert(day_key(before[k as int].0, before[k as int].1) == day_key(system_id, day));
            }
            return;
        }
        self.invalidated.insert(k, (system_id, day));
        proof {
            let after = self.invalidated@;
            let key = day_key(system_id, day);
            assert forall|x: int, y: int| 0 <= x < y < after.len() implies day_key((#[trigger] after[x]).0, after[x].1)
                < day_key((#[trigger] after[y]).0, after[y].1) by {
                if x > k {
                    assert(after[x] == before[x - 1] && after[y] == before[y - 1]);
                } else if x == k {
                    assert(after[y] == before[y - 1]);
                    assert(day_key(before[k as int].0, before[k as int].1) > key);
                    if y - 1 > k {
                        assert(day_key(before[k as int].0, before[k as int].1) < day_key(before[y - 1].0, before[y - 1].1));
                    }
                } else if y < k {
                    assert(after[x] == before[x] && after[y] == before[y]);
                } else if y == k {
                    assert(after[x] == before[x]);
                } else {
                    assert(after[x] == before[x] && after[y] == before[y - 1]);
                    assert(day_key(before[k as int].0, before[k as int].1) > key);
                    if y - 1 > k {
                        assert(day_key(before[k as int].0, before[k as int].1) < day_key(before[y - 1].0, before[y - 1].1));
                    }
                }
            }
            assert forall|q: int| invalidated_has(before, q) implies invalidated_has(after, q) by {
                let j = choose|j: int| 0 <= j < before.len() && day_key(#[trigger] before[j].0, before[j].1) == q;
                let jj = if j < k { j } else { j + 1 };
                assert(after[jj] == before[j]);
                assert(day_key(after[jj].0, after[jj].1) == q);
            }
            assert(after[k as int] == (system_id, day));
            assert(day_key(after[k as int].0, after[k as int].1) == key);
            assert forall|q: int| invalidated_has(after, q) implies invalidated_has(before, q) || q == key by {
                let j = choose|j: int| 0 <= j < after.len() && day_key(#[trigger] after[j].0, after[j].1) == q;
                if j < k {
                    assert(after[j] == before[j]);
                    assert(day_key(before[j].0, before[j].1) == q);
                } else if j > k {
                    assert(after[j] == before[j - 1]);
                    assert(day_key(before[j - 1].0, before[j - 1].1) == q);
                }
            }
        }
    }

    /// Removes a (system, day) pair from the invalidated set.
    fn clear_invalidated(&mut self, system_id: u128, day: SummaryDay)
        requires
            old(self).wf(),
        ensures
            final(self).wf(),
            final(self).daily@ == old(self).daily@,
            final(self).lifetime@ == old(self).lifetime@,
            forall|k: int|
                invalidated_has(final(self).invalidated@, k) == (invalidated_has(old(self).invalidated@, k)
                    && k != day_key(system_id, day)),
    {
        let ghost before = self.invalidated@;
        let key = Ghost(day_key(system_id, day));
        let mut k: usize = 0;
        while k < self.invalidated.len() && !(self.invalidated[k].0 == system_id && self.invalidated[k].1.0 == day.0)
            invariant
                k <= self.invalidated@.len(),
                self.invalidated@ == before,
                forall|j: int| 0 <= j < k ==> day_key((#[trigger] self.invalidated@[j]).0, self.invalidated@[j].1)
                    != day_key(system_id, day),
            decreases self.invalidated.len() - k,
        {
            k += 1;
        }
        if k < self.invalidated.len() {
            self.invalidated.remove(k);
        }
        proof {
            let after = self.invalidated@;
            if k < before.len() {
                assert(after =~= before.remove(k as int));
                assert forall|x: int, y: int| 0 <= x < y < after.len() implies day_key((#[trigger] after[x]).0, after[x].1)
                    < day_key((#[trigger] after[y]).0, after[y].1) by {
                    let xx = if x < k { x } else { x + 1 };
                    let yy = if y < k { y } else { y + 1 };
                    assert(after[x] == before[xx] && after[y] == before[yy]);
                }
            }
            assert forall|q: int| invalidated_has(after, q) == (invalidated_has(before, q) && q != key@) by {
                if k < before.len() {
                    if invalidated_has(before, q) && q != key@ {
                        let j = choose|j: int| 0 <= j < before.len() && day_key(#[trigger] before[j].0, before[j].1) == q;
                        assert(j != k);
                        if j < k {
                            assert(after[j] == before[j]);
                        } else {
                            assert(after[j - 1] == before[j]);
                        }
                    }
                    if invalidated_has(after, q) {
                        let j = choose|j: int| 0 <= j < after.len() && day_key(#[trigger] after[j].0, after[j].1) == q;
                        let jj = if j < k { j } else { j + 1 };
                        assert(after[j] == before[jj]);
                        if jj != k {
                            assert(day_key(before[jj].0, before[jj].1) != day_key(before[k as int].0, before[k as int].1));
                        }
                    }
                } else {
                    if invalidated_has(before, q) {
                        let j = choose|j: int| 0 <= j < before.len() && day_key(#[trigger] before[j].0, before[j].1) == q;
                    }
                }
            }
        }
    }

    /// Invalidates a changed day and its dependent lifetime summary.
    pub fn invalidate(&mut self, system_id: u128, day: SummaryDay)
        requires
            old(self).wf(),
        ensures
            final(self).wf(),
            final(self).daily_seq() == old(self).daily_seq(),
            forall|k: int|
                invalidated_has(final(self).invalidated_seq(), k) == (invalidated_has(
                    old(self).invalidated_seq(),
                    k,
                ) || k == day_key(system_id, day)),
            forall|s: u128|
                lifetime_at(final(self).lifetime_seq(), s) == (if s == system_id {
                    None
                } else {
                    lifetime_at(old(self).lifetime_seq(), s)
                }),
    {
        self.mark_invalidated(system_id, day);
        self.remove_lifetime(system_id);
    }

    /// Rebuilds the lifetime aggregate of one system from its daily aggregates.
    fn rebuild_lifetime(&mut self, system_id: u128)
        requires
            old(self).wf(),
        ensures
            final(self).wf(),
            final(self).daily@ == old(self).daily@,
            final(self).invalidated@ == old(self).invalidated@,
            forall|s: u128|
                lifetime_at(final(self).lifetime@, s) == (if s == system_id {
                    Some(lifetime_of(old(self).daily@, s))
                } else {
                    lifetime_at(old(self).lifetime@, s)
                }),
    {
        let ghost d = self.daily@;
        let mut generation: i128 = 0;
        let mut consumption: i128 = 0;
        let mut flags: u32 = 0;
        let mut through: Option<SummaryDay> = None;
        let mut k: usize = 0;
        while k < self.daily.len()
            invariant
                k <= d.len(),
                d == self.daily@,
                generation == lifetime_generation(d.take(k as int), system_id),
                consumption == lifetime_consumption(d.take(k as int), system_id),
                flags == lifetime_flags(d.take(k as int), system_id),
                through == lifetime_through(d.take(k as int), system_id),
            decreases self.daily.len() - k,
        {
            let a = self.daily[k];
            proof {
                assert(d.take(k as int + 1).drop_last() =~= d.take(k as int));
                assert(d.take(k as int + 1).last() == a);
                lemma_lifetime_bounds(d.take(k as int + 1), system_id);
            }
            if a.system_id == system_id {
                generation = generation + a.generation_wh as i128;
                consumption = consumption + a.consumption_wh as i128;
                flags = flags | a.quality_flags;
                through = match through {
                    Some(t) => if a.day.0 > t.0 { Some(a.day) } else { Some(t) },
                    None => Some(a.day),
                };
            }
            k += 1;
        }
        proof {
            assert(d.take(k as int) =~= d);
        }
        let value = LifetimeAggregate {
            generation_wh: generation,
            consumption_wh: consumption,
            quality_flags: flags,
            through_day: through,
        };
        self.put_lifetime(system_id, value);
    }

    /// Reconciles one authoritative daily aggregate and rebuilds its lifetime dependency.
    /// Replaying the same source revision and values is a no-op; the result tells whether the
    /// stored aggregate changed.
    pub fn reconcile(&mut self, aggregate: &DailyAggregate) -> (changed: bool)
        requires
            old(self).wf(),
        ensures
            final(self).wf(),
            reconcile_outcome(*old(self), *aggregate, *final(self), changed),
    {
        let existing = self.daily_aggregate(aggregate.system_id, aggregate.day);
        let changed = match existing {
            Some(e) => e != *aggregate,
            None => true,
        };
        self.put_daily(*aggregate);
        self.clear_invalidated(aggregate.system_id, aggregate.day);
        self.rebuild_lifetime(aggregate.system_id);
        changed
    }

    /// Rebuilds daily, monthly, yearly, or lifetime modeled metrics with independent coverage.
    pub fn modeled_summary(&self, system_id: u128, period: SummaryPeriod) -> (r: ModeledSummary)
        ensures
            r == modeled_summary_spec(self.daily_seq(), system_id, period),
    {
        let ghost d = self.daily@;
        let mut actual: i128 = 0;
        let mut expected: Option<i128> = None;
        let mut forecast: Option<i128> = None;
        let mut expected_lower: Option<i128> = None;
        let mut expected_upper: Option<i128> = None;
        let mut forecast_lower: Option<i128> = None;
        let mut forecast_upper: Option<i128> = None;
        let mut actual_coverage: u16 = 0;
        let mut expected_coverage: u16 = 0;
        let mut forecast_coverage: u16 = 0;
        let mut any = false;
        let mut k: usize = 0;
        while k < self.daily.len()
            invariant
                k <= d.len(),
                d == self.daily@,
                actual == actual_total(d.take(k as int), system_id, period),
                expected == total_as_i128(component_total(d.take(k as int), system_id, period, 0)),
                forecast == total_as_i128(component_total(d.take(k as int), system_id, period, 1)),
                expected_lower == total_as_i128(component_total(d.take(k as int), system_id, period, 2)),
                expected_upper == total_as_i128(component_total(d.take(k as int), system_id, period, 3)),
                forecast_lower == total_as_i128(component_total(d.take(k as int), system_id, period, 4)),
                forecast_upper == total_as_i128(component_total(d.take(k as int), system_id, period, 5)),
                forall|f: int|
                    #[trigger] component_total(d.take(k as int), system_id, period, f) is Some ==> i128::MIN
                        <= component_total(d.take(k as int), system_id, period, f)->Some_0 <= i128::MAX,
                actual_coverage == coverage_minimum(d.take(k as int), system_id, period, 0),
                expected_coverage == coverage_minimum(d.take(k as int), system_id, period, 1),
                forecast_coverage == coverage_minimum(d.take(k as int), system_id, period, 2),
                any == (matched_count(d.take(k as int), system_id, period) > 0),
            decreases self.daily.len() - k,
        {
            let a = self.daily[k];
            let ghost t = d.take(k as int + 1);
            proof {
                assert(t.drop_last() =~= d.take(k as int));
                assert(t.last() == a);
                lemma_summary_bounds(t, system_id, period);
                // Mention each of the six totals, so that the bounds above apply to it.
                assert(component_total(t, system_id, period, 0) == component_total(t, system_id, period, 0));
                assert(component_total(t, system_id, period, 1) == component_total(t, system_id, period, 1));
                assert(component_total(t, system_id, period, 2) == component_total(t, system_id, period, 2));
                assert(component_total(t, system_id, period, 3) == component_total(t, system_id, period, 3));
                assert(component_total(t, system_id, period, 4) == component_total(t, system_id, period, 4));
                assert(component_total(t, system_id, period, 5) == component_total(t, system_id, period, 5));
            }
            if period_matches_exec(&a, system_id, period) {
                actual = actual + a.generation_wh as i128;
                accumulate_optional(&mut expected, a.modeled.expected_energy_wh);
                accumulate_optional(&mut forecast, a.modeled.forecast_energy_wh);
                accumulate_optional(&mut expected_lower, a.modeled.expected_lower_wh);
                accumulate_optional(&mut expected_upper, a.modeled.expected_upper_wh);
                accumulate_optional(&mut forecast_lower, a.modeled.forecast_lower_wh);
                accumulate_optional(&mut forecast_upper, a.modeled.forecast_upper_wh);
                actual_coverage = minimum_coverage(actual_coverage, a.modeled.actual_coverage_basis_points, any);
                expected_coverage = minimum_coverage(expected_coverage, a.modeled.expected_coverage_basis_points, any);
                forecast_coverage = minimum_coverage(forecast_coverage, a.modeled.forecast_coverage_basis_points, any);
                any = true;
            }
            proof {
                assert forall|f: int| #[trigger] component_total(t, system_id, period, f) is Some implies i128::MIN
                    <= component_total(t, system_id, period, f)->Some_0 <= i128::MAX by {}
            }
            k += 1;
        }
        proof {
            assert(d.take(k as int) =~= d);
        }
        let generation_performance = ratio(actual, expected, actual_coverage, expected_coverage);
        let forecast_realization = ratio(actual, forecast, actual_coverage, forecast_coverage);
        ModeledSummary {
            actual_energy_wh: actual,
            expected_energy_wh: expected,
            forecast_energy_wh: forecast,
            expected_lower_wh: expected_lower,
            expected_upper_wh: expected_upper,
            forecast_lower_wh: forecast_lower,
            forecast_upper_wh: forecast_upper,
            generation_performance_basis_points: generation_performance,
            forecast_realization_basis_points: forecast_realization,
            actual_coverage_basis_points: actual_coverage,
            expected_coverage_basis_points: expected_coverage,
            forecast_coverage_basis_points: forecast_coverage,
        }
    }
}


proof fn lemma_unmatched_day(s: Seq<DailyAggregate>, a: DailyAggregate, sid: u128, period: SummaryPeriod)
    requires
        !period_matches(a, sid, period),
    ensures
        modeled_summary_spec(s.push(a), sid, period) == modeled_summary_spec(s, sid, period),
{
    let t = s.push(a);
    assert(t.drop_last() =~= s);
    assert(t.last() == a);
    assert(actual_total(t, sid, period) == actual_total(s, sid, period));
    assert(component_total(t, sid, period, 0) == component_total(s, sid, period, 0));
    assert(component_total(t, sid, period, 1) == component_total(s, sid, period, 1));
    assert(component_total(t, sid, period, 2) == component_total(s, sid, period, 2));
    assert(component_total(t, sid, period, 3) == component_total(s, sid, period, 3));
    assert(component_total(t, sid, period, 4) == component_total(s, sid, period, 4));
    assert(component_total(t, sid, period, 5) == component_total(s, sid, period, 5));
    assert(coverage_minimum(t, sid, period, 0) == coverage_minimum(s, sid, period, 0));
    assert(coverage_minimum(t, sid, period, 1) == coverage_minimum(s, sid, period, 1));
    assert(coverage_minimum(t, sid, period, 2) == coverage_minimum(s, sid, period, 2));
}

proof fn lemma_matched_day(s: Seq<DailyAggregate>, a: DailyAggregate, sid: u128, period: SummaryPeriod)
    requires
        period_matches(a, sid, period),
    ensures
        actual_total(s.push(a), sid, period) == actual_total(s, sid, period) + a.generation_wh,
{
    let t = s.push(a);
    assert(t.drop_last() =~= s);
    assert(t.last() == a);
}

/// A day counts toward a summary exactly when it belongs to the summarised system and falls in
/// the period: in the same day for a day, in the same calendar year and month for a month, in
/// the same calendar year for a year, and always for the lifetime. Storing a further day outside
/// the period leaves the period's whole summary unchanged; storing one inside adds its
/// generation to the period's actual energy.
pub proof fn summaries_count_exactly_their_days(
    s: Seq<DailyAggregate>,
    a: DailyAggregate,
    sid: u128,
    day: SummaryDay,
    year: i32,
    month: u8,
)
    ensures
        a.system_id != sid ==> modeled_summary_spec(s.push(a), sid, SummaryPeriod::Lifetime) == modeled_summary_spec(
            s,
            sid,
            SummaryPeriod::Lifetime,
        ),
        a.system_id == sid ==> actual_total(s.push(a), sid, SummaryPeriod::Lifetime) == actual_total(
            s,
            sid,
            SummaryPeriod::Lifetime,
        ) + a.generation_wh,
        a.system_id != sid || a.day != day ==> modeled_summary_spec(s.push(a), sid, SummaryPeriod::Day(day))
            == modeled_summary_spec(s, sid, SummaryPeriod::Day(day)),
        a.system_id == sid && a.day == day ==> actual_total(s.push(a), sid, SummaryPeriod::Day(day)) == actual_total(
            s,
            sid,
            SummaryPeriod::Day(day),
        ) + a.generation_wh,
        a.system_id != sid || a.calendar_year != year || a.calendar_month != month ==> modeled_summary_spec(
            s.push(a),
            sid,
            SummaryPeriod::Month { year, month },
        ) == modeled_summary_spec(s, sid, SummaryPeriod::Month { year, month }),
        a.system_id == sid && a.calendar_year == year && a.calendar_month == month ==> actual_total(
            s.push(a),
            sid,
            SummaryPeriod::Month { year, month },
        ) == actual_total(s, sid, SummaryPeriod::Month { year, month }) + a.generation_wh,
        a.system_id != sid || a.calendar_year != year ==> modeled_summary_spec(s.push(a), sid, SummaryPeriod::Year(year))
            == modeled_summary_spec(s, sid, SummaryPeriod::Year(year)),
        a.system_id == sid && a.calendar_year == year ==> actual_total(s.push(a), sid, SummaryPeriod::Year(year))
            == actual_total(s, sid, SummaryPeriod::Year(year)) + a.generation_wh,
{
    let periods = seq![
        SummaryPeriod::Lifetime,
        SummaryPeriod::Day(day),
        SummaryPeriod::Month { year, month },
        SummaryPeriod::Year(year),
    ];
    assert forall|i: int| 0 <= i < 4 implies {
        let p = #[trigger] periods[i];
        &&& !period_matches(a, sid, p) ==> modeled_summary_spec(s.push(a), sid, p) == modeled_summary_spec(s, sid, p)
        &&& period_matches(a, sid, p) ==> actual_total(s.push(a), sid, p) == actual_total(s, sid, p) + a.generation_wh
    } by {
        let p = periods[i];
        if period_matches(a, sid, p) {
            lemma_matched_day(s, a, sid, p);
        } else {
            lemma_unmatched_day(s, a, sid, p);
        }
    }
    assert(periods[0] == SummaryPeriod::Lifetime);
    assert(periods[1] == SummaryPeriod::Day(day));
    assert(periods[2] == SummaryPeriod::Month { year, month });
    assert(periods[3] == SummaryPeriod::Year(year));
}

/// The stored days decide every summary: two well-formed projections that store the same daily
/// aggregate under every key hold the same daily sequence, and so give the same modeled summary
/// of every system and period.
pub proof fn summaries_follow_stored_days(p: SummaryProjection, q: SummaryProjection, sid: u128, period: SummaryPeriod)
    requires
        p.wf(),
        q.wf(),
        forall|k: int| daily_at(p.daily_seq(), k) == daily_at(q.daily_seq(), k),
    ensures
        p.daily_seq() == q.daily_seq(),
        modeled_summary_spec(p.daily_seq(), sid, period) == modeled_summary_spec(q.daily_seq(), sid, period),
{
    lemma_daily_unique(p.daily_seq(), q.daily_seq());
}

/// A well-formed projection whose only stored day is `a` holds exactly that day.
pub proof fn single_stored_day(p: SummaryProjection, a: DailyAggregate)
    requires
        p.wf(),
        forall|k: int| daily_at(p.daily_seq(), k) == (if k == daily_key(a) { Some(a) } else { None::<DailyAggregate> }),
    ensures
        p.daily_seq() == seq![a],
{
    let s = seq![a];
    assert(daily_ascending(s));
    assert forall|k: int| daily_at(s, k) == daily_at(p.daily_seq(), k) by {
        assert(s.drop_last() =~= Seq::<DailyAggregate>::empty());
        assert(s.last() == a);
        assert(daily_at(s.drop_last(), k) is None);
        assert(daily_at(s, k) == (if k == daily_key(a) { Some(a) } else { None::<DailyAggregate> }));
    }
    lemma_daily_unique(s, p.daily_seq());
}

/// Replaying a reconciliation is a no-op: reconciling the same aggregate a second time reports no
/// change and leaves every stored daily aggregate, invalidation and lifetime aggregate, and so
/// every stored list, as the first reconciliation left it.
pub proof fn reconcile_replay_is_noop(
    p0: SummaryProjection,
    p1: SummaryProjection,
    p2: SummaryProjection,
    a: DailyAggregate,
    first: bool,
    second: bool,
)
    requires
        p1.wf(),
        p2.wf(),
        reconcile_outcome(p0, a, p1, first),
        reconcile_outcome(p1, a, p2, second),
    ensures
        !second,
        forall|k: int| daily_at(p2.daily_seq(), k) == daily_at(p1.daily_seq(), k),
        forall|k: int| invalidated_has(p2.invalidated_seq(), k) == invalidated_has(p1.invalidated_seq(), k),
        forall|s: u128| lifetime_at(p2.lifetime_seq(), s) == lifetime_at(p1.lifetime_seq(), s),
        p2.daily_seq() == p1.daily_seq(),
        p2.invalidated_seq() == p1.invalidated_seq(),
        p2.lifetime_seq() == p1.lifetime_seq(),
{
    assert(daily_at(p1.daily_seq(), daily_key(a)) == Some(a));
    lemma_daily_unique(p1.daily_seq(), p2.daily_seq());
    lemma_invalidated_unique(p1.invalidated_seq(), p2.invalidated_seq());
    lemma_lifetime_unique(p1.lifetime_seq(), p2.lifetime_seq());
}

} // verus!
