//! Retention rules of immutable normalized weather runs.
use crate::text::{blank, is_blank, text_eq};
use vstd::prelude::*;

verus! {

/// How long a forecast input or result is kept.
#[derive(Clone, Copy, Debug, PartialEq, Eq, Structural)]
pub enum ForecastRetentionClass {
    /// Kept until its expiry.
    Working,
    /// Issued to users.
    Issued,
    /// Referenced by a retained result, from its reference time on.
    Referenced,
}

pub open spec fn retention_class_name(c: ForecastRetentionClass) -> Seq<char> {
    match c {
        ForecastRetentionClass::Working => "working"@,
        ForecastRetentionClass::Issued => "issued"@,
        ForecastRetentionClass::Referenced => "referenced"@,
    }
}

/// Failure of the forecast input store. Failures of the database, of account routing, of
/// identifiers and of URLs carry their message.
#[derive(Clone, Debug, PartialEq, Eq)]
pub enum YieldForecastRepositoryError {
    Sqlx(String),
    SqliteRouting(String),
    Identifier(String),
    Url(String),
    Validation(&'static str),
    Conflict(&'static str),
    Corrupt(&'static str),
}

impl ForecastRetentionClass {
    /// The stored name of the class.
    pub fn as_str(self) -> (r: &'static str)
        ensures
            r@ == retention_class_name(self),
    {
        match self {
            ForecastRetentionClass::Working => "working",
            ForecastRetentionClass::Issued => "issued",
            ForecastRetentionClass::Referenced => "referenced",
        }
    }

    /// The class with the given stored name.
    pub fn parse(value: &str) -> (r: Result<Self, YieldForecastRepositoryError>)
        ensures
            match r {
                Ok(c) => retention_class_name(c) == value@,
                Err(e) => value@ != "working"@ && value@ != "issued"@ && value@ != "referenced"@ && (e matches YieldForecastRepositoryError::Corrupt(
                    m,
                ) && m@ == "unknown forecast retention class"@),
            },
    {
        if text_eq(value, "working") {
            Ok(ForecastRetentionClass::Working)
        } else if text_eq(value, "issued") {
            Ok(ForecastRetentionClass::Issued)
        } else if text_eq(value, "referenced") {
            Ok(ForecastRetentionClass::Referenced)
        } else {
            Err(YieldForecastRepositoryError::Corrupt("unknown forecast retention class"))
        }
    }
}

/// Distinct retention classes have distinct stored names, so every class reads back as itself.
pub proof fn retention_class_names_are_distinct(a: ForecastRetentionClass, b: ForecastRetentionClass)
    ensures
        retention_class_name(a) == retention_class_name(b) ==> a == b,
        retention_class_name(a) == "working"@ || retention_class_name(a) == "issued"@
            || retention_class_name(a) == "referenced"@,
{
    reveal_strlit("working");
    reveal_strlit("issued");
    reveal_strlit("referenced");
    assert("working"@.len() == 7 && "issued"@.len() == 6 && "referenced"@.len() == 10);
}

/// Whether a stored weather run was new.
#[derive(Clone, Copy, Debug, PartialEq, Eq, Structural)]
pub enum WeatherRunInsertOutcome {
    Inserted,
    AlreadyPresent,
}

/// A referenced run has a reference time and only a referenced run has one; a working run has
/// an expiry.
pub fn validate_retention(
    retention_class: ForecastRetentionClass,
    retain_until: Option<i64>,
    referenced_at: Option<i64>,
) -> (r: Result<(), YieldForecastRepositoryError>)
    ensures
        r == if retention_class == ForecastRetentionClass::Referenced && referenced_at is None {
            Err(YieldForecastRepositoryError::Validation("referenced weather retention requires a reference time"))
        } else if retention_class != ForecastRetentionClass::Referenced && referenced_at is Some {
            Err(
                YieldForecastRepositoryError::Validation(
                    "only referenced weather runs may carry a reference time",
                ),
            )
        } else if retention_class == ForecastRetentionClass::Working && retain_until is None {
            Err(YieldForecastRepositoryError::Validation("working weather retention requires an expiry"))
        } else {
            Ok(())
        },
{
    if retention_class == ForecastRetentionClass::Referenced && referenced_at.is_none() {
        return Err(YieldForecastRepositoryError::Validation("referenced weather retention requires a reference time"));
    }
    if retention_class != ForecastRetentionClass::Referenced && referenced_at.is_some() {
        return Err(YieldForecastRepositoryError::Validation("only referenced weather runs may carry a reference time"));
    }
    if retention_class == ForecastRetentionClass::Working && retain_until.is_none() {
        return Err(YieldForecastRepositoryError::Validation("working weather retention requires an expiry"));
    }
    Ok(())
}

/// A purge handles between 1 and 10000 runs.
pub fn validate_retention_limit(limit: u32) -> (r: Result<(), YieldForecastRepositoryError>)
    ensures
        r is Ok <==> 1 <= limit <= 10_000,
        r matches Err(e) ==> e == YieldForecastRepositoryError::Validation("retention limit must be between 1 and 10000"),
{
    if limit == 0 || limit > 10_000 {
        Err(YieldForecastRepositoryError::Validation("retention limit must be between 1 and 10000"))
    } else {
        Ok(())
    }
}

/// The loss and calibration settings of one forecast settings record.
#[derive(Clone, Copy, Debug, PartialEq, Eq, Structural)]
pub struct ForecastAdjustments {
    pub soiling_loss_basis_points: u16,
    pub shading_loss_basis_points: u16,
    pub mismatch_loss_basis_points: u16,
    pub wiring_loss_basis_points: u16,
    pub unavailability_loss_basis_points: u16,
    pub calibration_basis_points: i32,
}

/// Every loss is at most 100 % and the calibration within ±100 %.
pub open spec fn adjustments_valid(a: ForecastAdjustments) -> bool {
    &&& a.soiling_loss_basis_points <= 10_000
    &&& a.shading_loss_basis_points <= 10_000
    &&& a.mismatch_loss_basis_points <= 10_000
    &&& a.wiring_loss_basis_points <= 10_000
    &&& a.unavailability_loss_basis_points <= 10_000
    &&& -10_000 <= a.calibration_basis_points <= 10_000
}

/// Forecast settings have a non-empty effective range, a model identifier and revision, and
/// losses and calibration in range.
pub fn validate_settings(
    effective_from: i64,
    effective_to: Option<i64>,
    model_identifier: &str,
    model_revision: u16,
    adjustments: ForecastAdjustments,
) -> (r: Result<(), YieldForecastRepositoryError>)
    ensures
        r == if effective_to matches Some(end) && end <= effective_from {
            Err(YieldForecastRepositoryError::Validation("forecast settings effective range is empty"))
        } else if blank(model_identifier@) || model_revision == 0 {
            Err(YieldForecastRepositoryError::Validation("forecast model identifier and revision are required"))
        } else if !adjustments_valid(adjustments) {
            Err(YieldForecastRepositoryError::Validation("forecast loss or calibration is outside the supported range"))
        } else {
            Ok(())
        },
{
    let empty = match effective_to {
        Some(end) => end <= effective_from,
        None => false,
    };
    if empty {
        return Err(YieldForecastRepositoryError::Validation("forecast settings effective range is empty"));
    }
    if is_blank(model_identifier) || model_revision == 0 {
        return Err(YieldForecastRepositoryError::Validation("forecast model identifier and revision are required"));
    }
    let a = adjustments;
    if a.soiling_loss_basis_points > 10_000 || a.shading_loss_basis_points > 10_000 || a.mismatch_loss_basis_points
        > 10_000 || a.wiring_loss_basis_points > 10_000 || a.unavailability_loss_basis_points > 10_000
        || !(-10_000 <= a.calibration_basis_points && a.calibration_basis_points <= 10_000) {
        return Err(
            YieldForecastRepositoryError::Validation("forecast loss or calibration is outside the supported range"),
        );
    }
    Ok(())
}

/// One normalized weather point as the run check sees it: its interval and which irradiance
/// inputs it carries.
#[derive(Clone, Copy, Debug, PartialEq, Eq, Structural)]
pub struct WeatherPointWindow {
    pub start: i64,
    pub end: i64,
    pub has_plane_of_array: bool,
    pub has_global_horizontal: bool,
    pub has_direct_normal: bool,
    pub has_diffuse_horizontal: bool,
}

/// A point can be used when it carries plane-of-array or global horizontal irradiance, or both
/// direct normal and diffuse horizontal irradiance.
pub open spec fn irradiance_usable(p: WeatherPointWindow) -> bool {
    p.has_plane_of_array || p.has_global_horizontal || (p.has_direct_normal && p.has_diffuse_horizontal)
}

/// The first failure among the points, checked in order: each must start inside the run's range
/// `[range_start, range_end)`, end within it, not start before the previous point ended, and
/// carry usable irradiance.
pub open spec fn points_error(points: Seq<WeatherPointWindow>, range_start: i64, range_end: i64) -> Option<&'static str>
    decreases points.len(),
{
    if points.len() == 0 {
        None
    } else {
        let prior = points.drop_last();
        match points_error(prior, range_start, range_end) {
            Some(m) => Some(m),
            None => {
                let p = points.last();
                if !(range_start <= p.start < range_end) || p.end > range_end || (prior.len() > 0 && p.start
                    < prior.last().end) {
                    Some("weather points must be ordered, non-overlapping, and inside the run range")
                } else if !irradiance_usable(p) {
                    Some("weather point lacks a usable irradiance input")
                } else {
                    None
                }
            },
        }
    }
}

proof fn lemma_points_error_prefix(points: Seq<WeatherPointWindow>, range_start: i64, range_end: i64, n: int)
    requires
        0 <= n <= points.len(),
    ensures
        points_error(points.take(n), range_start, range_end) is Some ==> points_error(points, range_start, range_end)
            == points_error(points.take(n), range_start, range_end),
    decreases points.len() - n,
{
    if n < points.len() {
        lemma_points_error_prefix(points, range_start, range_end, n + 1);
        assert(points.take(n + 1).drop_last() =~= points.take(n));
    } else {
        assert(points.take(n) =~= points);
    }
}

/// A weather run has a source key and a positive resolution, an issue time when it is a
/// forecast, and ordered, non-overlapping points with usable irradiance inside its range.
pub fn validate_weather_record(
    source_run_key: &str,
    resolution_seconds: u32,
    is_forecast: bool,
    has_issued_at: bool,
    range_start: i64,
    range_end: i64,
    points: &Vec<WeatherPointWindow>,
) -> (r: Result<(), YieldForecastRepositoryError>)
    ensures
        r == if blank(source_run_key@) || resolution_seconds == 0 {
            Err(YieldForecastRepositoryError::Validation("weather source key and positive resolution are required"))
        } else if is_forecast && !has_issued_at {
            Err(YieldForecastRepositoryError::Validation("forecast weather runs require an issue time"))
        } else {
            match points_error(points@, range_start, range_end) {
                Some(m) => Err(YieldForecastRepositoryError::Validation(m)),
                None => Ok(()),
            }
        },
{
    if is_blank(source_run_key) || resolution_seconds == 0 {
        return Err(YieldForecastRepositoryError::Validation("weather source key and positive resolution are required"));
    }
    if is_forecast && !has_issued_at {
        return Err(YieldForecastRepositoryError::Validation("forecast weather runs require an issue time"));
    }
    let mut previous_end: Option<i64> = None;
    let mut k: usize = 0;
    while k < points.len()
        invariant
            k <= points@.len(),
            !blank(source_run_key@) && resolution_seconds != 0,
            !(is_forecast && !has_issued_at),
            points_error(points@.take(k as int), range_start, range_end) is None,
            previous_end == (if k == 0 { None } else { Some(points@[k - 1].end) }),
        decreases points.len() - k,
    {
        let p = points[k];
        proof {
            let t = points@.take(k as int + 1);
            assert(t.drop_last() =~= points@.take(k as int));
            assert(t.last() == p);
            if k > 0 {
                assert(t.drop_last().last() == points@[k - 1]);
            }
            lemma_points_error_prefix(points@, range_start, range_end, k as int + 1);
        }
        let overlaps = match previous_end {
            Some(end) => p.start < end,
            None => false,
        };
        if !(range_start <= p.start && p.start < range_end) || p.end > range_end || overlaps {
            return Err(
                YieldForecastRepositoryError::Validation(
                    "weather points must be ordered, non-overlapping, and inside the run range",
                ),
            );
        }
        if !p.has_plane_of_array && !p.has_global_horizontal && (!p.has_direct_normal || !p.has_diffuse_horizontal) {
            return Err(YieldForecastRepositoryError::Validation("weather point lacks a usable irradiance input"));
        }
        previous_end = Some(p.end);
        k += 1;
    }
    proof {
        assert(points@.take(k as int) =~= points@);
    }
    Ok(())
}

} // verus!
