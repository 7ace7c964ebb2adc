use pvlog_storage_core::account_checks::{
    validate_audit as validate_account_audit, validate_inverter, validate_range as validate_effective_range,
    validate_system, AccountRepositoryError, PvStringFields,
};
use pvlog_storage_core::administration_checks::{validate_configuration, validate_key, AdministrationRepositoryError};
use pvlog_storage_core::management_checks::{
    validate_account, validate_audit, validate_credential, validate_membership, validate_session, validate_user,
    ManagementRepositoryError,
};
use pvlog_storage_core::operational_checks::{validate_period, OperationalRepositoryError};
use pvlog_storage_core::telemetry_checks::{
    idempotency_replay, validate_correction, validate_idempotency, validate_observation,
    validate_range as validate_telemetry_range, TelemetryRepositoryError,
};
use pvlog_storage_core::text::is_blank;
use pvlog_storage_core::yield_forecast::{
    validate_retention as validate_weather_retention, validate_retention_limit as validate_weather_retention_limit,
    validate_settings, validate_weather_record, ForecastAdjustments, ForecastRetentionClass,
    WeatherPointWindow, YieldForecastRepositoryError,
};
use pvlog_storage_core::yield_results::{
    nonnegative_i64, validate_invalidation, validate_query_limit, validate_retention, validate_retention_limit,
    validate_run, validate_state, YieldCalculationState, YieldInvalidationReason, YieldInvalidationState,
    YieldResultRepositoryError,
};

#[test]
fn blank_text_matches_trim() {
    for s in ["", " ", "\t\n\r", "\u{a0}\u{2003}\u{3000}", "\u{85}"] {
        assert!(is_blank(s));
        assert!(s.trim().is_empty());
    }
    for s in ["a", " x ", "\u{200b}"] {
        assert!(!is_blank(s));
        assert!(!s.trim().is_empty());
    }
}

#[test]
fn ranges_and_periods() {
    assert_eq!(validate_effective_range(5, Some(5)), Err(AccountRepositoryError::InvalidEffectiveRange));
    assert_eq!(validate_effective_range(5, None), Ok(()));
    assert_eq!(validate_telemetry_range(1, 1), Err(TelemetryRepositoryError::InvalidRange));
    assert_eq!(validate_telemetry_range(1, 2), Ok(()));
    assert_eq!(validate_period(3, 2), Err(OperationalRepositoryError::InvalidPeriod));
    assert_eq!(validate_period(2, 3), Ok(()));
}

#[test]
fn account_records() {
    assert_eq!(validate_system("Roof", " "), Err(AccountRepositoryError::InvalidRecord("system")));
    assert_eq!(validate_system("Roof", "Europe/Berlin"), Ok(()));
    assert_eq!(validate_account_audit("", "system"), Err(AccountRepositoryError::InvalidRecord("audit")));
    let string = PvStringFields {
        inverter_id: 1,
        name: "east".to_owned(),
        panel_count: 10,
        rated_power_watts: 4_000,
        orientation_degrees: Some(90),
        tilt_degrees: Some(30),
        effective_from: 0,
        effective_to: None,
    };
    assert_eq!(validate_inverter(1, "inv", 0, None, &vec![string.clone()]), Ok(()));
    assert_eq!(validate_inverter(1, "inv", 0, None, &vec![]), Err(AccountRepositoryError::InvalidRecord("inverter")));
    assert_eq!(validate_inverter(1, "inv", 5, Some(1), &vec![]), Err(AccountRepositoryError::InvalidEffectiveRange));
    let tilted = PvStringFields { tilt_degrees: Some(91), ..string.clone() };
    assert_eq!(validate_inverter(1, "inv", 0, None, &vec![string.clone(), tilted]), Err(AccountRepositoryError::InvalidRecord("PV string")));
    let foreign = PvStringFields { inverter_id: 2, ..string.clone() };
    assert_eq!(validate_inverter(1, "inv", 0, None, &vec![foreign]), Err(AccountRepositoryError::InvalidRecord("PV string")));
    let reversed = PvStringFields { effective_to: Some(0), ..string };
    assert_eq!(validate_inverter(1, "inv", 0, None, &vec![reversed]), Err(AccountRepositoryError::InvalidEffectiveRange));
}

#[test]
fn telemetry_records() {
    assert_eq!(validate_observation("src", 1, 65_535), Ok(()));
    assert_eq!(validate_observation("src", 1, 65_536), Err(TelemetryRepositoryError::InvalidRecord("observation")));
    assert_eq!(validate_observation("", 1, 0), Err(TelemetryRepositoryError::InvalidRecord("observation")));
    assert_eq!(validate_idempotency("k", "op", 5, 5), Err(TelemetryRepositoryError::InvalidRecord("idempotency")));
    assert_eq!(validate_idempotency("k", "op", 5, 6), Ok(()));
    assert_eq!(validate_correction("replace", true, 1, "fix"), Ok(()));
    assert_eq!(validate_correction("delete", false, 1, "fix"), Ok(()));
    assert_eq!(validate_correction("delete", true, 1, "fix"), Err(TelemetryRepositoryError::InvalidRecord("correction")));
    assert_eq!(validate_correction("update", true, 1, "fix"), Err(TelemetryRepositoryError::InvalidRecord("correction")));
    assert_eq!(idempotency_replay(&[1; 32], &[1; 32]), Ok(()));
    assert_eq!(idempotency_replay(&[1; 32], &[2; 32]), Err(TelemetryRepositoryError::IdempotencyConflict));
}

#[test]
fn management_records() {
    assert_eq!(validate_user("a@b", "A", "active"), Ok(()));
    assert_eq!(validate_user("a@b", "A", "banned"), Err(ManagementRepositoryError::InvalidRecord("user")));
    assert_eq!(validate_account("acme", "Acme", "deleting"), Ok(()));
    assert_eq!(validate_account("", "Acme", "active"), Err(ManagementRepositoryError::InvalidRecord("account")));
    assert_eq!(validate_membership("revoked"), Ok(()));
    assert_eq!(validate_membership("gone"), Err(ManagementRepositoryError::InvalidRecord("membership")));
    assert_eq!(validate_session(11, 10), Err(ManagementRepositoryError::InvalidRecord("session")));
    assert_eq!(validate_credential("ci", 0), Err(ManagementRepositoryError::InvalidRecord("api_credential")));
    assert_eq!(validate_audit("login", "user", "denied"), Ok(()));
    assert_eq!(validate_audit("login", "user", "maybe"), Err(ManagementRepositoryError::InvalidRecord("audit")));
}

#[test]
fn configuration_keys() {
    assert_eq!(validate_key("ui.theme_v2-x"), Ok(()));
    assert_eq!(validate_key(""), Err(AdministrationRepositoryError::Invalid));
    assert_eq!(validate_key("Upper"), Err(AdministrationRepositoryError::Invalid));
    assert_eq!(validate_key(&"a".repeat(128)), Ok(()));
    assert_eq!(validate_key(&"a".repeat(129)), Err(AdministrationRepositoryError::Invalid));
    assert_eq!(validate_configuration("k", "secret_reference", 0), Ok(()));
    assert_eq!(validate_configuration("k", "secret", 0), Err(AdministrationRepositoryError::Invalid));
    assert_eq!(validate_configuration("k", "public", -1), Err(AdministrationRepositoryError::Invalid));
}

#[test]
fn retention_rules() {
    assert_eq!(ForecastRetentionClass::Issued.as_str(), "issued");
    assert_eq!(ForecastRetentionClass::parse("referenced"), Ok(ForecastRetentionClass::Referenced));
    assert_eq!(
        ForecastRetentionClass::parse("kept"),
        Err(YieldForecastRepositoryError::Corrupt("unknown forecast retention class"))
    );
    assert_eq!(
        validate_weather_retention(ForecastRetentionClass::Referenced, None, None),
        Err(YieldForecastRepositoryError::Validation("referenced weather retention requires a reference time"))
    );
    assert_eq!(
        validate_weather_retention(ForecastRetentionClass::Issued, None, Some(1)),
        Err(YieldForecastRepositoryError::Validation("only referenced weather runs may carry a reference time"))
    );
    assert_eq!(
        validate_retention(ForecastRetentionClass::Working, None, None),
        Err(YieldResultRepositoryError::Validation("working calculation retention requires an expiry"))
    );
    assert_eq!(validate_retention(ForecastRetentionClass::Working, Some(5), None), Ok(()));
    assert_eq!(validate_weather_retention_limit(10_000), Ok(()));
    assert_eq!(
        validate_retention_limit(0),
        Err(YieldResultRepositoryError::Validation("retention limit must be between 1 and 10000"))
    );
    assert_eq!(
        validate_query_limit(10_001),
        Err(YieldResultRepositoryError::Validation("result query limit must be between 1 and 10000"))
    );
}

#[test]
fn calculation_states() {
    assert_eq!(YieldCalculationState::Superseded.as_str(), "superseded");
    assert_eq!(YieldCalculationState::parse("running"), Ok(YieldCalculationState::Running));
    assert_eq!(
        YieldCalculationState::parse("paused"),
        Err(YieldResultRepositoryError::Corrupt("unknown calculation state"))
    );
    assert_eq!(YieldInvalidationReason::LateTelemetry.as_str(), "late_telemetry");
    assert_eq!(validate_state(YieldCalculationState::Completed, Some(1), None), Ok(()));
    assert_eq!(
        validate_state(YieldCalculationState::Running, Some(1), None),
        Err(YieldResultRepositoryError::Validation("terminal calculation state and completion time must agree"))
    );
    assert_eq!(
        validate_state(YieldCalculationState::Failed, Some(1), Some(" ")),
        Err(YieldResultRepositoryError::Validation("safe calculation error code is invalid"))
    );
    assert_eq!(
        validate_run(" ", "model", 1, YieldCalculationState::Pending, None, None),
        Err(YieldResultRepositoryError::Validation("calculation idempotency key and model version are required"))
    );
    assert_eq!(validate_run("k", "model", 1, YieldCalculationState::Pending, None, None), Ok(()));
    assert_eq!(validate_invalidation("k", YieldInvalidationState::Pending, None), Ok(()));
    assert_eq!(
        validate_invalidation("k", YieldInvalidationState::Leased, None),
        Err(YieldResultRepositoryError::Validation("new invalidation must be pending with an idempotency key"))
    );
    assert_eq!(nonnegative_i64(3, "count"), Ok(3));
    assert_eq!(nonnegative_i64(-3, "count"), Err(YieldResultRepositoryError::Corrupt("count")));
}

#[test]
fn forecast_inputs() {
    let adjustments = ForecastAdjustments {
        soiling_loss_basis_points: 200,
        shading_loss_basis_points: 0,
        mismatch_loss_basis_points: 100,
        wiring_loss_basis_points: 10_000,
        unavailability_loss_basis_points: 0,
        calibration_basis_points: -10_000,
    };
    assert_eq!(validate_settings(0, None, "pvwatts", 2, adjustments), Ok(()));
    assert_eq!(
        validate_settings(0, Some(0), "pvwatts", 2, adjustments),
        Err(YieldForecastRepositoryError::Validation("forecast settings effective range is empty"))
    );
    let too_much = ForecastAdjustments { shading_loss_basis_points: 10_001, ..adjustments };
    assert_eq!(
        validate_settings(0, None, "pvwatts", 2, too_much),
        Err(YieldForecastRepositoryError::Validation("forecast loss or calibration is outside the supported range"))
    );
    let point = |start: i64, end: i64| WeatherPointWindow {
        start,
        end,
        has_plane_of_array: false,
        has_global_horizontal: true,
        has_direct_normal: false,
        has_diffuse_horizontal: false,
    };
    assert_eq!(validate_weather_record("run", 900, true, true, 0, 100, &vec![point(0, 50), point(50, 100)]), Ok(()));
    assert_eq!(
        validate_weather_record("run", 900, true, false, 0, 100, &vec![]),
        Err(YieldForecastRepositoryError::Validation("forecast weather runs require an issue time"))
    );
    assert_eq!(
        validate_weather_record("run", 900, false, false, 0, 100, &vec![point(0, 60), point(50, 100)]),
        Err(YieldForecastRepositoryError::Validation(
            "weather points must be ordered, non-overlapping, and inside the run range"
        ))
    );
    let dark = WeatherPointWindow { has_global_horizontal: false, has_direct_normal: true, ..point(0, 10) };
    assert_eq!(
        validate_weather_record("run", 900, false, false, 0, 100, &vec![dark]),
        Err(YieldForecastRepositoryError::Validation("weather point lacks a usable irradiance input"))
    );
}

#[test]
fn accepted_invitations_activate_or_stay_invited() {
    assert_eq!(pvlog_storage_core::management_checks::accepted_user_state(true, 42), ("active", Some(42)));
    assert_eq!(pvlog_storage_core::management_checks::accepted_user_state(false, 42), ("invited", None));
}
