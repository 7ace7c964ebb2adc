use pvlog_storage_core::sqlite_router::{
    admit_pool, check_managed_locator, check_pool_capacity, check_pool_limits, check_route_lifecycle, evict_eligible,
    evict_oldest_unreferenced, integrity_outcome, PoolSlot, SqliteAccountPoolConfig, SqliteCheckpointMode,
    SqliteRoutingError,
};
use pvlog_storage_core::worker::{
    check_idempotency_key, deterministic_job_id, job_outcome, job_route, lease_deadline, unsupported_job_kind,
    validate_policy, JobRoute, RetryDisposition, YieldJobError, YieldJobOutcome, YieldJobPolicy,
    WEATHER_POLL_JOB, YIELD_CALCULATION_JOB,
};
use std::time::Duration;

#[test]
fn default_pool_config() {
    let config = SqliteAccountPoolConfig::default();
    assert_eq!(config.max_open_account_pools, 128);
    assert_eq!(config.max_connections_per_account, 4);
    assert_eq!(config.busy_timeout, Duration::from_secs(5));
    assert_eq!(config.acquire_timeout, Duration::from_secs(10));
    assert_eq!(config.idle_pool_timeout, Duration::from_secs(300));
    assert_eq!(check_pool_limits(&config), Ok(()));
    let zero = SqliteAccountPoolConfig { max_open_account_pools: 0, ..SqliteAccountPoolConfig::default() };
    assert_eq!(check_pool_limits(&zero), Err(SqliteRoutingError::InvalidPoolLimits));
}

#[test]
fn routing_checks() {
    assert_eq!(check_route_lifecycle("a", "active"), Ok(()));
    assert_eq!(
        check_route_lifecycle("a", "suspended"),
        Err(SqliteRoutingError::RouteInactive { account_id: "a".to_owned(), lifecycle: "suspended".to_owned() })
    );
    assert_eq!(check_managed_locator("a.sqlite3"), Ok(()));
    assert_eq!(check_managed_locator("a.db"), Err(SqliteRoutingError::UnsafeLocator("a.db".to_owned())));
    assert_eq!(
        check_managed_locator("../a.sqlite3"),
        Err(SqliteRoutingError::UnsafeLocator("../a.sqlite3".to_owned()))
    );
    assert_eq!(check_pool_capacity(3, 4), Ok(()));
    assert_eq!(check_pool_capacity(4, 4), Err(SqliteRoutingError::PoolCapacity { limit: 4 }));
    assert_eq!(integrity_outcome(vec!["ok".to_owned()]), Ok(()));
    assert_eq!(
        integrity_outcome(vec!["row 3 missing".to_owned()]),
        Err(SqliteRoutingError::IntegrityCheckFailed(vec!["row 3 missing".to_owned()]))
    );
    assert_eq!(SqliteCheckpointMode::Truncate.statement(), "PRAGMA wal_checkpoint(TRUNCATE)");
}

#[test]
fn idle_unreferenced_pools_are_evicted() {
    let slot = |id: u128, referenced: bool, idle: u128| PoolSlot { account_id: id, referenced, idle_nanos: idle };
    let mut slots = vec![slot(1, false, 10), slot(2, true, 99), slot(3, false, 99), slot(4, false, 50)];
    assert_eq!(evict_eligible(&mut slots, 50), 2);
    assert_eq!(slots, vec![slot(1, false, 10), slot(2, true, 99)]);
    let mut slots = vec![slot(1, false, 10), slot(2, true, 99), slot(3, false, 40), slot(4, false, 40)];
    assert!(evict_oldest_unreferenced(&mut slots));
    assert_eq!(slots.iter().map(|s| s.account_id).collect::<Vec<_>>(), vec![1, 2, 4]);
    let mut referenced = vec![slot(1, true, 10)];
    assert!(!evict_oldest_unreferenced(&mut referenced));
    assert_eq!(referenced.len(), 1);
}

#[test]
fn job_policy_validation() {
    let policy = YieldJobPolicy::default();
    assert_eq!(policy.lease_milliseconds, 30_000);
    assert_eq!(policy.maximum_attempts, 5);
    assert_eq!(validate_policy(&policy), Ok(()));
    let bad = YieldJobPolicy { maximum_retry_milliseconds: 10, ..policy };
    assert_eq!(validate_policy(&bad), Err(YieldJobError::InvalidPolicy));
    let zero = YieldJobPolicy { concurrency: 0, ..policy };
    assert_eq!(validate_policy(&zero), Err(YieldJobError::InvalidPolicy));
    assert_eq!(lease_deadline(&policy, 1_000), Ok(31_000));
    assert_eq!(lease_deadline(&policy, i64::MAX), Err(YieldJobError::InvalidPolicy));
    assert_eq!(check_idempotency_key("  "), Err(YieldJobError::InvalidPayload));
    assert_eq!(check_idempotency_key("k-1"), Ok(()));
}

#[test]
fn jobs_route_by_kind() {
    assert_eq!(job_route(WEATHER_POLL_JOB), JobRoute::WeatherPoll);
    assert_eq!(job_route(YIELD_CALCULATION_JOB), JobRoute::YieldCalculation);
    assert_eq!(job_route("other"), JobRoute::Unsupported);
    assert_eq!(unsupported_job_kind().safe_code, "unsupported_job_kind");
    assert_eq!(job_outcome(true, None), YieldJobOutcome::Completed);
    assert_eq!(job_outcome(false, Some(RetryDisposition::RetryAt(9))), YieldJobOutcome::RetryAt(9));
    assert_eq!(job_outcome(false, Some(RetryDisposition::DeadLetter)), YieldJobOutcome::DeadLetter);
}

#[test]
fn job_ids_are_derived_from_the_idempotency_key() {
    let account: u128 = 0x0190_b5b0_7a3c_7c11_8000_0000_0000_0001;
    let id = deterministic_job_id(account, WEATHER_POLL_JOB, "key-1");
    let mut input = account.to_be_bytes().to_vec();
    input.extend_from_slice(WEATHER_POLL_JOB.as_bytes());
    input.push(0);
    input.extend_from_slice(b"key-1");
    let digest = blake3::hash(&input);
    let mut bytes = [0u8; 16];
    bytes.copy_from_slice(&digest.as_bytes()[..16]);
    bytes[6] = (bytes[6] & 0x0f) | 0x40;
    bytes[8] = (bytes[8] & 0x3f) | 0x80;
    assert_eq!(id, u128::from_be_bytes(bytes));
    assert_eq!(uuid::Uuid::from_u128(id).get_version_num(), 4);
    assert_eq!(deterministic_job_id(account, WEATHER_POLL_JOB, "key-1"), id);
    assert_ne!(deterministic_job_id(account, YIELD_CALCULATION_JOB, "key-1"), id);
    assert_ne!(deterministic_job_id(account, WEATHER_POLL_JOB, "key-2"), id);
}

#[test]
fn admitting_a_pool_evicts_idle_pools_first() {
    let slot = |id: u128, referenced: bool, idle: u128| PoolSlot { account_id: id, referenced, idle_nanos: idle };
    let mut slots = vec![slot(1, false, 100), slot(2, true, 5), slot(3, false, 5)];
    assert_eq!(admit_pool(&mut slots, 3, 50), Ok(()));
    assert_eq!(slots, vec![slot(2, true, 5), slot(3, false, 5)]);
    let mut full = vec![slot(1, false, 10), slot(2, true, 5), slot(3, false, 20)];
    assert_eq!(admit_pool(&mut full, 3, 50), Ok(()));
    assert_eq!(full, vec![slot(1, false, 10), slot(2, true, 5)]);
    let mut busy = vec![slot(1, true, 10), slot(2, true, 5)];
    assert_eq!(admit_pool(&mut busy, 2, 50), Err(SqliteRoutingError::PoolCapacity { limit: 2 }));
    assert_eq!(busy.len(), 2);
}

#[test]
fn plain_locators_need_a_named_sqlite3_file() {
    assert_eq!(check_managed_locator("b.sqlite3"), Ok(()));
    assert_eq!(check_managed_locator("x.y.sqlite3"), Ok(()));
    assert_eq!(
        check_managed_locator(".sqlite3"),
        Err(SqliteRoutingError::UnsafeLocator(".sqlite3".to_owned()))
    );
    assert_eq!(
        check_managed_locator("sqlite3"),
        Err(SqliteRoutingError::UnsafeLocator("sqlite3".to_owned()))
    );
}

#[test]
fn enqueue_refuses_blank_keys_and_names_jobs_by_key() {
    assert_eq!(
        pvlog_storage_core::worker::enqueue_job_id(7, "weather_provider_poll", "  "),
        Err(pvlog_storage_core::worker::YieldJobError::InvalidPayload)
    );
    let id = pvlog_storage_core::worker::enqueue_job_id(7, "weather_provider_poll", "k1").unwrap();
    assert_eq!(id, pvlog_storage_core::worker::deterministic_job_id(7, "weather_provider_poll", "k1"));
    assert_ne!(id, pvlog_storage_core::worker::enqueue_job_id(7, "weather_provider_poll", "k2").unwrap());
}
