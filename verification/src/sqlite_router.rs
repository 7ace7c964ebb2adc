//! Bounded routing to isolated account-owned `SQLite` databases.
//!
//! The pools themselves live with the database driver; the limits, the routing checks and the
//! choice of which idle pool to evict are decided here.
use crate::external::{
    duration_of_secs, name_extension, path_components, path_ext, path_extension, plain_file_name, PathComponentKind,
};
use crate::provisioning::single_normal_component;
use crate::text::text_eq;
use std::time::Duration;
use vstd::prelude::*;

verus! {

/// Resource limits and connection behavior for account database routing.
#[derive(Clone, Debug)]
pub struct SqliteAccountPoolConfig {
    /// Maximum number of account pools retained by one process.
    pub max_open_account_pools: usize,
    /// Maximum physical connections in each account pool.
    pub max_connections_per_account: u32,
    /// Time a connection waits for a locked database.
    pub busy_timeout: Duration,
    /// Time a caller waits for a pooled connection.
    pub acquire_timeout: Duration,
    /// Minimum unused time before an unreferenced account pool can be evicted.
    pub idle_pool_timeout: Duration,
}

impl Default for SqliteAccountPoolConfig {
    /// 128 pools of at most 4 connections; waits of 5 s for a locked database and 10 s for a
    /// connection; pools idle for 5 minutes may be evicted.
    fn default() -> (r: Self)
        ensures
            r.max_open_account_pools == 128,
            r.max_connections_per_account == 4,
            r.busy_timeout == duration_of_secs(5),
            r.acquire_timeout == duration_of_secs(10),
            r.idle_pool_timeout == duration_of_secs(300),
    {
        SqliteAccountPoolConfig {
            max_open_account_pools: 128,
            max_connections_per_account: 4,
            busy_timeout: Duration::from_secs(5),
            acquire_timeout: Duration::from_secs(10),
            idle_pool_timeout: Duration::from_secs(300),
        }
    }
}

/// Failure while resolving, pooling, or maintaining an account database. Failures of the
/// database and the file system carry their message.
#[derive(Clone, Debug, PartialEq, Eq)]
pub enum SqliteRoutingError {
    InvalidPoolLimits,
    Sqlx(String),
    Io(String),
    RouteNotFound(String),
    RouteInactive { account_id: String, lifecycle: String },
    UnsafeLocator(String),
    PoolCapacity { limit: usize },
    IntegrityCheckFailed(Vec<String>),
}

/// Pool limits must be non-zero.
pub fn check_pool_limits(config: &SqliteAccountPoolConfig) -> (r: Result<(), SqliteRoutingError>)
    ensures
        r is Ok <==> (config.max_open_account_pools > 0 && config.max_connections_per_account > 0),
        r matches Err(e) ==> e is InvalidPoolLimits,
{
    if config.max_open_account_pools == 0 || config.max_connections_per_account == 0 {
        Err(SqliteRoutingError::InvalidPoolLimits)
    } else {
        Ok(())
    }
}

/// Only an active account may be routed.
pub fn check_route_lifecycle(account_id: &str, lifecycle: &str) -> (r: Result<(), SqliteRoutingError>)
    ensures
        r is Ok <==> lifecycle@ == "active"@,
        r matches Err(e) ==> (e matches SqliteRoutingError::RouteInactive { account_id: a, lifecycle: l }
            && a@ == account_id@ && l@ == lifecycle@),
{
    if text_eq(lifecycle, "active") {
        Ok(())
    } else {
        Err(SqliteRoutingError::RouteInactive { account_id: account_id.to_owned(), lifecycle: lifecycle.to_owned() })
    }
}

/// A routed locator must be one plain path component with the `sqlite3` extension.
pub fn managed_locator_decision(locator: &str, single_component: bool, extension: Option<&str>) -> (r: Result<
    (),
    SqliteRoutingError,
>)
    ensures
        r is Ok <==> (single_component && (extension matches Some(e) && e@ == "sqlite3"@)),
        r matches Err(e) ==> (e matches SqliteRoutingError::UnsafeLocator(l) && l@ == locator@),
{
    let ext_ok = match extension {
        Some(e) => text_eq(e, "sqlite3"),
        None => false,
    };
    if single_component && ext_ok {
        Ok(())
    } else {
        Err(SqliteRoutingError::UnsafeLocator(locator.to_owned()))
    }
}

/// Checks the shape of a routed locator before any file is touched.
pub fn check_managed_locator(locator: &str) -> (r: Result<(), SqliteRoutingError>)
    ensures
        r matches Err(e) ==> (e matches SqliteRoutingError::UnsafeLocator(l) && l@ == locator@),
        r is Ok <==> (path_components(locator@) == seq![PathComponentKind::Normal] && path_ext(locator@) == Some(
            "sqlite3"@,
        )),
        r is Ok ==> locator@.len() > 0 && locator@ != "."@ && locator@ != ".."@,
        plain_file_name(locator@) ==> (r is Ok <==> name_extension(locator@) == Some("sqlite3"@)),
{
    let single = single_normal_component(locator);
    let extension = path_extension(locator);
    match extension {
        Some(e) => managed_locator_decision(locator, single, Some(e.as_str())),
        None => managed_locator_decision(locator, single, None),
    }
}

/// A new pool may be opened only below the process limit.
pub fn check_pool_capacity(open_pools: usize, limit: usize) -> (r: Result<(), SqliteRoutingError>)
    ensures
        r is Ok <==> open_pools < limit,
        r matches Err(e) ==> e == (SqliteRoutingError::PoolCapacity { limit }),
{
    if open_pools >= limit {
        Err(SqliteRoutingError::PoolCapacity { limit })
    } else {
        Ok(())
    }
}

/// The integrity probe passes only when its single finding is `ok`.
pub fn integrity_outcome(findings: Vec<String>) -> (r: Result<(), SqliteRoutingError>)
    ensures
        r is Ok <==> (findings@.len() == 1 && findings@[0]@ == "ok"@),
        r matches Err(e) ==> e == SqliteRoutingError::IntegrityCheckFailed(findings),
{
    let ok = findings.len() == 1 && text_eq(findings[0].as_str(), "ok");
    if ok {
        Ok(())
    } else {
        Err(SqliteRoutingError::IntegrityCheckFailed(findings))
    }
}

/// WAL checkpoint aggressiveness.
#[derive(Clone, Copy, Debug, PartialEq, Eq, Structural)]
pub enum SqliteCheckpointMode {
    /// Checkpoint without waiting for readers.
    Passive,
    /// Checkpoint and truncate the WAL after readers release it.
    Truncate,
}

impl SqliteCheckpointMode {
    /// The pragma that runs the checkpoint.
    pub fn statement(self) -> (r: &'static str)
        ensures
            r@ == match self {
                SqliteCheckpointMode::Passive => "PRAGMA wal_checkpoint(PASSIVE)"@,
                SqliteCheckpointMode::Truncate => "PRAGMA wal_checkpoint(TRUNCATE)"@,
            },
    {
        match self {
            SqliteCheckpointMode::Passive => "PRAGMA wal_checkpoint(PASSIVE)",
            SqliteCheckpointMode::Truncate => "PRAGMA wal_checkpoint(TRUNCATE)",
        }
    }
}

/// Raw counters returned by `PRAGMA wal_checkpoint`.
#[derive(Clone, Copy, Debug, PartialEq, Eq, Structural)]
pub struct SqliteCheckpointReport {
    /// Non-zero when the requested checkpoint could not fully complete.
    pub busy: i64,
    /// Frames present in the WAL.
    pub log_frames: i64,
    /// Frames copied into the main database.
    pub checkpointed_frames: i64,
}

/// One cached account pool as the eviction policy sees it.
#[derive(Clone, Copy, Debug, PartialEq, Eq, Structural)]
pub struct PoolSlot {
    pub account_id: u128,
    /// Some routed handle still uses the pool.
    pub referenced: bool,
    /// Time since the pool was last routed, in nanoseconds.
    pub idle_nanos: u128,
}

/// A pool is kept while referenced or while it has been idle for less than the timeout.
pub open spec fn retained(s: PoolSlot, timeout_nanos: u128) -> bool {
    s.referenced || s.idle_nanos < timeout_nanos
}

pub open spec fn retained_slots(s: Seq<PoolSlot>, timeout_nanos: u128) -> Seq<PoolSlot>
    decreases s.len(),
{
    if s.len() == 0 {
        Seq::empty()
    } else if retained(s.last(), timeout_nanos) {
        retained_slots(s.drop_last(), timeout_nanos).push(s.last())
    } else {
        retained_slots(s.drop_last(), timeout_nanos)
    }
}

/// Removes the unreferenced pools that have been idle for at least the timeout, keeping the
/// others in order; returns how many were removed.
pub fn evict_eligible(slots: &mut Vec<PoolSlot>, timeout_nanos: u128) -> (removed: usize)
    ensures
        final(slots)@ == retained_slots(old(slots)@, timeout_nanos),
        removed == old(slots)@.len() - final(slots)@.len(),
{
    let ghost start = slots@;
    let mut kept: Vec<PoolSlot> = Vec::new();
    let mut k: usize = 0;
    proof {
        lemma_retained_len(start.take(0), timeout_nanos);
    }
    while k < slots.len()
        invariant
            k <= slots@.len(),
            slots@ == start,
            kept@ == retained_slots(start.take(k as int), timeout_nanos),
            kept@.len() <= k,
        decreases slots.len() - k,
    {
        let s = slots[k];
        proof {
            assert(start.take(k as int + 1).drop_last() =~= start.take(k as int));
            assert(start.take(k as int + 1).last() == s);
        }
        if s.referenced || s.idle_nanos < timeout_nanos {
            kept.push(s);
        }
        k += 1;
    }
    proof {
        assert(start.take(k as int) =~= start);
    }
    let removed = slots.len() - kept.len();
    *slots = kept;
    removed
}

proof fn lemma_retained_len(s: Seq<PoolSlot>, timeout_nanos: u128)
    ensures
        retained_slots(s, timeout_nanos).len() <= s.len(),
    decreases s.len(),
{
    if s.len() > 0 {
        lemma_retained_len(s.drop_last(), timeout_nanos);
    }
}

/// Removes the unreferenced pool that has been idle longest, if any; of several equally idle,
/// the first. Returns whether a pool was removed.
pub fn evict_oldest_unreferenced(slots: &mut Vec<PoolSlot>) -> (evicted: bool)
    ensures
        evicted == exists|i: int| 0 <= i < old(slots)@.len() && !(#[trigger] old(slots)@[i]).referenced,
        evicted ==> exists|i: int|
            0 <= i < old(slots)@.len() && !(#[trigger] old(slots)@[i]).referenced && final(slots)@ == old(
                slots,
            )@.remove(i) && forall|j: int|
                0 <= j < old(slots)@.len() && !old(slots)@[j].referenced ==> old(slots)@[j].idle_nanos
                    <= old(slots)@[i].idle_nanos,
        !evicted ==> final(slots)@ == old(slots)@,
{
    let mut best: Option<usize> = None;
    let mut k: usize = 0;
    while k < slots.len()
        invariant
            k <= slots@.len(),
            match best {
                Some(b) => b < k && !slots@[b as int].referenced && forall|j: int|
                    0 <= j < k && !slots@[j].referenced ==> slots@[j].idle_nanos <= slots@[b as int].idle_nanos,
                None => forall|j: int| 0 <= j < k ==> (#[trigger] slots@[j]).referenced,
            },
        decreases slots.len() - k,
    {
        let s = slots[k];
        if !s.referenced {
            match best {
                Some(b) => {
                    if s.idle_nanos > slots[b].idle_nanos {
                        best = Some(k);
                    }
                },
                None => {
                    best = Some(k);
                },
            }
        }
        k += 1;
    }
    match best {
        Some(b) => {
            let ghost before = slots@;
            slots.remove(b);
            proof {
                assert(slots@ == before.remove(b as int));
                assert(!before[b as int].referenced);
            }
            true
        },
        None => false,
    }
}

/// Makes room for a new account pool: removes the pools that may be evicted, then, if the
/// process is still at its limit, the unreferenced pool idle longest; fails when every slot is
/// still taken.
pub fn admit_pool(slots: &mut Vec<PoolSlot>, limit: usize, timeout_nanos: u128) -> (r: Result<(), SqliteRoutingError>)
    ensures
        r is Ok <==> final(slots)@.len() < limit,
        r matches Err(e) ==> e == (SqliteRoutingError::PoolCapacity { limit }),
        retained_slots(old(slots)@, timeout_nanos).len() < limit ==> final(slots)@ == retained_slots(
            old(slots)@,
            timeout_nanos,
        ),
        final(slots)@.len() <= retained_slots(old(slots)@, timeout_nanos).len(),
        forall|i: int| 0 <= i < old(slots)@.len() && (#[trigger] old(slots)@[i]).referenced ==> final(slots)@.contains(old(slots)@[i]),
        old(slots)@.len() <= limit ==> final(slots)@.len() <= limit,
        r is Err && old(slots)@.len() <= limit ==> final(slots)@.len() == limit && forall|i: int|
            0 <= i < final(slots)@.len() ==> (#[trigger] final(slots)@[i]).referenced,
{
    let ghost start = slots@;
    evict_eligible(slots, timeout_nanos);
    proof {
        lemma_retained_keeps_referenced(start, timeout_nanos);
        lemma_retained_len(start, timeout_nanos);
    }
    if slots.len() >= limit {
        let ghost before = slots@;
        let evicted = evict_oldest_unreferenced(slots);
        proof {
            if evicted {
                let i = choose|i: int| 0 <= i < before.len() && !(#[trigger] before[i]).referenced && slots@ == before.remove(i)
                    && forall|j: int| 0 <= j < before.len() && !before[j].referenced ==> before[j].idle_nanos <= before[i].idle_nanos;
                assert forall|k: int| 0 <= k < start.len() && (#[trigger] start[k]).referenced implies slots@.contains(start[k]) by {
                    assert(before.contains(start[k]));
                    let m = choose|m: int| 0 <= m < before.len() && before[m] == start[k];
                    assert(m != i);
                    if m < i {
                        assert(slots@[m] == before[m]);
                    } else {
                        assert(slots@[m - 1] == before[m]);
                    }
                }
            }
        }
    }
    check_pool_capacity(slots.len(), limit)
}

proof fn lemma_retained_keeps_referenced(s: Seq<PoolSlot>, timeout_nanos: u128)
    ensures
        forall|i: int| 0 <= i < s.len() && (#[trigger] s[i]).referenced ==> retained_slots(s, timeout_nanos).contains(s[i]),
    decreases s.len(),
{
    if s.len() > 0 {
        let t = s.drop_last();
        lemma_retained_keeps_referenced(t, timeout_nanos);
        assert forall|i: int| 0 <= i < s.len() && (#[trigger] s[i]).referenced implies retained_slots(s, timeout_nanos).contains(s[i]) by {
            if i < s.len() - 1 {
                assert(t[i] == s[i]);
                let r = retained_slots(t, timeout_nanos);
                assert(r.contains(s[i]));
                let m = choose|m: int| 0 <= m < r.len() && r[m] == s[i];
                if retained(s.last(), timeout_nanos) {
                    assert(r.push(s.last())[m] == s[i]);
                }
            } else {
                assert(retained_slots(s, timeout_nanos) == retained_slots(t, timeout_nanos).push(s.last()));
                assert(retained_slots(s, timeout_nanos)[retained_slots(t, timeout_nanos).len() as int] == s[i]);
            }
        }
    }
}

} // verus!
