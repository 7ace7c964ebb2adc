//! Background job policy, identity and dispatch decisions.
//!
//! Jobs are leased and run from outside; here are the policy checks, the deterministic job
//! identity derived from an idempotency key, the routing of a leased job to its handler, and the
//! outcome reported for it.
use crate::external::{blake3_digest, blake3_hash};
use crate::text::{blank, is_blank};
use vstd::prelude::*;
use vstd::string::StringSliceAdditionalSpecFns;

verus! {

/// Job kind of a weather provider poll.
pub const WEATHER_POLL_JOB: &'static str = "weather_provider_poll";

/// Job kind of a yield forecast calculation.
pub const YIELD_CALCULATION_JOB: &'static str = "yield_forecast_calculation";

/// Lease, retry, attempt and concurrency limits of the job coordinator.
#[derive(Clone, Copy, Debug, PartialEq, Eq, Structural)]
pub struct YieldJobPolicy {
    pub lease_milliseconds: i64,
    pub base_retry_milliseconds: i64,
    pub maximum_retry_milliseconds: i64,
    pub maximum_attempts: i32,
    pub concurrency: usize,
}

impl Default for YieldJobPolicy {
    /// Leases of 30 s, retries from 1 s up to 5 min, 5 attempts, 2 jobs at once.
    fn default() -> (r: Self)
        ensures
            r == (YieldJobPolicy {
                lease_milliseconds: 30_000,
                base_retry_milliseconds: 1_000,
                maximum_retry_milliseconds: 300_000,
                maximum_attempts: 5,
                concurrency: 2,
            }),
    {
        YieldJobPolicy {
            lease_milliseconds: 30_000,
            base_retry_milliseconds: 1_000,
            maximum_retry_milliseconds: 300_000,
            maximum_attempts: 5,
            concurrency: 2,
        }
    }
}

/// A job handler's failure, reported by a code that is safe to store.
#[derive(Clone, Copy, Debug, PartialEq, Eq)]
pub struct YieldJobExecutionError {
    pub safe_code: &'static str,
}

/// What became of one leased job.
#[derive(Clone, Copy, Debug, PartialEq, Eq, Structural)]
pub enum YieldJobOutcome {
    Completed,
    RetryAt(i64),
    DeadLetter,
}

/// What the queue decided for a failed job.
#[derive(Clone, Copy, Debug, PartialEq, Eq, Structural)]
pub enum RetryDisposition {
    RetryAt(i64),
    DeadLetter,
}

/// Failure of the job coordinator. Failures of the queue's storage and of payload
/// serialization carry their message.
#[derive(Clone, Debug, PartialEq, Eq)]
pub enum YieldJobError {
    InvalidPolicy,
    InvalidPayload,
    CoordinatorClosed,
    Repository(String),
    Json(String),
}

/// A usable policy: positive lease and base retry, a maximum retry no shorter than the base,
/// at least one attempt and one concurrent job.
pub open spec fn policy_valid(p: YieldJobPolicy) -> bool {
    p.lease_milliseconds > 0 && p.base_retry_milliseconds > 0 && p.maximum_retry_milliseconds
        >= p.base_retry_milliseconds && p.maximum_attempts > 0 && p.concurrency > 0
}

/// Rejects a policy that the coordinator cannot run with.
pub fn validate_policy(policy: &YieldJobPolicy) -> (r: Result<(), YieldJobError>)
    ensures
        r is Ok <==> policy_valid(*policy),
        r matches Err(e) ==> e is InvalidPolicy,
{
    if policy.lease_milliseconds <= 0 || policy.base_retry_milliseconds <= 0
        || policy.maximum_retry_milliseconds < policy.base_retry_milliseconds || policy.maximum_attempts <= 0
        || policy.concurrency == 0 {
        Err(YieldJobError::InvalidPolicy)
    } else {
        Ok(())
    }
}

/// An idempotency key must hold more than whitespace.
pub fn check_idempotency_key(key: &str) -> (r: Result<(), YieldJobError>)
    ensures
        r is Ok <==> !blank(key@),
        r matches Err(e) ==> e is InvalidPayload,
{
    if is_blank(key) {
        Err(YieldJobError::InvalidPayload)
    } else {
        Ok(())
    }
}

/// When a lease taken at `now` expires.
pub fn lease_deadline(policy: &YieldJobPolicy, now: i64) -> (r: Result<i64, YieldJobError>)
    ensures
        match r {
            Ok(t) => t == now + policy.lease_milliseconds,
            Err(e) => e is InvalidPolicy && (now + policy.lease_milliseconds < i64::MIN || now
                + policy.lease_milliseconds > i64::MAX),
        },
{
    match now.checked_add(policy.lease_milliseconds) {
        Some(t) => Ok(t),
        None => Err(YieldJobError::InvalidPolicy),
    }
}

/// The handler a leased job goes to.
#[derive(Clone, Copy, Debug, PartialEq, Eq, Structural)]
pub enum JobRoute {
    WeatherPoll,
    YieldCalculation,
    Unsupported,
}

pub open spec fn job_route_of(kind: Seq<char>) -> JobRoute {
    if kind == WEATHER_POLL_JOB@ {
        JobRoute::WeatherPoll
    } else if kind == YIELD_CALCULATION_JOB@ {
        JobRoute::YieldCalculation
    } else {
        JobRoute::Unsupported
    }
}

/// Routes a leased job by its kind.
pub fn job_route(kind: &str) -> (r: JobRoute)
    ensures
        r == job_route_of(kind@),
{
    let k = kind.to_owned();
    if k == WEATHER_POLL_JOB.to_owned() {
        JobRoute::WeatherPoll
    } else if k == YIELD_CALCULATION_JOB.to_owned() {
        JobRoute::YieldCalculation
    } else {
        JobRoute::Unsupported
    }
}

/// The failure reported for a job of a kind that no handler serves.
pub fn unsupported_job_kind() -> (r: YieldJobExecutionError)
    ensures
        r.safe_code@ == "unsupported_job_kind"@,
{
    YieldJobExecutionError { safe_code: "unsupported_job_kind" }
}

/// The outcome reported for a job: completed when its handler succeeded, otherwise what the
/// queue decided about retrying it.
pub fn job_outcome(succeeded: bool, disposition: Option<RetryDisposition>) -> (r: YieldJobOutcome)
    requires
        !succeeded ==> disposition is Some,
    ensures
        r == if succeeded {
            YieldJobOutcome::Completed
        } else {
            match disposition->Some_0 {
                RetryDisposition::RetryAt(at) => YieldJobOutcome::RetryAt(at),
                RetryDisposition::DeadLetter => YieldJobOutcome::DeadLetter,
            }
        },
{
    if succeeded {
        YieldJobOutcome::Completed
    } else {
        match disposition {
            Some(RetryDisposition::RetryAt(at)) => YieldJobOutcome::RetryAt(at),
            Some(RetryDisposition::DeadLetter) => YieldJobOutcome::DeadLetter,
            None => YieldJobOutcome::DeadLetter,
        }
    }
}

/// The `n` low bytes of `x`, most significant first.
pub open spec fn be_bytes(x: nat, n: nat) -> Seq<u8>
    decreases n,
{
    if n == 0 {
        Seq::empty()
    } else {
        be_bytes(x / 256, (n - 1) as nat).push((x % 256) as u8)
    }
}

/// The number whose bytes, most significant first, are `b`.
pub open spec fn be_value(b: Seq<u8>) -> nat
    decreases b.len(),
{
    if b.len() == 0 {
        0
    } else {
        be_value(b.drop_last()) * 256 + b.last() as nat
    }
}

/// The largest number of `n` bytes.
pub open spec fn be_max(n: nat) -> nat
    decreases n,
{
    if n == 0 {
        0
    } else {
        be_max((n - 1) as nat) * 256 + 255
    }
}

/// The bytes hashed for a job identity: the account's 16 bytes, the kind, a zero separator and
/// the idempotency key.
pub open spec fn job_id_input(account_id: u128, kind: Seq<u8>, key: Seq<u8>) -> Seq<u8> {
    be_bytes(account_id as nat, 16) + kind + seq![0u8] + key
}

/// The first 16 digest bytes marked as a version 4, RFC 4122 variant UUID.
pub open spec fn uuid_from_digest(d: Seq<u8>) -> Seq<u8> {
    d.take(16).update(6, (d[6] & 0x0f) | 0x40).update(8, (d[8] & 0x3f) | 0x80)
}

/// The job identity of an idempotency key within an account and job kind.
pub open spec fn job_id_of(account_id: u128, kind: Seq<u8>, key: Seq<u8>) -> nat {
    be_value(uuid_from_digest(blake3_digest(job_id_input(account_id, kind, key))))
}

fn push_be_bytes(out: &mut Vec<u8>, x: u128, n: usize)
    ensures
        final(out)@ == old(out)@ + be_bytes(x as nat, n as nat),
    decreases n,
{
    if n > 0 {
        push_be_bytes(out, x / 256, n - 1);
        let ghost mid = out@;
        out.push((x % 256) as u8);
        proof {
            assert(out@ =~= mid.push((x % 256) as u8));
        }
    }
}

fn push_all(out: &mut Vec<u8>, bytes: &[u8])
    ensures
        final(out)@ == old(out)@ + bytes@,
{
    let ghost start = out@;
    let mut k: usize = 0;
    while k < bytes.len()
        invariant
            k <= bytes@.len(),
            out@ == start + bytes@.take(k as int),
        decreases bytes.len() - k,
    {
        out.push(bytes[k]);
        proof {
            assert(bytes@.take(k as int + 1) =~= bytes@.take(k as int).push(bytes@[k as int]));
        }
        k += 1;
    }
    proof {
        assert(bytes@.take(k as int) =~= bytes@);
    }
}

pub(crate) proof fn lemma_be_value_bound(b: Seq<u8>)
    ensures
        be_value(b) <= be_max(b.len()),
    decreases b.len(),
{
    if b.len() > 0 {
        let t = b.drop_last();
        lemma_be_value_bound(t);
        let v = be_value(t);
        let m = be_max(t.len());
        let last = b.last();
        assert(v * 256 + last <= m * 256 + 255) by (nonlinear_arith)
            requires
                v <= m,
                last <= 255,
        ;
    }
}

/// Derives the identity of a job from its account, kind and idempotency key, so that
/// enqueueing the same key twice names the same job.
pub fn deterministic_job_id(account_id: u128, kind: &str, idempotency_key: &str) -> (r: u128)
    ensures
        r == job_id_of(account_id, kind.spec_bytes(), idempotency_key.spec_bytes()),
{
    let mut input: Vec<u8> = Vec::new();
    push_be_bytes(&mut input, account_id, 16);
    push_all(&mut input, kind.as_bytes());
    input.push(0u8);
    push_all(&mut input, idempotency_key.as_bytes());
    proof {
        assert(input@ =~= job_id_input(account_id, kind.spec_bytes(), idempotency_key.spec_bytes()));
    }
    let digest = blake3_hash(input.as_slice());
    let ghost d = digest@;
    let mut id: Vec<u8> = Vec::new();
    let mut k: usize = 0;
    while k < 16
        invariant
            k <= 16,
            d == digest@,
            d.len() == 32,
            id@ == d.take(k as int),
        decreases 16 - k,
    {
        id.push(digest[k]);
        proof {
            assert(d.take(k as int + 1) =~= d.take(k as int).push(d[k as int]));
        }
        k += 1;
    }
    let b6 = (id[6] & 0x0f) | 0x40;
    id.set(6, b6);
    let b8 = (id[8] & 0x3f) | 0x80;
    id.set(8, b8);
    proof {
        assert(id@ =~= uuid_from_digest(d));
        assert(be_max(16) == 0xffff_ffff_ffff_ffff_ffff_ffff_ffff_ffff) by {
            reveal_with_fuel(be_max, 17);
        }
    }
    let ghost bytes = id@;
    let mut value: u128 = 0;
    let mut i: usize = 0;
    while i < 16
        invariant
            i <= 16,
            id@ == bytes,
            bytes.len() == 16,
            value == be_value(bytes.take(i as int)),
            be_max(16) == 0xffff_ffff_ffff_ffff_ffff_ffff_ffff_ffff,
        decreases 16 - i,
    {
        proof {
            let t = bytes.take(i as int + 1);
            assert(t.drop_last() =~= bytes.take(i as int));
            assert(t.last() == bytes[i as int]);
            lemma_be_value_bound(t);
            lemma_be_max_monotone(t.len(), 16);
        }
        value = value * 256 + id[i] as u128;
        i += 1;
    }
    proof {
        assert(bytes.take(16) =~= bytes);
    }
    value
}

pub(crate) proof fn lemma_be_max_monotone(a: nat, b: nat)
    requires
        a <= b,
    ensures
        be_max(a) <= be_max(b),
    decreases b,
{
    if a < b {
        lemma_be_max_monotone(a, (b - 1) as nat);
    }
}

/// The first step of enqueueing a job, before the queue is asked anything: a blank idempotency
/// key is refused and the queue is left untouched; otherwise the job's identity follows from the
/// account, kind and key alone, so that enqueueing the same key again finds the same job.
pub fn enqueue_job_id(account_id: u128, kind: &str, idempotency_key: &str) -> (r: Result<u128, YieldJobError>)
    ensures
        match r {
            Ok(id) => !blank(idempotency_key@) && id == job_id_of(
                account_id,
                kind.spec_bytes(),
                idempotency_key.spec_bytes(),
            ),
            Err(e) => blank(idempotency_key@) && e is InvalidPayload,
        },
{
    match check_idempotency_key(idempotency_key) {
        Ok(()) => Ok(deterministic_job_id(account_id, kind, idempotency_key)),
        Err(e) => Err(e),
    }
}

} // verus!
