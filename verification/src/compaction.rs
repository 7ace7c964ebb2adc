//! Leased, resumable system-day compaction with cleanup after verification.
//!
//! The driver persists a phase after each step, so a crashed run resumes where it stopped. The
//! decisions live here: request validation, lease outcome, which work a phase calls for, which
//! phase that work reaches, and how the run's result combines with the lease release.
use crate::columns::SegmentCodecError;
use crate::text::{blank, is_blank};
use vstd::prelude::*;

verus! {

/// The system and half-open time range of one compaction.
#[derive(Clone, Copy, Debug, PartialEq, Eq, Hash)]
pub struct CompactionKey {
    pub system_id: u128,
    pub range_start: i64,
    pub range_end: i64,
}

/// Durable progress of one compaction, in the order the steps happen.
#[derive(Clone, Copy, Debug, PartialEq, Eq, Structural, PartialOrd, Ord, Hash)]
pub enum CompactionPhase {
    Pending,
    SegmentWritten,
    RollupsWritten,
    Verified,
    HotRowsDeleted,
    Completed,
}

/// Why a compaction could not finish.
#[derive(Debug)]
pub enum CompactionError {
    InvalidRequest,
    LeaseUnavailable,
    Verification,
    Codec(SegmentCodecError),
    Persistence(&'static str),
}

/// The work a phase calls for before the run may advance.
#[derive(Clone, Copy, Debug, PartialEq, Eq, Structural)]
pub enum CompactionWork {
    /// Read the stable points, encode them into a segment and write it.
    WriteSegment,
    /// Write the rollups of the range.
    WriteRollups,
    /// Check the segment and rollups against the hot rows.
    VerifySegmentAndRollups,
    /// Delete the hot rows that the segment now holds.
    DeleteRedundantHotRows,
    /// Record completion.
    Complete,
}

/// Position of a phase in the run.
pub open spec fn phase_rank(p: CompactionPhase) -> int {
    match p {
        CompactionPhase::Pending => 0,
        CompactionPhase::SegmentWritten => 1,
        CompactionPhase::RollupsWritten => 2,
        CompactionPhase::Verified => 3,
        CompactionPhase::HotRowsDeleted => 4,
        CompactionPhase::Completed => 5,
    }
}

pub open spec fn work_for(p: CompactionPhase) -> Option<CompactionWork> {
    match p {
        CompactionPhase::Pending => Some(CompactionWork::WriteSegment),
        CompactionPhase::SegmentWritten => Some(CompactionWork::WriteRollups),
        CompactionPhase::RollupsWritten => Some(CompactionWork::VerifySegmentAndRollups),
        CompactionPhase::Verified => Some(CompactionWork::DeleteRedundantHotRows),
        CompactionPhase::HotRowsDeleted => Some(CompactionWork::Complete),
        CompactionPhase::Completed => None,
    }
}

pub open spec fn phase_reached(w: CompactionWork) -> CompactionPhase {
    match w {
        CompactionWork::WriteSegment => CompactionPhase::SegmentWritten,
        CompactionWork::WriteRollups => CompactionPhase::RollupsWritten,
        CompactionWork::VerifySegmentAndRollups => CompactionPhase::Verified,
        CompactionWork::DeleteRedundantHotRows => CompactionPhase::HotRowsDeleted,
        CompactionWork::Complete => CompactionPhase::Completed,
    }
}

/// The work a run performs when it resumes from `p`, in order.
pub open spec fn remaining_work(p: CompactionPhase) -> Seq<CompactionWork>
    decreases 5 - phase_rank(p),
{
    match work_for(p) {
        Some(w) => {
            if phase_rank(phase_reached(w)) > phase_rank(p) {
                seq![w] + remaining_work(phase_reached(w))
            } else {
                Seq::empty()
            }
        },
        None => Seq::empty(),
    }
}

/// The request is rejected when its range is empty or its owner is blank.
pub open spec fn compaction_request_invalid(key: CompactionKey, owner: Seq<char>) -> bool {
    key.range_end <= key.range_start || blank(owner)
}

/// Checks a compaction request and computes when its lease expires.
pub fn compaction_lease_expiry(key: &CompactionKey, owner: &str, now: i64, lease_millis: i64) -> (r: Result<
    i64,
    CompactionError,
>)
    ensures
        match r {
            Ok(t) => !compaction_request_invalid(*key, owner@) && t == now + lease_millis,
            Err(e) => e is InvalidRequest && (compaction_request_invalid(*key, owner@) || now
                + lease_millis < i64::MIN || now + lease_millis > i64::MAX),
        },
{
    if key.range_end <= key.range_start || is_blank(owner) {
        return Err(CompactionError::InvalidRequest);
    }
    match now.checked_add(lease_millis) {
        Some(t) => Ok(t),
        None => Err(CompactionError::InvalidRequest),
    }
}

/// The phase a run starts from, given what the lease request returned.
pub fn compaction_lease_outcome(acquired: Option<CompactionPhase>) -> (r: Result<CompactionPhase, CompactionError>)
    ensures
        match acquired {
            Some(p) => r matches Ok(q) && q == p,
            None => r matches Err(e) && e is LeaseUnavailable,
        },
{
    match acquired {
        Some(p) => Ok(p),
        None => Err(CompactionError::LeaseUnavailable),
    }
}

/// The work that phase `p` calls for; `None` once the run is complete.
pub fn next_compaction_work(p: CompactionPhase) -> (r: Option<CompactionWork>)
    ensures
        r == work_for(p),
{
    match p {
        CompactionPhase::Pending => Some(CompactionWork::WriteSegment),
        CompactionPhase::SegmentWritten => Some(CompactionWork::WriteRollups),
        CompactionPhase::RollupsWritten => Some(CompactionWork::VerifySegmentAndRollups),
        CompactionPhase::Verified => Some(CompactionWork::DeleteRedundantHotRows),
        CompactionPhase::HotRowsDeleted => Some(CompactionWork::Complete),
        CompactionPhase::Completed => None,
    }
}

/// The phase recorded once `w` has succeeded. Verification reaches its phase only when the
/// segment and rollups were found durable.
pub fn compaction_work_done(w: CompactionWork, verified: bool) -> (r: Result<CompactionPhase, CompactionError>)
    ensures
        match r {
            Ok(p) => p == phase_reached(w) && (w == CompactionWork::VerifySegmentAndRollups ==> verified),
            Err(e) => e is Verification && w == CompactionWork::VerifySegmentAndRollups && !verified,
        },
{
    match w {
        CompactionWork::WriteSegment => Ok(CompactionPhase::SegmentWritten),
        CompactionWork::WriteRollups => Ok(CompactionPhase::RollupsWritten),
        CompactionWork::VerifySegmentAndRollups => {
            if verified {
                Ok(CompactionPhase::Verified)
            } else {
                Err(CompactionError::Verification)
            }
        },
        CompactionWork::DeleteRedundantHotRows => Ok(CompactionPhase::HotRowsDeleted),
        CompactionWork::Complete => Ok(CompactionPhase::Completed),
    }
}

/// The result of a run once its lease has been released: the run's own error comes first, then
/// the release error, and otherwise the phase the run reached.
pub fn compaction_result(
    run: Result<CompactionPhase, CompactionError>,
    release: Result<(), CompactionError>,
) -> (r: Result<CompactionPhase, CompactionError>)
    ensures
        r == match run {
            Err(e) => Err(e),
            Ok(p) => match release {
                Ok(()) => Ok(p),
                Err(e) => Err(e),
            },
        },
{
    match run {
        Err(e) => Err(e),
        Ok(p) => match release {
            Ok(()) => Ok(p),
            Err(e) => Err(e),
        },
    }
}

/// Every step moves the run one phase forward, so a run never repeats work that a crashed run
/// recorded: resuming from any phase performs exactly the steps of the later phases, once each,
/// and ends at `Completed`.
pub proof fn compaction_resumes_forward(p: CompactionPhase)
    ensures
        work_for(p) matches Some(w) ==> phase_rank(phase_reached(w)) == phase_rank(p) + 1,
        work_for(p) is None <==> p == CompactionPhase::Completed,
        remaining_work(p).len() == 5 - phase_rank(p),
        forall|i: int|
            0 <= i < remaining_work(p).len() ==> phase_rank(phase_reached(#[trigger] remaining_work(p)[i]))
                == phase_rank(p) + i + 1,
        remaining_work(p).len() > 0 ==> phase_reached(remaining_work(p).last())
            == CompactionPhase::Completed,
    decreases 5 - phase_rank(p),
{
    match work_for(p) {
        Some(w) => {
            let q = phase_reached(w);
            compaction_resumes_forward(q);
            let rest = remaining_work(q);
            assert(remaining_work(p) == seq![w] + rest);
            assert forall|i: int| 0 <= i < remaining_work(p).len() implies phase_rank(
                phase_reached(#[trigger] remaining_work(p)[i]),
            ) == phase_rank(p) + i + 1 by {
                if i > 0 {
                    assert(remaining_work(p)[i] == rest[i - 1]);
                }
            }
            if rest.len() > 0 {
                assert(remaining_work(p).last() == rest.last());
            }
        },
        None => {},
    }
}

} // verus!
