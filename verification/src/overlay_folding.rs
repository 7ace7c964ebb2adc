//! Crash-safe overlay folding with generation-checked segment replacement.
//!
//! The driver persists a phase after each step and resumes from it. The decisions live here:
//! range validation, which work a phase calls for, and what a generation-checked replacement
//! means for the run.
use crate::columns::SegmentCodecError;
use vstd::prelude::*;

verus! {

/// The system and half-open time range whose overlays are folded.
#[derive(Clone, Copy, Debug, PartialEq, Eq, Hash)]
pub struct OverlayFoldKey {
    pub system_id: u128,
    pub range_start: i64,
    pub range_end: i64,
}

/// Durable progress of one fold, in the order the steps happen.
#[derive(Clone, Copy, Debug, PartialEq, Eq, Structural, PartialOrd, Ord)]
pub enum OverlayFoldPhase {
    Pending,
    SegmentReplaced,
    OverlaysDeleted,
    Completed,
}

/// A prepared fold attempt.
#[derive(Clone, Copy, Debug, PartialEq, Eq, Structural)]
pub struct OverlayFoldState {
    pub phase: OverlayFoldPhase,
    pub expected_generation: u64,
    /// Only overlays at or below this revision belong to this fold attempt.
    pub overlay_revision_watermark: u64,
}

/// Why a fold could not finish.
#[derive(Debug)]
pub enum OverlayFoldError {
    InvalidRange,
    GenerationConflict,
    Codec(SegmentCodecError),
    Persistence(&'static str),
}

/// The work a phase calls for before the fold may advance.
#[derive(Clone, Copy, Debug, PartialEq, Eq, Structural)]
pub enum OverlayFoldWork {
    /// Merge the points through the watermark and install them as the segment, if the segment
    /// is still at the expected generation.
    ReplaceSegment { expected_generation: u64, overlay_revision_watermark: u64 },
    /// Delete the overlays through the watermark.
    DeleteOverlays { overlay_revision_watermark: u64 },
    /// Record completion.
    Complete,
}

pub open spec fn fold_rank(p: OverlayFoldPhase) -> int {
    match p {
        OverlayFoldPhase::Pending => 0,
        OverlayFoldPhase::SegmentReplaced => 1,
        OverlayFoldPhase::OverlaysDeleted => 2,
        OverlayFoldPhase::Completed => 3,
    }
}

pub open spec fn fold_work_for(s: OverlayFoldState, p: OverlayFoldPhase) -> Option<OverlayFoldWork> {
    match p {
        OverlayFoldPhase::Pending => Some(
            OverlayFoldWork::ReplaceSegment {
                expected_generation: s.expected_generation,
                overlay_revision_watermark: s.overlay_revision_watermark,
            },
        ),
        OverlayFoldPhase::SegmentReplaced => Some(
            OverlayFoldWork::DeleteOverlays { overlay_revision_watermark: s.overlay_revision_watermark },
        ),
        OverlayFoldPhase::OverlaysDeleted => Some(OverlayFoldWork::Complete),
        OverlayFoldPhase::Completed => None,
    }
}

pub open spec fn fold_phase_reached(w: OverlayFoldWork) -> OverlayFoldPhase {
    match w {
        OverlayFoldWork::ReplaceSegment { .. } => OverlayFoldPhase::SegmentReplaced,
        OverlayFoldWork::DeleteOverlays { .. } => OverlayFoldPhase::OverlaysDeleted,
        OverlayFoldWork::Complete => OverlayFoldPhase::Completed,
    }
}

/// The work a fold performs when it resumes from `p`, in order.
pub open spec fn remaining_fold_work(s: OverlayFoldState, p: OverlayFoldPhase) -> Seq<OverlayFoldWork>
    decreases 3 - fold_rank(p),
{
    match fold_work_for(s, p) {
        Some(w) => {
            if fold_rank(fold_phase_reached(w)) > fold_rank(p) {
                seq![w] + remaining_fold_work(s, fold_phase_reached(w))
            } else {
                Seq::empty()
            }
        },
        None => Seq::empty(),
    }
}

/// Rejects a fold whose range is empty.
pub fn check_fold_range(key: &OverlayFoldKey) -> (r: Result<(), OverlayFoldError>)
    ensures
        r is Ok <==> key.range_start < key.range_end,
        r matches Err(e) ==> e is InvalidRange,
{
    if key.range_end <= key.range_start {
        Err(OverlayFoldError::InvalidRange)
    } else {
        Ok(())
    }
}

/// The work that phase `p` of the prepared attempt `state` calls for; `None` once complete.
pub fn next_fold_work(state: &OverlayFoldState, p: OverlayFoldPhase) -> (r: Option<OverlayFoldWork>)
    ensures
        r == fold_work_for(*state, p),
{
    match p {
        OverlayFoldPhase::Pending => Some(
            OverlayFoldWork::ReplaceSegment {
                expected_generation: state.expected_generation,
                overlay_revision_watermark: state.overlay_revision_watermark,
            },
        ),
        OverlayFoldPhase::SegmentReplaced => Some(
            OverlayFoldWork::DeleteOverlays { overlay_revision_watermark: state.overlay_revision_watermark },
        ),
        OverlayFoldPhase::OverlaysDeleted => Some(OverlayFoldWork::Complete),
        OverlayFoldPhase::Completed => None,
    }
}

/// The phase recorded once `w` has run. A replacement that the generation check refused is a
/// conflict and the fold stops.
pub fn fold_work_done(w: OverlayFoldWork, replaced: bool) -> (r: Result<OverlayFoldPhase, OverlayFoldError>)
    ensures
        match r {
            Ok(p) => p == fold_phase_reached(w) && (w is ReplaceSegment ==> replaced),
            Err(e) => e is GenerationConflict && w is ReplaceSegment && !replaced,
        },
{
    match w {
        OverlayFoldWork::ReplaceSegment { .. } => {
            if replaced {
                Ok(OverlayFoldPhase::SegmentReplaced)
            } else {
                Err(OverlayFoldError::GenerationConflict)
            }
        },
        OverlayFoldWork::DeleteOverlays { .. } => Ok(OverlayFoldPhase::OverlaysDeleted),
        OverlayFoldWork::Complete => Ok(OverlayFoldPhase::Completed),
    }
}

/// A resumed fold never repeats a recorded step: from any phase it performs the steps of the
/// later phases once each, in order, ends at `Completed`, and every step uses the generation and
/// watermark of the prepared attempt.
pub proof fn fold_resumes_forward(s: OverlayFoldState, p: OverlayFoldPhase)
    ensures
        fold_work_for(s, p) matches Some(w) ==> fold_rank(fold_phase_reached(w)) == fold_rank(p) + 1,
        fold_work_for(s, p) is None <==> p == OverlayFoldPhase::Completed,
        remaining_fold_work(s, p).len() == 3 - fold_rank(p),
        forall|i: int|
            0 <= i < remaining_fold_work(s, p).len() ==> fold_rank(
                fold_phase_reached(#[trigger] remaining_fold_work(s, p)[i]),
            ) == fold_rank(p) + i + 1,
        forall|i: int|
            0 <= i < remaining_fold_work(s, p).len() ==> match #[trigger] remaining_fold_work(s, p)[i] {
                OverlayFoldWork::ReplaceSegment { expected_generation, overlay_revision_watermark } =>
                    expected_generation == s.expected_generation && overlay_revision_watermark
                    == s.overlay_revision_watermark,
                OverlayFoldWork::DeleteOverlays { overlay_revision_watermark } =>
                    overlay_revision_watermark == s.overlay_revision_watermark,
                OverlayFoldWork::Complete => true,
            },
    decreases 3 - fold_rank(p),
{
    match fold_work_for(s, p) {
        Some(w) => {
            let q = fold_phase_reached(w);
            fold_resumes_forward(s, q);
            let rest = remaining_fold_work(s, q);
            assert(remaining_fold_work(s, p) == seq![w] + rest);
            assert forall|i: int| 0 <= i < remaining_fold_work(s, p).len() implies fold_rank(
                fold_phase_reached(#[trigger] remaining_fold_work(s, p)[i]),
            ) == fold_rank(p) + i + 1 by {
                if i > 0 {
                    assert(remaining_fold_work(s, p)[i] == rest[i - 1]);
                }
            }
            assert forall|i: int| 0 <= i < remaining_fold_work(s, p).len() implies match #[trigger] remaining_fold_work(
                s,
                p,
            )[i] {
                OverlayFoldWork::ReplaceSegment { expected_generation, overlay_revision_watermark } =>
                    expected_generation == s.expected_generation && overlay_revision_watermark
                    == s.overlay_revision_watermark,
                OverlayFoldWork::DeleteOverlays { overlay_revision_watermark } =>
                    overlay_revision_watermark == s.overlay_revision_watermark,
                OverlayFoldWork::Complete => true,
            } by {
                if i > 0 {
                    assert(remaining_fold_work(s, p)[i] == rest[i - 1]);
                }
            }
        },
        None => {},
    }
}

} // verus!
