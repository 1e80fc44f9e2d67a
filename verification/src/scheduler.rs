//! The timing of scheduled syncs: the wait between checks, and which failed
//! syncs are retried. The waiting itself belongs to the caller.
use crate::domain::{retry_delay, Delay, ErrorCategory, SyncOutcome};
use vstd::prelude::*;

verus! {

/// A scheduled binding retries a failed sync at most this many times.
pub const MAX_RETRIES: u32 = 3;

/// The wait before the next scheduled check: the interval plus up to two
/// seconds of jitter from `seed`, saturating at the largest wait.
pub fn interval_delay(interval_seconds: u64, seed: u64) -> (d: Delay)
    ensures
        d.millis == 0,
        d.secs == (if interval_seconds + seed % 3 > u64::MAX { u64::MAX as int } else { interval_seconds + seed % 3 }),
{
    Delay { secs: interval_seconds.saturating_add(seed % 3), millis: 0 }
}

/// Failures that may clear on their own: an unavailable source, a version
/// that changed during the sync, and a target that could not be written.
pub open spec fn is_transient(outcome: SyncOutcome) -> bool {
    outcome == SyncOutcome::Failed(ErrorCategory::Source)
        || outcome == SyncOutcome::Failed(ErrorCategory::VersionConflict)
        || outcome == SyncOutcome::Failed(ErrorCategory::Target)
}

/// After a sync that ended with `outcome` on attempt `attempt` (0 for the
/// scheduled run), the next attempt and the wait before it; `None` ends the
/// round until the next scheduled check.
pub fn next_retry(outcome: SyncOutcome, attempt: u32, seed: u64) -> (r: Option<(u32, Delay)>)
    ensures
        (is_transient(outcome) && attempt < MAX_RETRIES) ==> (r matches Some((next, d)) && next == attempt + 1
            && d.secs == crate::domain::backoff_seconds(next) && d.millis == seed % 501),
        !(is_transient(outcome) && attempt < MAX_RETRIES) ==> r is None,
{
    let transient = match outcome {
        SyncOutcome::Failed(ErrorCategory::Source) => true,
        SyncOutcome::Failed(ErrorCategory::VersionConflict) => true,
        SyncOutcome::Failed(ErrorCategory::Target) => true,
        _ => false,
    };
    if transient && attempt < MAX_RETRIES {
        let next = attempt + 1;
        Some((next, retry_delay(next, seed)))
    } else {
        None
    }
}

/// The state of a round after its syncs ended with `outcomes` in order: the
/// attempt to run next, or `None` once the round is over.
pub open spec fn round_after(outcomes: Seq<SyncOutcome>) -> Option<u32>
    decreases outcomes.len(),
{
    if outcomes.len() == 0 {
        Some(0)
    } else {
        match round_after(outcomes.drop_last()) {
            Some(a) => if is_transient(outcomes.last()) && a < MAX_RETRIES {
                Some((a + 1) as u32)
            } else {
                None
            },
            None => None,
        }
    }
}

/// A round runs the scheduled sync and at most three retries: whatever the
/// syncs return, a round still running has counted one attempt per failed
/// sync, never more than three.
pub proof fn law_retries_are_bounded(outcomes: Seq<SyncOutcome>)
    ensures
        round_after(outcomes) matches Some(a) ==> a == outcomes.len() && a <= MAX_RETRIES,
        outcomes.len() > MAX_RETRIES ==> round_after(outcomes) is None,
    decreases outcomes.len(),
{
    if outcomes.len() > 0 {
        law_retries_are_bounded(outcomes.drop_last());
    }
}

} // verus!
