//! The timestamp corrector: the fixed cutoff, the fixed whole-day offset,
//! the correction policy as a spec, the executable corrector proved against
//! it, and the laws the policy obeys.
//!
//! The offset is defined in whole days.  Calendar arithmetic uses UTC as the
//! fixed reference timezone, where every calendar day spans exactly 86400
//! epoch seconds, so the day-granularity shift is the offset times 86400.

use crate::record::{CorrectionError, Record, RecordModel};
use vstd::prelude::*;

verus! {

/// Unix epoch seconds of 2005-01-01T00:00:00Z: timestamps before this
/// instant are taken to come from the reverted clock.
pub const CUTOFF_TIMESTAMP: i64 = 1104537600;

/// Whole days erroneously lost to the clock reset; the single calibration
/// constant of the correction.
pub const OFFSET_DAYS: i64 = 365 * 22 + 215;

/// Epoch seconds per calendar day in the UTC reference timezone.
pub const SECONDS_PER_DAY: i64 = 86400;

/// The whole offset in epoch seconds.
pub const OFFSET_SECONDS: i64 = OFFSET_DAYS * SECONDS_PER_DAY;

/// What correction yields: the record unchanged when its timestamp is at or
/// after the cutoff, the timestamp advanced by the offset when before it,
/// and an overflow failure when the advanced timestamp would leave the
/// representable instant range.
pub open spec fn correct_spec(r: RecordModel, cutoff: i64) -> Result<
    RecordModel,
    CorrectionError,
> {
    if r.timestamp >= cutoff {
        Ok(r)
    } else if r.timestamp + OFFSET_SECONDS <= i64::MAX {
        Ok(RecordModel { timestamp: (r.timestamp + OFFSET_SECONDS) as i64, ..r })
    } else {
        Err(CorrectionError::OffsetOverflow)
    }
}

/// Correct one record against the given cutoff instant.
///
/// Returns a new record value; the input record is never mutated in place.
pub fn correct(r: Record, cutoff: i64) -> (res: Result<Record, CorrectionError>)
    ensures
        match res {
            Ok(c) => correct_spec(r@, cutoff) == Ok::<RecordModel, CorrectionError>(c@),
            Err(e) => correct_spec(r@, cutoff) == Err::<RecordModel, CorrectionError>(e),
        },
{
    if r.timestamp >= cutoff {
        Ok(r)
    } else if r.timestamp <= i64::MAX - OFFSET_SECONDS {
        let shifted = Record { timestamp: r.timestamp + OFFSET_SECONDS, ..r };
        proof {
            assert(correct_spec(r@, cutoff)->Ok_0 =~= shifted@);
        }
        Ok(shifted)
    } else {
        Err(CorrectionError::OffsetOverflow)
    }
}

/// Idempotence of correction: once a correction has succeeded and lifted
/// the timestamp to the cutoff or beyond, correcting the result again
/// changes nothing.
///
/// The offset is a fixed constant, so a timestamp far enough before the
/// cutoff can still fall before it after one shift; such inputs are
/// excluded, and only they.
pub proof fn lemma_correct_idempotent(r: RecordModel, cutoff: i64)
    requires
        correct_spec(r, cutoff) is Ok,
        r.timestamp < cutoff ==> r.timestamp + OFFSET_SECONDS >= cutoff,
    ensures
        correct_spec(correct_spec(r, cutoff)->Ok_0, cutoff) == correct_spec(r, cutoff),
{
}

/// Cutoff boundary: a record whose timestamp equals the cutoff is left
/// unchanged, and one a second before the cutoff is shifted by exactly the
/// whole-day offset of 8245 days.
pub proof fn lemma_cutoff_boundary(r: RecordModel, cutoff: i64)
    ensures
        r.timestamp == cutoff ==> correct_spec(r, cutoff) == Ok::<RecordModel, CorrectionError>(r),
        r.timestamp + 1 == cutoff && r.timestamp + OFFSET_SECONDS <= i64::MAX ==> correct_spec(
            r,
            cutoff,
        ) == Ok::<RecordModel, CorrectionError>(
            RecordModel { timestamp: (r.timestamp + 8245 * 86400) as i64, ..r },
        ),
{
}

} // verus!
