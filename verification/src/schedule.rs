//! Scheduling data and arithmetic.
//!
//! The memory-model computation itself (turning a prior memory state and the
//! elapsed time into four candidate outcomes) runs outside the library and is
//! float-valued; the library assembles its input, carries its output as plain
//! encoded scalars, and commits the chosen outcome.

use vstd::prelude::*;
use vstd::string::StringExecFns;

verus! {

/// The scheduler's belief about recall strength for one card.  The two
/// scalars are carried opaquely, as the encodings the memory-model
/// computation hands back.
#[derive(Clone, Copy, Debug, PartialEq, Eq, Structural)]
pub struct MemoryState {
    pub difficulty: u32,
    pub stability: u32,
}

/// One candidate outcome of a review: the next memory state and the chosen
/// interval in whole days.
#[derive(Clone, Copy, Debug, PartialEq, Eq, Structural)]
pub struct ScheduleArm {
    pub memory: MemoryState,
    pub interval_days: u32,
}

/// The four candidate outcomes of reviewing a card, one per rating.
#[derive(Clone, Copy, Debug, PartialEq, Eq, Structural)]
pub struct SchedulePreview {
    pub again: ScheduleArm,
    pub hard: ScheduleArm,
    pub good: ScheduleArm,
    pub easy: ScheduleArm,
}

/// What the memory-model computation needs: the prior memory state
/// reconstructed from the last review (absent for a never-reviewed card) and
/// the days elapsed since that review or since creation.
#[derive(Clone, Copy, Debug, PartialEq, Eq)]
pub struct ScheduleInput {
    pub memory: Option<MemoryState>,
    pub elapsed_days: u32,
}

/// The preview arm that a rating in `1..=4` selects: 1 = again, 2 = hard,
/// 3 = good, 4 = easy.
pub open spec fn rating_arm(p: SchedulePreview, rating: u32) -> ScheduleArm {
    if rating == 1 {
        p.again
    } else if rating == 2 {
        p.hard
    } else if rating == 3 {
        p.good
    } else {
        p.easy
    }
}

/// Selects the preview arm for a rating.
pub fn arm_for_rating(p: &SchedulePreview, rating: u32) -> (r: ScheduleArm)
    requires
        1 <= rating <= 4,
    ensures
        r == rating_arm(*p, rating),
{
    if rating == 1 {
        p.again
    } else if rating == 2 {
        p.hard
    } else if rating == 3 {
        p.good
    } else {
        p.easy
    }
}

/// Whole days from `last` to `now`: zero when `now` is not later, otherwise
/// the difference in seconds divided by 86400, saturating at `u32::MAX`.
pub open spec fn elapsed_days_spec(last: int, now: int) -> u32 {
    let diff = now - last;
    if diff <= 0 {
        0u32
    } else if diff / 86400 > u32::MAX {
        u32::MAX
    } else {
        (diff / 86400) as u32
    }
}

/// Days elapsed between two timestamps, as the scheduler counts them.
pub fn elapsed_days(last: i64, now: i64) -> (r: u32)
    ensures
        r == elapsed_days_spec(last as int, now as int),
{
    if now <= last {
        return 0;
    }
    let diff: i128 = now as i128 - last as i128;
    let days: i128 = diff / 86400;
    if days > u32::MAX as i128 {
        u32::MAX
    } else {
        days as u32
    }
}

/// The due date that committing an interval sets: `now` plus the interval in
/// seconds, saturating at the largest representable timestamp.
pub open spec fn next_show_spec(now: int, interval_days: u32) -> int {
    if now + interval_days * 86400 > i64::MAX {
        i64::MAX as int
    } else {
        now + interval_days * 86400
    }
}

/// Due date after committing a review at `now` with the given interval.
pub fn next_show_date(now: i64, interval_days: u32) -> (r: i64)
    ensures
        r as int == next_show_spec(now as int, interval_days),
{
    let add: i64 = (interval_days as i64) * 86400;
    if now > i64::MAX - add {
        i64::MAX
    } else {
        now + add
    }
}

/// The four labelled candidate intervals of a preview, in rating order, as
/// shown before the user commits.
pub fn get_next_dates(preview: &SchedulePreview) -> (r: Vec<(String, u32)>)
    ensures
        r@.len() == 4,
        r@[0].0@ == "again"@ && r@[0].1 == preview.again.interval_days,
        r@[1].0@ == "hard"@ && r@[1].1 == preview.hard.interval_days,
        r@[2].0@ == "good"@ && r@[2].1 == preview.good.interval_days,
        r@[3].0@ == "easy"@ && r@[3].1 == preview.easy.interval_days,
{
    let mut out: Vec<(String, u32)> = Vec::new();
    out.push((String::from_str("again"), preview.again.interval_days));
    out.push((String::from_str("hard"), preview.hard.interval_days));
    out.push((String::from_str("good"), preview.good.interval_days));
    out.push((String::from_str("easy"), preview.easy.interval_days));
    out
}

} // verus!
