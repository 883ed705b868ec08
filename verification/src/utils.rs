//! Timestamps and their human-readable rendering.
//!
//! Timestamps are plain seconds; the wall clock and the machine's local
//! calendar are reached through two trusted calls into chrono, and everything
//! computed from their results is verified.

use vstd::prelude::*;
use vstd::string::StringExecFns;

use crate::strutil::dec_str;
use crate::strutil::u64_to_string;

verus! {

/// The chrono timestamp range within which a seconds value names a valid
/// date (a safe inner bound of chrono's documented limits).
pub open spec fn formattable(ts: int) -> bool {
    -8_000_000_000_000 <= ts <= 8_000_000_000_000
}

/// Relies on `chrono::Utc::now`: the wall clock, read as seconds since the
/// epoch.  Nothing is promised of the value; callers state what holds of
/// every outcome.
#[verifier::external_body]
pub(crate) fn now_timestamp() -> i64 {
    chrono::Utc::now().timestamp()
}

/// Relies on `chrono::DateTime::from_timestamp` and chrono's `Local`
/// timezone formatting: renders a timestamp as a local calendar date.  The
/// result depends on the machine's timezone, so nothing is promised of it;
/// the precondition keeps the timestamp inside chrono's documented range,
/// where `from_timestamp` is `Some`.
#[verifier::external_body]
fn format_local_date(ts: i64) -> (r: String)
    requires
        formattable(ts as int),
{
    let dt = chrono::DateTime::from_timestamp(ts, 0).unwrap();
    dt.with_timezone(&chrono::Local).format("%Y-%m-%d").to_string()
}

/// Whole days from `from` to `to`, truncated toward zero, negative when `to`
/// is earlier.
pub open spec fn day_diff_spec(from: int, to: int) -> int {
    if to >= from {
        (to - from) / 86400
    } else {
        -((from - to) / 86400)
    }
}

/// Signed day difference between two timestamps.
pub fn day_diff(from: i64, to: i64) -> (r: i64)
    ensures
        r as int == day_diff_spec(from as int, to as int),
{
    if to >= from {
        let diff: i128 = to as i128 - from as i128;
        (diff / 86400) as i64
    } else {
        let diff: i128 = from as i128 - to as i128;
        let d: i128 = diff / 86400;
        (-d) as i64
    }
}

/// The wording of a day difference: "N days ago", "today", or "in N days".
pub open spec fn relative_phrase_spec(days: int) -> Seq<char> {
    if days > 0 {
        dec_str(days) + " days ago"@
    } else if days == 0 {
        "today"@
    } else {
        "in "@ + dec_str(-days) + " days"@
    }
}

/// Renders a day difference as the phrase shown beside a date.
pub fn relative_day_phrase(days: i64) -> (r: String)
    ensures
        r@ == relative_phrase_spec(days as int),
{
    if days > 0 {
        let mut s = u64_to_string(days as u64);
        s.append(" days ago");
        s
    } else if days == 0 {
        String::from_str("today")
    } else {
        let mag: i128 = -(days as i128);
        let mut s = String::from_str("in ");
        let m = u64_to_string(mag as u64);
        s.append(m.as_str());
        s.append(" days");
        proof {
            assert(s@ =~= relative_phrase_spec(days as int));
        }
        s
    }
}

/// A date with its distance from `now` in words, for example a calendar date
/// followed by "142 days ago".  The calendar-date part comes from the
/// machine's local timezone and is unconstrained; the separator and the
/// phrase are exact.
pub fn date_to_relative_string(date: i64, now: i64) -> (r: String)
    ensures
        exists|p: Seq<char>|
            r@ == p + "  "@ + relative_phrase_spec(day_diff_spec(date as int, now as int)),
{
    let mut s = if date >= -8_000_000_000_000 && date <= 8_000_000_000_000 {
        format_local_date(date)
    } else {
        String::new()
    };
    let ghost p0 = s@;
    let days = day_diff(date, now);
    let phrase = relative_day_phrase(days);
    s.append("  ");
    s.append(phrase.as_str());
    proof {
        assert(s@ =~= p0 + "  "@ + relative_phrase_spec(day_diff_spec(date as int, now as int)));
    }
    s
}

} // verus!
