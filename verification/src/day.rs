//! Which day it is, where the user is.
//!
//! The rotation owes a picture once the date has changed, and a date is a local
//! thing. Nothing else in the library needs a calendar, so this is the whole of one:
//! one number per instant, and comparison is the only operation on it.

use vstd::prelude::*;

verus! {

/// Seconds in one calendar day.
pub const SECONDS_PER_DAY: i64 = 86400;

/// The day number of instant `at` seen from `offset` seconds east of UTC, floored
/// towards the earlier day.
pub open spec fn day_of(at: int, offset: int) -> int {
    (at + offset) / (SECONDS_PER_DAY as int)
}

/// The day number `local` gives the instant `at` seen from `offset` seconds east of
/// UTC.
pub open spec fn local_spec(at: u64, offset: i64) -> int {
    day_of(at as int, offset as int)
}

/// The local calendar day the instant `at` (Unix seconds) falls on, for a place
/// `offset` seconds east of UTC at that instant, numbered from the epoch.
///
/// The offset is the one in force at `at` itself, so that two days being compared
/// are each measured under their own offset: asking once for both would misread the
/// hour either side of a daylight-saving change. Where the user is, is the caller's
/// to say. Only the difference between two of these means anything.
///
/// Euclidean division, so an instant before 1970 floors towards the earlier day
/// rather than towards zero: truncation there would read as "same day", the one
/// answer that stops the rotation rather than nudging it.
pub fn local(at: u64, offset: i64) -> (day: i64)
    ensures
        day == local_spec(at, offset),
{
    let shifted: i128 = at as i128 + offset as i128;
    let per_day: i128 = 86400;
    let q: i128 = shifted / per_day;
    let r: i128 = shifted % per_day;
    let d: i128 = if r < 0 {
        q - 1
    } else {
        q
    };
    assert(d == day_of(at as int, offset as int)) by (nonlinear_arith)
        requires
            shifted == at + offset,
            per_day == 86400,
            q * per_day + r == shifted,
            -86400 < r < 86400,
            r < 0 ==> shifted < 0,
            r > 0 ==> shifted > 0,
            r < 0 ==> d == q - 1,
            r >= 0 ==> d == q,
    ;
    assert(-1000000000000000 < d < 1000000000000000) by (nonlinear_arith)
        requires
            q * 86400 + r == shifted,
            -86400 < r < 86400,
            -0x1_0000_0000_0000_0000 <= shifted <= 0x2_0000_0000_0000_0000,
            d == q || d == q - 1,
    ;
    d as i64
}

} // verus!
