//! The time range of a query, as the command line gives it: a start and an
//! end, or one of them with a duration, or a duration back from now.
//!
//! Instants are milliseconds since the Unix epoch, durations milliseconds.

use vstd::prelude::*;

verus! {

/// The options that describe a time range.
#[derive(Debug, Clone, Copy, PartialEq, Eq, Structural)]
pub struct TimeRangeOpts {
    /// The start of the range.
    pub start: Option<i64>,
    /// The end of the range.
    pub end: Option<i64>,
    /// How far back from now the range starts. Excludes the other three.
    pub since: Option<u64>,
    /// The length of the range, counted from `start` or back from `end`.
    pub duration: Option<u64>,
}

/// Why the options describe no time range.
#[derive(Debug, Clone, Copy, PartialEq, Eq, Structural)]
pub enum BadTimeRange {
    /// `since` was given together with another option.
    SinceWithOthers,
    /// `duration` was given with both `start` and `end`.
    DurationWithBoth,
    /// `duration` was given with neither `start` nor `end`.
    DurationWithNeither,
    /// Without `since` and `duration`, both `start` and `end` are needed.
    StartAndEndExpected,
    /// The other end of the range cannot be represented.
    OutOfRange,
}

/// The range of an instant and an offset, where the sum is representable.
pub open spec fn shifted(t: int) -> Option<i64> {
    if i64::MIN <= t <= i64::MAX {
        Some(t as i64)
    } else {
        None
    }
}

/// The range that the options describe when the current instant is `now`.
pub open spec fn spec_time_range(
    start: Option<i64>,
    end: Option<i64>,
    duration: Option<u64>,
    since: Option<u64>,
    now: i64,
) -> Result<(i64, i64), BadTimeRange> {
    if since is Some {
        if start is Some || end is Some || duration is Some {
            Err(BadTimeRange::SinceWithOthers)
        } else {
            match shifted(now - since.unwrap()) {
                Some(s) => Ok((s, now)),
                None => Err(BadTimeRange::OutOfRange),
            }
        }
    } else if duration is Some {
        if start is Some && end is Some {
            Err(BadTimeRange::DurationWithBoth)
        } else if start is None && end is None {
            Err(BadTimeRange::DurationWithNeither)
        } else if start is Some {
            match shifted(start.unwrap() + duration.unwrap()) {
                Some(e) => Ok((start.unwrap(), e)),
                None => Err(BadTimeRange::OutOfRange),
            }
        } else {
            match shifted(end.unwrap() - duration.unwrap()) {
                Some(s) => Ok((s, end.unwrap())),
                None => Err(BadTimeRange::OutOfRange),
            }
        }
    } else if start is None || end is None {
        Err(BadTimeRange::StartAndEndExpected)
    } else {
        Ok((start.unwrap(), end.unwrap()))
    }
}

/// Whether the outcome depends on the current instant.
pub open spec fn reads_clock(
    start: Option<i64>,
    end: Option<i64>,
    duration: Option<u64>,
    since: Option<u64>,
) -> bool {
    since is Some && start is None && end is None && duration is None
}

/// `chrono::Local::now`, as milliseconds since the Unix epoch in UTC. The
/// answer is the time of the call, so nothing is promised of it.
#[verifier::external_body]
fn now_millis() -> (r: i64) {
    chrono::Local::now().naive_utc().and_utc().timestamp_millis()
}

fn shift(t: i64, by: u64, forward: bool) -> (r: Option<i64>)
    ensures
        r == shifted(
            if forward {
                t + by
            } else {
                t - by
            },
        ),
{
    let moved: i128 = if forward { t as i128 + by as i128 } else { t as i128 - by as i128 };
    if moved < -0x8000_0000_0000_0000 || moved > 0x7fff_ffff_ffff_ffff {
        None
    } else {
        Some(moved as i64)
    }
}

/// The range that the options describe when the current instant is `now`.
pub fn time_range_at(
    start: Option<i64>,
    end: Option<i64>,
    duration: Option<u64>,
    since: Option<u64>,
    now: i64,
) -> (r: Result<(i64, i64), BadTimeRange>)
    ensures
        r == spec_time_range(start, end, duration, since, now),
{
    if let Some(since) = since {
        if start.is_some() || end.is_some() || duration.is_some() {
            return Err(BadTimeRange::SinceWithOthers);
        }
        return match shift(now, since, false) {
            Some(s) => Ok((s, now)),
            None => Err(BadTimeRange::OutOfRange),
        };
    }
    if let Some(duration) = duration {
        if start.is_some() && end.is_some() {
            return Err(BadTimeRange::DurationWithBoth);
        }
        if start.is_none() && end.is_none() {
            return Err(BadTimeRange::DurationWithNeither);
        }
        if let Some(start) = start {
            return match shift(start, duration, true) {
                Some(e) => Ok((start, e)),
                None => Err(BadTimeRange::OutOfRange),
            };
        }
        if let Some(end) = end {
            return match shift(end, duration, false) {
                Some(s) => Ok((s, end)),
                None => Err(BadTimeRange::OutOfRange),
            };
        }
    }
    match (start, end) {
        (Some(s), Some(e)) => Ok((s, e)),
        _ => Err(BadTimeRange::StartAndEndExpected),
    }
}

/// The range that the options describe. Only a range given by `since` alone
/// depends on the clock: it ends at the instant of the call.
pub fn get_duration_helper(
    start: Option<i64>,
    end: Option<i64>,
    duration: Option<u64>,
    since: Option<u64>,
) -> (r: Result<(i64, i64), BadTimeRange>)
    ensures
        exists|now: i64| r == spec_time_range(start, end, duration, since, now),
        !reads_clock(start, end, duration, since) ==> r == spec_time_range(
            start,
            end,
            duration,
            since,
            0,
        ),
{
    let now: i64 = now_millis();
    let r = time_range_at(start, end, duration, since, now);
    assert(r == spec_time_range(start, end, duration, since, now));
    r
}

/// The range that the options describe.
pub fn get_duration(q: &TimeRangeOpts) -> (r: Result<(i64, i64), BadTimeRange>)
    ensures
        exists|now: i64| r == spec_time_range(q.start, q.end, q.duration, q.since, now),
        !reads_clock(q.start, q.end, q.duration, q.since) ==> r == spec_time_range(
            q.start,
            q.end,
            q.duration,
            q.since,
            0,
        ),
{
    get_duration_helper(q.start, q.end, q.duration, q.since)
}

/// The range of an inspection: what the options describe, or the hour that
/// ends at `now` where they describe none.
pub open spec fn spec_range_or_past_hour(q: TimeRangeOpts, now: i64) -> (i64, i64) {
    match spec_time_range(q.start, q.end, q.duration, q.since, now) {
        Ok(range) => range,
        Err(_) => ((now - 3_600_000) as i64, now),
    }
}

/// The range of an inspection when the current instant is `now`: what the
/// options describe, or the hour that ends at `now` where they describe none.
pub fn range_or_past_hour(q: &TimeRangeOpts, now: i64) -> (r: (i64, i64))
    requires
        now - 3_600_000 >= i64::MIN,
    ensures
        r == spec_range_or_past_hour(*q, now),
{
    match time_range_at(q.start, q.end, q.duration, q.since, now) {
        Ok(range) => range,
        Err(_) => (now - 3_600_000, now),
    }
}

} // verus!
