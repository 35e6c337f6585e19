//! When a unit is due: the elapsed-time test shared by tasks and events.

use vstd::prelude::*;

verus! {

/// How far, in nanoseconds, the elapsed time must pass an interval before a
/// unit fires; it absorbs jitter at ticks that land exactly on an interval.
pub const FIRE_MARGIN_NS: u64 = 10;

/// Time from `timestamp` to `now`; a `now` before `timestamp` counts as no
/// time at all.
pub open spec fn elapsed(now: u64, timestamp: u64) -> u64 {
    if now >= timestamp {
        (now - timestamp) as u64
    } else {
        0
    }
}

/// A unit with no interval fires on every pass; one with an interval fires
/// when the elapsed time exceeds it by more than the margin.
pub open spec fn due(now: u64, timestamp: u64, interval: Option<u64>) -> bool {
    match interval {
        None => true,
        Some(i) => elapsed(now, timestamp) as int - i as int > FIRE_MARGIN_NS as int,
    }
}

pub fn elapsed_ns(now: u64, timestamp: u64) -> (r: u64)
    ensures
        r == elapsed(now, timestamp),
{
    if now >= timestamp {
        now - timestamp
    } else {
        0
    }
}

pub fn is_due(now: u64, timestamp: u64, interval: Option<u64>) -> (r: bool)
    ensures
        r == due(now, timestamp, interval),
{
    match interval {
        None => true,
        Some(i) => {
            let delta = elapsed_ns(now, timestamp);
            delta > i && delta - i > FIRE_MARGIN_NS
        },
    }
}

/// A unit with an interval fires exactly when the time since its reference
/// timestamp exceeds the interval by more than the margin: not when it
/// lands on the interval, nor within the margin past it.
pub proof fn lemma_interval_gating(now: u64, timestamp: u64, interval: u64)
    ensures
        due(now, timestamp, Some(interval)) <==> elapsed(now, timestamp) as int - interval as int
            > FIRE_MARGIN_NS as int,
        now >= timestamp && now - timestamp <= interval + FIRE_MARGIN_NS ==> !due(
            now,
            timestamp,
            Some(interval),
        ),
        now >= timestamp && now - timestamp > interval + FIRE_MARGIN_NS ==> due(
            now,
            timestamp,
            Some(interval),
        ),
        due(now, timestamp, None),
{
}

} // verus!
