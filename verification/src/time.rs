//! Clock and calendar arithmetic on Unix timestamps.
//!
//! Tick labels are derived from a timestamp and a fixed UTC offset in
//! seconds, entirely in integer arithmetic: the hour of the day for
//! hourly panels and, by the standard civil-calendar reconstruction
//! from a day number, the day of the month for daily panels. The
//! sunrise-and-sunset reply picks the first event after a given moment.

use vstd::arithmetic::div_mod::{lemma_fundamental_div_mod, lemma_multiply_divide_lt};
use vstd::prelude::*;

verus! {

/// The hour of the day (0 to 23) of a timestamp at a UTC offset.
pub open spec fn spec_hour_of_day(timestamp: int, offset_seconds: int) -> int {
    ((timestamp + offset_seconds) % 86400) / 3600
}

/// Get the hour of the day (from 0 to 23) for a given Unix timestamp,
/// and a timezone offset in seconds.
pub fn hour_from_timestamp(timestamp: i64, offset_seconds: i32) -> (r: u8)
    requires
        -86400 < offset_seconds < 86400,
        i64::MIN + 86400 < timestamp < i64::MAX - 86400,
    ensures
        r == spec_hour_of_day(timestamp as int, offset_seconds as int),
        r < 24,
{
    let t = timestamp + offset_seconds as i64;
    let rem = t.checked_rem_euclid(86400).unwrap();
    proof {
        lemma_multiply_divide_lt(rem as int, 3600, 24);
    }
    ((rem as u64) / 3600) as u8
}

/// The day of the month (1 to 31) of a timestamp at a UTC offset, by
/// the standard reconstruction of the civil date from a day number.
/// The two lower bounds and the final cap are defensive: on real day
/// numbers the reconstruction already lands in range, and they never
/// move such a result.
pub open spec fn spec_day_of_month(timestamp: int, offset_seconds: int) -> int {
    let days = (timestamp + offset_seconds) / 86400;
    let z = days + 719468;
    let doe = z % 146097;
    let yoe = (doe + doe / 36524 - doe / 1460 - doe / 146096) / 365;
    let ydays = 365 * yoe + yoe / 4 - yoe / 100;
    let doy = if doe < ydays {
        0
    } else {
        doe - ydays
    };
    let mp = (5 * doy + 2) / 153;
    let d = doy - (153 * mp + 2) / 5 + 1;
    if d < 1 {
        1
    } else if d > 31 {
        31
    } else {
        d
    }
}

/// Get the day of the month (from 1 to 31) for a given Unix timestamp,
/// and a timezone offset in seconds.
pub fn day_from_timestamp(timestamp: i64, offset_seconds: i32) -> (r: u8)
    requires
        -86400 < offset_seconds < 86400,
        -8_400_000_000_000 < timestamp < 8_400_000_000_000,
    ensures
        r == spec_day_of_month(timestamp as int, offset_seconds as int),
        1 <= r <= 31,
{
    let t = timestamp + offset_seconds as i64;
    proof {
        lemma_fundamental_div_mod(t as int, 86400);
    }
    let days = t.checked_div_euclid(86400).unwrap();
    let z = days + 719468;
    proof {
        lemma_fundamental_div_mod(z as int, 146097);
    }
    let era = z.checked_div_euclid(146097).unwrap();
    let doe_wide = z - era * 146097;
    proof {
        assert(doe_wide == z as int % 146097);
    }
    let doe = doe_wide as u64;
    proof {
        vstd::arithmetic::div_mod::lemma_div_nonincreasing(doe as int, 1460);
        if doe >= 1 {
            vstd::arithmetic::div_mod::lemma_div_is_strictly_smaller(doe as int, 1460);
        }
    }
    let yoe = (doe + doe / 36524 - doe / 1460 - doe / 146096) / 365;
    proof {
        vstd::arithmetic::div_mod::lemma_div_is_ordered_by_denominator(yoe as int, 4, 100);
    }
    let ydays = 365 * yoe + yoe / 4 - yoe / 100;
    let doy = if doe < ydays {
        0
    } else {
        doe - ydays
    };
    let mp = (5 * doy + 2) / 153;
    let offset_in_month = (153 * mp + 2) / 5;
    let d: i64 = (doy as i64) - (offset_in_month as i64) + 1;
    let capped: i64 = if d < 1 {
        1
    } else if d > 31 {
        31
    } else {
        d
    };
    capped as u8
}

/// The first value beyond `now` in a list of event times.
pub open spec fn spec_first_after(events: Seq<i64>, now: int) -> Option<i64>
    decreases events.len(),
{
    if events.len() == 0 {
        None
    } else if events[0] > now {
        Some(events[0])
    } else {
        spec_first_after(events.skip(1), now)
    }
}

/// Scan for the first event time beyond `now`.
fn first_after(events: &Vec<i64>, now: i64) -> (r: Option<i64>)
    ensures
        r == spec_first_after(events@, now as int),
{
    let n = events.len();
    let mut i: usize = 0;
    proof {
        assert(events@.skip(0) =~= events@);
    }
    while i < n
        invariant
            n == events@.len(),
            i <= n,
            spec_first_after(events@.skip(i as int), now as int) == spec_first_after(
                events@,
                now as int,
            ),
        decreases n - i,
    {
        proof {
            assert(events@.skip(i as int)[0] == events@[i as int]);
            assert(events@.skip(i as int).skip(1) =~= events@.skip(i as int + 1));
        }
        let v = events[i];
        if v > now {
            return Some(v);
        }
        i += 1;
    }
    proof {
        assert(events@.skip(n as int) =~= Seq::<i64>::empty());
    }
    None
}

/// The next sunrise and the next sunset after `now`, both moved into
/// local time by the UTC offset. `None` when either list holds no
/// future event.
pub fn next_sunrise_and_sunset(
    sunrise: &Vec<i64>,
    sunset: &Vec<i64>,
    now: i64,
    offset_seconds: i32,
) -> (r: Option<(i64, i64)>)
    requires
        forall|k: int|
            0 <= k < sunrise@.len() ==> -1_000_000_000_000 < #[trigger] sunrise@[k]
                < 1_000_000_000_000,
        forall|k: int|
            0 <= k < sunset@.len() ==> -1_000_000_000_000 < #[trigger] sunset@[k]
                < 1_000_000_000_000,
    ensures
        r is Some <==> spec_first_after(sunrise@, now as int) is Some && spec_first_after(
            sunset@,
            now as int,
        ) is Some,
        r matches Some(pair) ==> (spec_first_after(sunrise@, now as int) matches Some(rise)
            && pair.0 == rise + offset_seconds) && (spec_first_after(sunset@, now as int)
            matches Some(set) && pair.1 == set + offset_seconds),
{
    let rise = first_after(sunrise, now);
    let set = first_after(sunset, now);
    match (rise, set) {
        (Some(rise), Some(set)) => {
            proof {
                lemma_first_after_in(sunrise@, now as int);
                lemma_first_after_in(sunset@, now as int);
            }
            Some((rise + offset_seconds as i64, set + offset_seconds as i64))
        },
        _ => None,
    }
}

/// What `spec_first_after` returns is one of the events.
proof fn lemma_first_after_in(events: Seq<i64>, now: int)
    requires
        spec_first_after(events, now) is Some,
    ensures
        exists|k: int| 0 <= k < events.len() && #[trigger] events[k] == spec_first_after(
            events,
            now,
        )->0,
    decreases events.len(),
{
    if events.len() > 0 && !(events[0] > now) {
        lemma_first_after_in(events.skip(1), now);
        let k = choose|k: int|
            0 <= k < events.skip(1).len() && #[trigger] events.skip(1)[k] == spec_first_after(
                events.skip(1),
                now,
            )->0;
        assert(events[k + 1] == spec_first_after(events, now)->0);
    } else if events.len() > 0 {
        assert(events[0] == spec_first_after(events, now)->0);
    }
}

} // verus!
