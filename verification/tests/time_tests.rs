use chrono::{DateTime, Datelike, FixedOffset, Timelike};
use weather_charts::time::{day_from_timestamp, hour_from_timestamp, next_sunrise_and_sunset};

fn chrono_hour(timestamp: i64, offset_seconds: i32) -> u8 {
    DateTime::from_timestamp(timestamp, 0)
        .unwrap()
        .with_timezone(&FixedOffset::east_opt(offset_seconds).unwrap())
        .hour() as u8
}

fn chrono_day(timestamp: i64, offset_seconds: i32) -> u8 {
    DateTime::from_timestamp(timestamp, 0)
        .unwrap()
        .with_timezone(&FixedOffset::east_opt(offset_seconds).unwrap())
        .day() as u8
}

#[test]
fn hour_matches_the_calendar() {
    let samples: [(i64, i32); 8] = [
        (0, 0),
        (1_700_000_000, 0),
        (1_700_000_000, 3600),
        (1_700_000_000, -3600),
        (1_700_000_000, 19800),
        (951_827_696, -43200),
        (-1_000_000, 0),
        (86_399, 0),
    ];
    for (timestamp, offset) in samples {
        assert_eq!(
            hour_from_timestamp(timestamp, offset),
            chrono_hour(timestamp, offset),
            "timestamp {timestamp} offset {offset}"
        );
    }
}

#[test]
fn day_matches_the_calendar() {
    let samples: [(i64, i32); 9] = [
        (0, 0),
        (1_700_000_000, 0),
        (1_700_000_000, 3600),
        (1_700_000_000, -3600),
        (951_827_696, 0),     // a leap-year February
        (951_868_800, 0),     // the leap day itself
        (978_220_800, -7200), // a year boundary
        (-1_000_000, 0),
        (4_102_444_800, 0),   // a century boundary
    ];
    for (timestamp, offset) in samples {
        assert_eq!(
            day_from_timestamp(timestamp, offset),
            chrono_day(timestamp, offset),
            "timestamp {timestamp} offset {offset}"
        );
    }
}

#[test]
fn next_events_pick_the_first_future_time() {
    let sunrise = vec![100, 200, 300];
    let sunset = vec![150, 250, 350];
    let r = next_sunrise_and_sunset(&sunrise, &sunset, 180, 60).unwrap();
    assert_eq!(r, (260, 310));
}

#[test]
fn next_events_need_a_future_event_in_both_lists() {
    let sunrise = vec![100, 200];
    let sunset = vec![150];
    assert!(next_sunrise_and_sunset(&sunrise, &sunset, 175, 0).is_none());
    assert!(next_sunrise_and_sunset(&Vec::new(), &sunset, 0, 0).is_none());
    let r = next_sunrise_and_sunset(&sunrise, &sunset, 120, 0).unwrap();
    assert_eq!(r, (200, 150));
}
