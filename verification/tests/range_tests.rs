use weather_charts::range::{next_multiple, previous_and_next_multiple, previous_multiple, Range};

#[test]
fn next_multiple_rounds_up() {
    assert_eq!(next_multiple(0, 1), 0);
    assert_eq!(next_multiple(0, 7), 0);
    assert_eq!(next_multiple(7, 4), 8);
    assert_eq!(next_multiple(8, 4), 8);
    assert_eq!(next_multiple(1, 5), 5);
}

#[test]
fn next_multiple_rounds_up_for_negative_values() {
    assert_eq!(next_multiple(-7, 4), -4);
    assert_eq!(next_multiple(-8, 4), -8);
    assert_eq!(next_multiple(-1, 5), 0);
}

#[test]
fn next_multiple_is_smallest_such_multiple() {
    // the returned multiple is at least the value, and backing off by
    // one interval falls below the value
    for value in [-13, -4, 0, 3, 9, 250] {
        for interval in [1, 3, 8] {
            let r = next_multiple(value, interval);
            assert!(r >= value);
            assert_eq!(r.rem_euclid(interval), 0);
            assert!(r - interval < value);
        }
    }
}

#[test]
fn previous_multiple_rounds_down() {
    assert_eq!(previous_multiple(7, 4), 4);
    assert_eq!(previous_multiple(8, 4), 8);
    assert_eq!(previous_multiple(-7, 4), -8);
    assert_eq!(previous_multiple(-1, 5), -5);
}

#[test]
fn padded_range_contains_input_on_multiples() {
    let r = previous_and_next_multiple(Range::new(3, 10), 4);
    assert_eq!(r.start(), 0);
    assert_eq!(r.end(), 12);
    let r = previous_and_next_multiple(Range::new(-5, -1), 3);
    assert_eq!(r.start(), -6);
    assert_eq!(r.end(), 0);
}

#[test]
fn padded_range_never_collapses() {
    // an all-equal series already on a multiple still gets extent
    let r = previous_and_next_multiple(Range::new(8, 8), 4);
    assert_eq!(r.start(), 8);
    assert_eq!(r.end(), 12);
    let r = previous_and_next_multiple(Range::new(0, 0), 5);
    assert_eq!(r.start(), 0);
    assert_eq!(r.end(), 5);
}

#[test]
fn scenario_temperature_series_range() {
    // a series of 10.0, 20.0 and 15.0 degrees in fixed-point form
    let values = [1000, 2000, 1500];
    let lo = *values.iter().min().unwrap();
    let hi = *values.iter().max().unwrap();
    let r = previous_and_next_multiple(Range::new(lo, hi), 4);
    // both bounds already sit on multiples of four, so nothing moves
    assert_eq!(r.start(), 1000);
    assert_eq!(r.end(), 2000);
    assert_eq!(r.len(), 1001);
}
