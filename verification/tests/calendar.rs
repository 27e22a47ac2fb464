use timelapsifier::calendar::{
    abs_seconds, day_number, duration_until_tomorrow_night_01, next_day, next_wake,
};
use timelapsifier::timestamp::Timestamp;

fn on(year: u32, month: u32, day: u32, hour: u32, minute: u32, second: u32) -> Timestamp {
    Timestamp { year, month, day, hour, minute, second }
}

#[test]
fn day_numbers_count_from_year_zero() {
    assert_eq!(day_number(&on(0, 1, 1, 0, 0, 0)), 0);
    assert_eq!(day_number(&on(0, 1, 2, 0, 0, 0)), 1);
    // Year zero is a leap year by the 400 rule.
    assert_eq!(day_number(&on(0, 12, 31, 0, 0, 0)), 365);
    assert_eq!(day_number(&on(1, 1, 1, 0, 0, 0)), 366);
    // 485 leap years lie before the year 2000.
    assert_eq!(day_number(&on(2000, 3, 1, 0, 0, 0)), 365 * 2000 + 485 + 31 + 29);
}

#[test]
fn abs_seconds_adds_the_time_of_day() {
    assert_eq!(abs_seconds(&on(0, 1, 1, 0, 0, 25)), 25);
    assert_eq!(abs_seconds(&on(0, 1, 2, 1, 2, 3)), 86400 + 3600 + 120 + 3);
}

#[test]
fn next_day_rolls_months_and_years() {
    assert_eq!(next_day(&on(2022, 7, 12, 5, 30, 25)), on(2022, 7, 13, 5, 30, 25));
    assert_eq!(next_day(&on(2022, 7, 31, 0, 0, 0)), on(2022, 8, 1, 0, 0, 0));
    assert_eq!(next_day(&on(2022, 12, 31, 0, 0, 0)), on(2023, 1, 1, 0, 0, 0));
    assert_eq!(next_day(&on(2020, 2, 28, 0, 0, 0)), on(2020, 2, 29, 0, 0, 0));
    assert_eq!(next_day(&on(2021, 2, 28, 0, 0, 0)), on(2021, 3, 1, 0, 0, 0));
}

#[test]
fn wake_is_the_next_one_oclock_after_tomorrow() {
    // Past 01:00: the wake slot two days on.
    assert_eq!(next_wake(&on(2022, 7, 12, 5, 30, 25)), on(2022, 7, 14, 1, 0, 0));
    // Before 01:00: tomorrow's slot is already past "now plus one day".
    assert_eq!(next_wake(&on(2022, 7, 12, 0, 30, 0)), on(2022, 7, 13, 1, 0, 0));
    // Exactly 01:00 counts as past: strictly after means two days on.
    assert_eq!(next_wake(&on(2022, 7, 12, 1, 0, 0)), on(2022, 7, 14, 1, 0, 0));
}

#[test]
fn sleep_lengths_stay_between_one_and_two_days() {
    let afternoon = duration_until_tomorrow_night_01(&on(2022, 7, 12, 5, 30, 25));
    assert_eq!(afternoon, 172800 + 3600 - (5 * 3600 + 30 * 60 + 25));
    let night = duration_until_tomorrow_night_01(&on(2022, 7, 12, 0, 30, 0));
    assert_eq!(night, 86400 + 3600 - 30 * 60);
    let boundary = duration_until_tomorrow_night_01(&on(2022, 7, 12, 1, 0, 0));
    assert_eq!(boundary, 172800);
    for d in [afternoon, night, boundary] {
        assert!(86400 < d && d <= 172800);
    }
}
