use chrono::{Datelike, NaiveDate, TimeZone};
use chrono_tz::America::New_York;
use chrono_tz::Europe::London;
use yuh_bot::raid_notes::{next_tuesday_9am, raid_notes_message, wait_millis, weekday_of, weekly_title};

const NY: &str = "America/New_York";

fn ny_ms(y: i32, m: u32, d: u32, h: u32, min: u32) -> i64 {
    New_York.with_ymd_and_hms(y, m, d, h, min, 0).single().unwrap().timestamp_millis()
}

fn london_ms(y: i32, m: u32, d: u32, h: u32, min: u32) -> i64 {
    London.with_ymd_and_hms(y, m, d, h, min, 0).single().unwrap().timestamp_millis()
}

#[test]
fn weekday_matches_chrono() {
    assert_eq!(weekday_of(1), 0);
    for days in [-800_000, -1, 0, 1, 2, 7, 719_163, 738_950, 739_000, 739_001, 739_002, 3_000_000] {
        let date = NaiveDate::from_num_days_from_ce_opt(days).unwrap();
        assert_eq!(weekday_of(days), date.weekday().num_days_from_monday() as i32, "day {}", days);
    }
    assert_eq!(weekday_of(i32::MIN), ((i32::MIN as i64 + 6).rem_euclid(7)) as i32);
    assert_eq!(weekday_of(i32::MAX), ((i32::MAX as i64 + 6).rem_euclid(7)) as i32);
}

#[test]
fn next_tuesday_same_day_before_nine() {
    // Tuesday March 5, 2024, 8:00 EST.
    let now = ny_ms(2024, 3, 5, 8, 0);
    assert_eq!(next_tuesday_9am(now, NY), Some(ny_ms(2024, 3, 5, 9, 0)));
}

#[test]
fn next_tuesday_is_strictly_after_now() {
    let now = ny_ms(2024, 3, 5, 9, 0);
    assert_eq!(next_tuesday_9am(now, NY), Some(ny_ms(2024, 3, 12, 9, 0)));
    assert_eq!(next_tuesday_9am(now - 1, NY), Some(now));
}

#[test]
fn next_tuesday_across_daylight_saving() {
    // Friday March 8, 2024 (EST); the next Tuesday is in EDT.
    let now = ny_ms(2024, 3, 8, 20, 30);
    let next = next_tuesday_9am(now, NY).unwrap();
    assert_eq!(next, ny_ms(2024, 3, 12, 9, 0));
    // 9:00 EDT is 13:00 UTC.
    assert_eq!(next, chrono::Utc.with_ymd_and_hms(2024, 3, 12, 13, 0, 0).unwrap().timestamp_millis());
}

#[test]
fn next_tuesday_out_of_range_is_none() {
    assert_eq!(next_tuesday_9am(i64::MAX, NY), None);
}

#[test]
fn weekly_title_names_monday_to_sunday() {
    assert_eq!(weekly_title(ny_ms(2024, 3, 5, 9, 0), NY), Some("Week of Mar 4 - Mar 10".to_string()));
    assert_eq!(weekly_title(ny_ms(2024, 12, 31, 9, 0), NY), Some("Week of Dec 30 - Jan 5".to_string()));
    assert_eq!(weekly_title(i64::MAX, NY), None);
}

#[test]
fn wait_is_never_negative() {
    assert_eq!(wait_millis(1_000, 4_500), 3_500);
    assert_eq!(wait_millis(4_500, 1_000), 0);
    assert_eq!(wait_millis(i64::MIN, i64::MAX), u64::MAX);
}

#[test]
fn next_tuesday_in_the_zone_of_now() {
    // Tuesday January 2, 2024, 13:30 in London (8:30 in New York).
    let now = london_ms(2024, 1, 2, 13, 30);
    assert_eq!(next_tuesday_9am(now, "Europe/London"), Some(london_ms(2024, 1, 9, 9, 0)));
    assert_eq!(next_tuesday_9am(now, NY), Some(ny_ms(2024, 1, 2, 9, 0)));
}

#[test]
fn unknown_zone_gives_none() {
    let now = ny_ms(2024, 3, 5, 8, 0);
    assert_eq!(next_tuesday_9am(now, "Mars/Olympus_Mons"), None);
    assert_eq!(weekly_title(now, "Mars/Olympus_Mons"), None);
}

#[test]
fn weekly_posts_come_a_week_apart() {
    // From each post, the next one is the Tuesday a week later, across the EDT switch.
    let mut post = ny_ms(2024, 2, 27, 9, 0);
    let expected = [ny_ms(2024, 3, 5, 9, 0), ny_ms(2024, 3, 12, 9, 0), ny_ms(2024, 3, 19, 9, 0)];
    for want in expected {
        let next = next_tuesday_9am(post, NY).unwrap();
        assert_eq!(next, want);
        assert_eq!(next_tuesday_9am(post + 1, NY), Some(want));
        post = next;
    }
}

#[test]
fn earliest_instants_do_not_panic() {
    // The New York offset at chrono's earliest instant (LMT, -4:56:02) would
    // take the local date below chrono's range.
    let earliest = chrono::DateTime::<chrono::Utc>::MIN_UTC.timestamp_millis();
    assert_eq!(next_tuesday_9am(earliest, NY), None);
    assert_eq!(weekly_title(earliest, NY), None);
}

#[test]
fn raid_notes_message_is_exact() {
    assert_eq!(raid_notes_message(), "Raid notes for this week go here.");
}

#[test]
fn chrono_date_range_matches_the_stated_bounds() {
    assert_eq!(NaiveDate::MIN.num_days_from_ce(), -95746129);
    assert_eq!(NaiveDate::MAX.num_days_from_ce(), 95745399);
}
