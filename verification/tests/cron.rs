use chrono::{Datelike, NaiveDate, TimeZone, Utc};
use deltegic::cron::next_cron;
use deltegic::scheduler::{compute_next, ScheduleEntry, ScheduledAction, TriggerSpec};

const SEC: i64 = 1_000_000;
const MIN: i64 = 60 * SEC;
const DAY: i64 = 86_400 * SEC;

fn at(y: i32, mo: u32, d: u32, h: u32, mi: u32, s: u32) -> i64 {
    Utc.with_ymd_and_hms(y, mo, d, h, mi, s).unwrap().timestamp_micros()
}

#[test]
fn daily_at_three_runs_next_morning() {
    let now = at(2024, 1, 1, 10, 0, 0);
    let trigger = TriggerSpec::Cron { expression: "0 3 * * *".to_string() };
    assert_eq!(compute_next(&trigger, None, now), Some(at(2024, 1, 2, 3, 0, 0)));
    assert_eq!(next_cron("0 3 * * *", at(2024, 1, 2, 2, 59, 59)), Some(at(2024, 1, 2, 3, 0, 0)));
    // strictly after: a match at `now` itself is not the next run
    assert_eq!(next_cron("0 3 * * *", at(2024, 1, 2, 3, 0, 0)), Some(at(2024, 1, 3, 3, 0, 0)));
}

#[test]
fn every_minute_starts_the_next_minute() {
    assert_eq!(next_cron("* * * * *", 0), Some(MIN));
    assert_eq!(next_cron("* * * * *", 59 * SEC + 999_999), Some(MIN));
    // before the epoch
    assert_eq!(next_cron("* * * * *", -1), Some(0));
    assert_eq!(next_cron("* * * * *", -MIN), Some(0));
    assert_eq!(next_cron("* * * * *", -MIN - 1), Some(-MIN));
}

#[test]
fn steps_lists_and_ranges() {
    let base = at(2024, 5, 6, 10, 7, 30);
    assert_eq!(next_cron("*/15 * * * *", base), Some(at(2024, 5, 6, 10, 15, 0)));
    assert_eq!(next_cron("5,10 * * * *", base), Some(at(2024, 5, 6, 10, 10, 0)));
    assert_eq!(next_cron("10-20/5 * * * *", at(2024, 5, 6, 10, 16, 0)), Some(at(2024, 5, 6, 10, 20, 0)));
    assert_eq!(next_cron("50/5 * * * *", at(2024, 5, 6, 10, 56, 0)), Some(at(2024, 5, 6, 11, 50, 0)));
    assert_eq!(next_cron("0 9-17 * * *", at(2024, 5, 6, 17, 30, 0)), Some(at(2024, 5, 7, 9, 0, 0)));
    assert_eq!(next_cron("  0   3 * *   * ", at(2024, 1, 1, 10, 0, 0)), Some(at(2024, 1, 2, 3, 0, 0)));
    // a step beyond the range takes its first value only
    assert_eq!(next_cron("7/1000 * * * *", base), Some(at(2024, 5, 6, 11, 7, 0)));
}

#[test]
fn weekdays_and_months() {
    // 1970-01-01 was a Thursday
    assert_eq!(next_cron("0 12 * * 1", 0), Some(4 * DAY + 12 * 60 * MIN));
    assert_eq!(next_cron("0 0 * * 0", 0), Some(3 * DAY));
    assert_eq!(next_cron("0 0 * * 7", 0), Some(3 * DAY));
    assert_eq!(next_cron("0 0 * 2 *", 0), Some(31 * DAY));
    assert_eq!(next_cron("0 0 1 1 *", at(2023, 6, 1, 0, 0, 0)), Some(at(2024, 1, 1, 0, 0, 0)));
    assert_eq!(next_cron("0 0 29 2 *", at(2024, 3, 1, 0, 0, 0)), Some(at(2028, 2, 29, 0, 0, 0)));
    assert_eq!(next_cron("0 0 29 2 *", at(2096, 3, 1, 0, 0, 0)), Some(at(2104, 2, 29, 0, 0, 0)));
}

#[test]
fn restricted_day_fields_match_either() {
    // the 13th, or any Friday: 1970-01-02 is a Friday
    assert_eq!(next_cron("0 0 13 * 5", 0), Some(DAY));
    // with a star in one of them both must hold: a Friday in February
    assert_eq!(next_cron("0 0 * 2 5", 0), Some(at(1970, 2, 6, 0, 0, 0)));
    assert_eq!(next_cron("0 0 13 * *", 0), Some(at(1970, 1, 13, 0, 0, 0)));
    // `*/2` starts with a star too
    assert_eq!(next_cron("0 0 */2 * 5", 0), Some(at(1970, 1, 9, 0, 0, 0)));
}

#[test]
fn malformed_and_impossible_expressions() {
    for e in ["", "* * * *", "* * * * * *", "60 * * * *", "* 24 * * *", "* * 0 * *", "* * 32 * *",
        "* * * 13 *", "* * * * 8", "a * * * *", "5-1 * * * *", "*/0 * * * *", "1/2/3 * * * *",
        "1-2-3 * * * *", ", * * * *", "1, * * * *", "-1 * * * *", "MON * * * *"] {
        assert_eq!(next_cron(e, 0), None, "{e}");
    }
    // well formed, but no such day ever comes
    assert_eq!(next_cron("0 0 31 2 *", 0), None);
    assert_eq!(next_cron("0 0 30 2 *", at(2024, 1, 1, 0, 0, 0)), None);
    let trigger = TriggerSpec::Cron { expression: "0 0 31 4 *".to_string() };
    assert_eq!(compute_next(&trigger, None, 0), None);
}

#[test]
fn calendar_agrees_with_chrono() {
    let mut day = NaiveDate::from_ymd_opt(1599, 12, 25).unwrap();
    let last = NaiveDate::from_ymd_opt(2450, 1, 10).unwrap();
    while day < last {
        let start = day.and_hms_opt(0, 0, 0).unwrap().and_utc().timestamp_micros();
        let expr = format!("0 0 {} {} *", day.day(), day.month());
        assert_eq!(next_cron(&expr, start - 1), Some(start), "{day}");
        let w = day.weekday().num_days_from_sunday();
        let expr = format!("30 23 * * {}", w);
        assert_eq!(next_cron(&expr, start - 1), Some(start + 23 * 60 * MIN + 30 * MIN), "{day}");
        day = day.succ_opt().unwrap().succ_opt().unwrap().succ_opt().unwrap();
    }
}

#[test]
fn cron_entry_advances_to_its_next_minute() {
    let action = ScheduledAction::Cleanup { directory: "/tmp".to_string(), older_than_days: 7, pattern: "*.part".to_string() };
    let start = at(2024, 1, 1, 10, 0, 0);
    let mut e = ScheduleEntry::new_with(9, "nightly", TriggerSpec::Cron { expression: "30 2 * * *".to_string() }, action, start);
    assert_eq!(e.next_run, Some(at(2024, 1, 2, 2, 30, 0)));
    assert!(e.is_due_at(at(2024, 1, 2, 2, 30, 0)));
    e.advance_at(at(2024, 1, 2, 2, 30, 5));
    assert_eq!(e.next_run, Some(at(2024, 1, 3, 2, 30, 0)));
}
