use netcheck::model::{
    clamp_timestamp, sanitize_message, Connectivity, InternetCheckResult, LatencySpeed,
    MAX_TIMESTAMP_MS,
};
use netcheck::report::{
    calculate_avg, outage_deltas, timespan_string, timespan_string_custom, TimeStyle,
};
use netcheck::time::{utc_date_time, DateTimeParts, Humanize};
use netcheck::tracker::DowntimeTracker;

fn parts(y: u64, mo: u64, d: u64, h: u64, mi: u64, s: u64) -> DateTimeParts {
    DateTimeParts { year: y, month: mo, day: d, hour: h, minute: mi, second: s, millisecond: 0 }
}

fn sample(ts: u64, up: bool) -> InternetCheckResult {
    InternetCheckResult::with_timestamp(
        ts,
        if up { Connectivity::Online } else { Connectivity::Offline },
        LatencySpeed::Okay,
        Vec::new(),
        0,
    )
}

#[test]
fn utc_split_matches_known_instants() {
    let epoch = utc_date_time(0);
    assert_eq!(epoch, parts(1970, 1, 1, 0, 0, 0));
    let p = utc_date_time(1700000000123);
    assert_eq!(p.year, 2023);
    assert_eq!(p.month, 11);
    assert_eq!(p.day, 14);
    assert_eq!(p.hour, 22);
    assert_eq!(p.minute, 13);
    assert_eq!(p.second, 20);
    assert_eq!(p.millisecond, 123);
    let leap_day = utc_date_time(951782400000);
    assert_eq!((leap_day.year, leap_day.month, leap_day.day), (2000, 2, 29));
}

#[test]
fn durations_humanize_like_the_report() {
    assert_eq!(0u64.humanize(), "0 seconds");
    assert_eq!(1000u64.humanize(), "1 second");
    assert_eq!(120000u64.humanize(), "2 minutes");
    assert_eq!(90061000u64.humanize(), "1 day, 1 hour, 1 minute and 1 second");
    assert_eq!(3720000u64.humanize(), "1 hour and 2 minutes");
}

#[test]
fn rough_duration_units_pick_the_largest() {
    assert_eq!(DowntimeTracker::human_duration_val(2 * 86400000), (2, "days"));
    assert_eq!(DowntimeTracker::human_duration_val(86400000), (1, "day"));
    assert_eq!(DowntimeTracker::human_duration_val(7200000), (2, "hours"));
    assert_eq!(DowntimeTracker::human_duration_val(65000), (1, "minute"));
    assert_eq!(DowntimeTracker::human_duration_val(1000), (1, "second"));
    assert_eq!(DowntimeTracker::human_duration_val(0), (0, "seconds"));
    assert_eq!(DowntimeTracker::human_duration(7200000), "2 hours");
    assert_eq!(DowntimeTracker::human_duration_text(1000), "took 1 second");
}

#[test]
fn timespans_collapse_the_date_on_one_day() {
    let a = parts(2024, 1, 5, 10, 30, 15);
    let b = parts(2024, 1, 5, 11, 45, 59);
    assert_eq!(timespan_string(&a, &b), "2024-01-05: 10:30 - 11:45");
    assert_eq!(
        timespan_string_custom(&a, &b, None, Some(TimeStyle::HourMinuteSecond)),
        "2024-01-05: 10:30:15 - 11:45:59"
    );
    let c = parts(2024, 1, 6, 0, 5, 0);
    assert_eq!(timespan_string(&a, &c), "2024-01-05: 10:30 - 2024-01-06: 00:05");
}

#[test]
fn datetime_formats_match_the_report() {
    let p = parts(2024, 1, 5, 10, 30, 0);
    assert_eq!(DowntimeTracker::format_datetime(&p), "05.01.2024 10:30");
    let s = sample(1700000000123, true);
    assert_eq!(s.get_time(), "14.11.23 - 22:13");
}

#[test]
fn short_outages_are_vetoed_from_duration_statistics() {
    let quick = vec![sample(0, true), sample(100, false), sample(600, true)];
    assert_eq!(outage_deltas(&quick), Vec::<u64>::new());
    let long = vec![sample(0, true), sample(100, false), sample(1600, true)];
    assert_eq!(outage_deltas(&long), vec![1500]);
}

#[test]
fn average_of_deltas_is_the_mean() {
    assert_eq!(calculate_avg(&vec![]), None);
    assert_eq!(calculate_avg(&vec![1000, 2000, 3000]), Some(2000));
    assert_eq!(calculate_avg(&vec![7]), Some(7));
}

#[test]
fn clock_readings_clamp_into_the_format_range() {
    assert_eq!(clamp_timestamp(-5), 0);
    assert_eq!(clamp_timestamp(123), 123);
    assert_eq!(clamp_timestamp(i64::MAX), MAX_TIMESTAMP_MS - 1);
}

#[test]
fn messages_sanitize_to_plain_text() {
    assert_eq!(sanitize_message("plain text"), "plain text");
    assert_eq!(sanitize_message("a\"b\\c\td"), "a_b_c_d");
    assert_eq!(sanitize_message("snowman \u{2603}!"), "snowman _!");
}

#[test]
fn well_formedness_is_checkable_at_run_time() {
    let good = sample(5, true);
    assert!(good.is_wf());
    let late = sample(MAX_TIMESTAMP_MS - 1, true);
    assert!(late.is_wf());
    let mut too_late = sample(0, true);
    too_late.timestamp = MAX_TIMESTAMP_MS;
    assert!(!too_late.is_wf());
}
