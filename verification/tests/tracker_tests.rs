use netcheck::model::{Connectivity, InternetCheckResult, LatencySpeed, OutageLogPrecision};
use netcheck::report::{Logfile, Report, ReportItem};
use netcheck::tracker::{collect_outages, DowntimeTracker};

fn sample(ts: u64, up: bool) -> InternetCheckResult {
    InternetCheckResult::with_timestamp(
        ts,
        if up { Connectivity::Online } else { Connectivity::Offline },
        LatencySpeed::Okay,
        Vec::new(),
        0,
    )
}

#[test]
fn all_online_yields_no_outage() {
    let samples = vec![sample(0, true), sample(1000, true), sample(2000, true)];
    let outages = collect_outages(&samples);
    assert_eq!(outages.len(), 0);
}

#[test]
fn single_dip_yields_one_outage() {
    let samples = vec![sample(0, true), sample(1000, false), sample(3500, true)];
    let outages = collect_outages(&samples);
    assert_eq!(outages.len(), 1);
    assert_eq!(outages[0].start.timestamp, 1000);
    assert_eq!(outages[0].end.timestamp, 3500);
    assert_eq!(outages[0].duration(), 2500);
}

#[test]
fn leading_offline_starts_at_first_offline() {
    let samples = vec![sample(100, false), sample(200, false), sample(300, true)];
    let outages = collect_outages(&samples);
    assert_eq!(outages.len(), 1);
    assert_eq!(outages[0].start.timestamp, 100);
    assert_eq!(outages[0].end.timestamp, 300);
}

#[test]
fn never_recovered_outage_is_dropped() {
    let samples = vec![sample(0, true), sample(1000, false)];
    let outages = collect_outages(&samples);
    assert_eq!(outages.len(), 0);
}

#[test]
fn tracker_transitions_follow_the_table() {
    let mut tracker = DowntimeTracker::new();
    assert!(tracker.track(&sample(0, true)).is_none());
    assert!(tracker.track(&sample(1, false)).is_none());
    assert!(tracker.track(&sample(2, false)).is_none());
    let emitted = tracker.track(&sample(3, true));
    let outage = emitted.expect("an outage ends at the online sample");
    assert_eq!(outage.start.timestamp, 1);
    assert_eq!(outage.end.timestamp, 3);
    assert!(tracker.track(&sample(4, true)).is_none());
}

#[test]
fn aggregate_view_sees_outages_across_files_per_file_view_does_not() {
    let first = ReportItem::from_results(
        Logfile::new("a.jsonl".to_string(), "/tmp/a.jsonl".to_string()),
        vec![sample(0, true), sample(1000, false)],
    );
    let second = ReportItem::from_results(
        Logfile::new("b.jsonl".to_string(), "/tmp/b.jsonl".to_string()),
        vec![sample(2000, true)],
    );
    assert_eq!(first.outages(OutageLogPrecision::Normal).len(), 0);
    assert_eq!(second.outages(OutageLogPrecision::Normal).len(), 0);
    let report = Report::from_items(vec![first, second], None);
    let all = report.all_outages();
    assert_eq!(all.len(), 1);
    assert_eq!(all[0].start.timestamp, 1000);
    assert_eq!(all[0].end.timestamp, 2000);
}

#[test]
fn report_concatenates_samples_in_file_order() {
    let first = ReportItem::from_results(
        Logfile::new("a".to_string(), "a".to_string()),
        vec![sample(0, true), sample(1, true)],
    );
    let second = ReportItem::from_results(
        Logfile::new("b".to_string(), "b".to_string()),
        vec![sample(2, false)],
    );
    let report = Report::from_items(vec![first, second], None);
    let all = report.iter_all_results();
    let stamps: Vec<u64> = all.iter().map(|s| s.timestamp).collect();
    assert_eq!(stamps, vec![0, 1, 2]);
    assert_eq!(report.log_precision(), OutageLogPrecision::Normal);
    let paths = report.iter_logfile_paths();
    assert_eq!(paths, vec!["a".to_string(), "b".to_string()]);
}

#[test]
fn logfile_name_comes_from_the_path() {
    let f = Logfile::from_path_buf("/var/log/netcheck_2024-01-05_0.jsonl".to_string());
    assert_eq!(f.name, "netcheck_2024-01-05_0.jsonl");
    let bare = Logfile::from_path_buf("plain.jsonl".to_string());
    assert_eq!(bare.name, "plain.jsonl");
}

#[test]
fn longest_outage_is_found_across_files() {
    let item = ReportItem::from_results(
        Logfile::new("a".to_string(), "a".to_string()),
        vec![
            sample(0, true),
            sample(10, false),
            sample(20, true),
            sample(30, false),
            sample(90, true),
            sample(100, false),
            sample(130, true),
        ],
    );
    let report = Report::from_items(vec![item], None);
    let longest = netcheck::report::longest_outage(&report).expect("outages exist");
    assert_eq!(longest.start.timestamp, 30);
    assert_eq!(longest.end.timestamp, 90);
    assert_eq!(longest.duration(), 60);
    let empty = Report::from_items(vec![], None);
    assert!(netcheck::report::longest_outage(&empty).is_none());
}

#[test]
fn most_outages_picks_the_busiest_file() {
    let calm = ReportItem::from_results(
        Logfile::new("calm".to_string(), "calm".to_string()),
        vec![sample(0, true), sample(1, false), sample(2, true)],
    );
    let busy = ReportItem::from_results(
        Logfile::new("busy".to_string(), "busy".to_string()),
        vec![
            sample(10, false),
            sample(11, true),
            sample(12, false),
            sample(13, true),
        ],
    );
    let report = Report::from_items(vec![calm, busy], None);
    let idx = netcheck::report::most_outages_item(&report).expect("items exist");
    assert_eq!(idx, 1);
    assert_eq!(report.items[idx].logfile_name(), "busy");
}
