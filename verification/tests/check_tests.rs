use netcheck::check::{
    avg_durations, check_outcome, classify_failure, contains_str, get_endpoint, target_outcome,
    ProbeFailure,
};
use netcheck::model::{
    CheckError, CheckTarget, Connectivity, Latency, LatencySpeed, TargetResult,
};
use netcheck::model::InternetCheckResult;
use netcheck::monitor::{transition_event, TransitionEvent};
use netcheck::report::{longest_outage, most_outages_item, Logfile, Report, ReportItem};
use netcheck::runner::next_delay;

fn bare_sample(ts: u64, up: bool) -> InternetCheckResult {
    InternetCheckResult::with_timestamp(
        ts,
        if up { Connectivity::Online } else { Connectivity::Offline },
        LatencySpeed::Okay,
        Vec::new(),
        0,
    )
}

fn probe(success: bool, latency_ms: u64) -> TargetResult {
    TargetResult::new(
        CheckTarget::IP,
        success,
        Latency::from_duration(latency_ms, None),
        None,
        None,
    )
}

#[test]
fn any_successful_target_means_online() {
    let up = check_outcome(vec![probe(false, 10), probe(false, 20), probe(true, 30)]);
    assert_eq!(up.connectivity(), Connectivity::Online);
    assert!(up.is_internet_up());
    let down = check_outcome(vec![probe(false, 10), probe(false, 20), probe(false, 30)]);
    assert_eq!(down.connectivity(), Connectivity::Offline);
    assert!(!down.is_internet_up());
}

#[test]
fn outcome_carries_the_mean_latency() {
    let r = check_outcome(vec![probe(true, 10), probe(true, 20), probe(true, 33)]);
    assert_eq!(r.avg, 21);
    assert_eq!(avg_durations(&vec![]), 0);
    assert_eq!(avg_durations(&vec![7]), 7);
}

#[test]
fn timeout_during_tls_handshake_classifies_as_timeout() {
    let f = ProbeFailure {
        timeout: true,
        connect: true,
        status: None,
        request: false,
        source_message: Some("invalid peer certificate: tls handshake".to_string()),
        display_message: "error sending request".to_string(),
    };
    assert_eq!(classify_failure(&f), CheckError::Timeout);
}

#[test]
fn http_status_keeps_the_exact_code() {
    let t = target_outcome(CheckTarget::Example, Some(503), None, 80, None);
    assert!(!t.success());
    assert_eq!(t.status_code, Some(503));
    assert_eq!(t.error, Some(CheckError::HttpStatus(503)));
    let ok = target_outcome(CheckTarget::Example, Some(204), None, 80, None);
    assert!(ok.success());
    assert_eq!(ok.error, None);
}

#[test]
fn connect_failures_split_by_message() {
    let dns = ProbeFailure {
        timeout: false,
        connect: true,
        status: None,
        request: false,
        source_message: Some("dns error: failed to resolve host".to_string()),
        display_message: String::new(),
    };
    assert_eq!(classify_failure(&dns), CheckError::DnsFailure);
    let refused = ProbeFailure {
        source_message: Some("connection refused".to_string()),
        ..dns.clone()
    };
    assert_eq!(classify_failure(&refused), CheckError::ConnectionRefused);
    let silent = ProbeFailure { source_message: None, ..dns.clone() };
    assert_eq!(classify_failure(&silent), CheckError::ConnectionRefused);
    let request = ProbeFailure { connect: false, request: true, ..dns.clone() };
    assert_eq!(classify_failure(&request), CheckError::InvalidRequest);
    let other = ProbeFailure {
        connect: false,
        display_message: "mystery".to_string(),
        ..dns
    };
    assert_eq!(classify_failure(&other), CheckError::Other("mystery".to_string()));
}

#[test]
fn substring_search_matches_the_classifier_needles() {
    assert!(contains_str("failed to resolve host", "resolve"));
    assert!(!contains_str("refuse", "refused"));
    assert!(contains_str("x", ""));
}

#[test]
fn endpoints_are_fixed() {
    assert_eq!(get_endpoint(&CheckTarget::Google), "https://google.com/generate_204");
    assert_eq!(get_endpoint(&CheckTarget::Example), "https://example.com");
    assert_eq!(get_endpoint(&CheckTarget::IP), "https://1.1.1.1");
}

#[test]
fn latency_labels_follow_the_thresholds() {
    assert_eq!(Latency::from_duration(501, None).speed, LatencySpeed::Slow);
    assert_eq!(Latency::from_duration(500, None).speed, LatencySpeed::Okay);
    assert_eq!(Latency::from_duration(90, Some(80)).speed, LatencySpeed::Slow);
    let fast = vec![probe(true, 40), probe(true, 60)];
    assert_eq!(LatencySpeed::new(fast.as_slice(), Some(100)), LatencySpeed::Okay);
    let slow = vec![probe(true, 150), probe(true, 70)];
    assert_eq!(LatencySpeed::new(slow.as_slice(), Some(100)), LatencySpeed::Slow);
    assert_eq!(LatencySpeed::new(&[], None), LatencySpeed::Okay);
}

#[test]
fn drift_compensation_clamps_at_zero() {
    assert_eq!(next_delay(5000, 1000), 4000);
    assert_eq!(next_delay(5000, 5000), 0);
    assert_eq!(next_delay(1000, 1500), 0);
}

#[test]
fn transition_events_follow_the_table() {
    assert_eq!(
        transition_event(None, Connectivity::Online),
        Some(TransitionEvent::StartedAvailable)
    );
    assert_eq!(
        transition_event(None, Connectivity::Offline),
        Some(TransitionEvent::StartedUnavailable)
    );
    assert_eq!(
        transition_event(Some(Connectivity::Online), Connectivity::Offline),
        Some(TransitionEvent::Unavailable)
    );
    assert_eq!(
        transition_event(Some(Connectivity::Offline), Connectivity::Offline),
        Some(TransitionEvent::Unavailable)
    );
    assert_eq!(
        transition_event(Some(Connectivity::Offline), Connectivity::Online),
        Some(TransitionEvent::Restored)
    );
    assert_eq!(transition_event(Some(Connectivity::Online), Connectivity::Online), None);
    assert_eq!(
        TransitionEvent::Restored.message(),
        "Internet restored"
    );
    assert_eq!(
        TransitionEvent::StartedAvailable.message(),
        "Started - Internet available"
    );
}

#[test]
fn tls_messages_classify_as_tls_errors() {
    let base = ProbeFailure {
        timeout: false,
        connect: true,
        status: None,
        request: false,
        source_message: Some("tls handshake eof".to_string()),
        display_message: String::new(),
    };
    assert_eq!(classify_failure(&base), CheckError::TlsError);
    let cert = ProbeFailure {
        source_message: Some("invalid peer certificate: unknownissuer".to_string()),
        ..base.clone()
    };
    assert_eq!(classify_failure(&cert), CheckError::TlsError);
    // TLS outranks the DNS needles when both occur in one message.
    let both = ProbeFailure {
        source_message: Some("dns says: bad tls record".to_string()),
        ..base.clone()
    };
    assert_eq!(classify_failure(&both), CheckError::TlsError);
    // The explicit timeout flag still outranks any message.
    let timed_out = ProbeFailure { timeout: true, ..base };
    assert_eq!(classify_failure(&timed_out), CheckError::Timeout);
}

#[test]
fn ties_go_to_the_later_candidate() {
    let s = |ts: u64, up: bool| bare_sample(ts, up);
    let item = ReportItem::from_results(
        Logfile::new("a".to_string(), "a".to_string()),
        vec![
            s(0, true),
            s(10, false),
            s(40, true),
            s(100, false),
            s(130, true),
        ],
    );
    let report = Report::from_items(vec![item], None);
    let longest = longest_outage(&report).unwrap();
    assert_eq!(longest.start.timestamp, 100);
    let one = ReportItem::from_results(
        Logfile::new("one".to_string(), "one".to_string()),
        vec![s(0, false), s(1, true)],
    );
    let two = ReportItem::from_results(
        Logfile::new("two".to_string(), "two".to_string()),
        vec![s(2, false), s(3, true)],
    );
    let tied = Report::from_items(vec![one, two], None);
    assert_eq!(most_outages_item(&tied), Some(1));
}
