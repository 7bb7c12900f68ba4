use netcheck::codec::{collect_results_from_lines, parse_log_line, record_line, sample_line};
use netcheck::model::{
    CheckError, CheckTarget, Connectivity, InternetCheckResult, Latency, LatencySpeed,
    TargetResult,
};

fn target(success: bool, latency_ms: u64, code: Option<u16>, error: Option<CheckError>)
    -> TargetResult {
    TargetResult::new(
        CheckTarget::Google,
        success,
        Latency::from_duration(latency_ms, None),
        code,
        error,
    )
}

fn rich_sample() -> InternetCheckResult {
    let targets = vec![
        target(true, 42, Some(204), None),
        TargetResult::new(
            CheckTarget::Example,
            false,
            Latency::from_duration(1200, None),
            Some(503),
            Some(CheckError::HttpStatus(503)),
        ),
        TargetResult::new(
            CheckTarget::IP,
            false,
            Latency::from_duration(900, None),
            None,
            Some(CheckError::other("boom: \"quoted\"\nnewline")),
        ),
    ];
    InternetCheckResult::with_timestamp(
        1700000000123,
        Connectivity::Online,
        LatencySpeed::Slow,
        targets,
        714,
    )
}

#[test]
fn empty_sample_line_has_the_documented_shape() {
    let s = InternetCheckResult::with_timestamp(
        0,
        Connectivity::Online,
        LatencySpeed::Okay,
        Vec::new(),
        0,
    );
    let line = sample_line(0, "hello", &s);
    let text = String::from_utf8(line).unwrap();
    let expected_head = "{\"timestamp\":\"1970-01-01T00:00:00.000Z\",\"message\":\"hello\",";
    let expected_mid = "\"result\":{\"timestamp\":\"1970-01-01T00:00:00.000Z\",";
    let expected_tail =
        "\"connectivity\":\"Online\",\"speed\":\"Ok\",\"results\":[],\"avg_ms\":0}}";
    let mut expected = String::new();
    expected.push_str(expected_head);
    expected.push_str(expected_mid);
    expected.push_str(expected_tail);
    assert_eq!(text, expected);
}

#[test]
fn sample_round_trips_through_a_log_line() {
    let s = rich_sample();
    let line = sample_line(1700000000123, "Internet restored", &s);
    let back = parse_log_line(line.as_slice()).expect("the line carries a sample");
    assert_eq!(back, s);
}

#[test]
fn timeout_error_round_trips() {
    let targets = vec![target(false, 3000, None, Some(CheckError::Timeout))];
    let s = InternetCheckResult::with_timestamp(
        5,
        Connectivity::Offline,
        LatencySpeed::Slow,
        targets,
        3000,
    );
    let line = sample_line(5, "Internet unavailable", &s);
    let back = parse_log_line(line.as_slice()).unwrap();
    assert_eq!(back, s);
}

#[test]
fn message_only_line_yields_no_sample() {
    let line = record_line(123456, "Graceful shutdown");
    assert!(parse_log_line(line.as_slice()).is_none());
    let text = String::from_utf8(line).unwrap();
    assert_eq!(
        text,
        "{\"timestamp\":\"1970-01-01T00:02:03.456Z\",\"message\":\"Graceful shutdown\"}"
    );
}

#[test]
fn malformed_lines_yield_no_sample() {
    assert!(parse_log_line(b"").is_none());
    assert!(parse_log_line(b"garbage").is_none());
    assert!(parse_log_line(b"{\"timestamp\":\"zzz\",\"message\":\"m\"}").is_none());
    let s = rich_sample();
    let mut line = sample_line(1, "m", &s);
    line.pop();
    assert!(parse_log_line(line.as_slice()).is_none());
}

#[test]
fn reader_skips_corrupt_lines_and_keeps_the_rest() {
    let a = InternetCheckResult::with_timestamp(
        10,
        Connectivity::Online,
        LatencySpeed::Okay,
        Vec::new(),
        0,
    );
    let b = InternetCheckResult::with_timestamp(
        20,
        Connectivity::Offline,
        LatencySpeed::Okay,
        Vec::new(),
        0,
    );
    let lines = vec![
        sample_line(10, "a", &a),
        b"half a reco".to_vec(),
        record_line(15, "note"),
        sample_line(20, "b", &b),
    ];
    let got = collect_results_from_lines(&lines);
    assert_eq!(got, vec![a, b]);
}

#[test]
fn messages_are_sanitized_into_the_line() {
    let line = record_line(0, "tab\there \"and\" back\\slash");
    let text = String::from_utf8(line).unwrap();
    assert!(text.contains("tab_here _and_ back_slash"));
}

#[test]
fn keyword_errors_round_trip() {
    let targets = vec![
        target(false, 10, None, Some(CheckError::TlsError)),
        target(false, 11, None, Some(CheckError::DnsFailure)),
        target(false, 12, None, Some(CheckError::ConnectionRefused)),
        target(false, 13, None, Some(CheckError::InvalidRequest)),
    ];
    let s = InternetCheckResult::with_timestamp(
        99,
        Connectivity::Offline,
        LatencySpeed::Okay,
        targets,
        11,
    );
    let line = sample_line(99, "Internet unavailable", &s);
    assert_eq!(parse_log_line(line.as_slice()).unwrap(), s);
}
