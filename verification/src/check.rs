//! Deriving a sample from probe outcomes: endpoints, failure
//! classification, the any-of-N connectivity rule, and latency averaging.

use vstd::prelude::*;

use crate::model::{
    sanitize_text, CheckError, CheckErrorV, CheckTarget, Connectivity, InternetCheckResult,
    LatencySpeed, TargetResult, TargetV,
};

verus! {

/// The probe endpoint of one target.
pub fn get_endpoint(target: &CheckTarget) -> (r: String)
    ensures
        target is Google ==> r@ == "https://google.com/generate_204"@,
        target is Example ==> r@ == "https://example.com"@,
        target is IP ==> r@ == "https://1.1.1.1"@,
{
    match target {
        CheckTarget::Google => "https://google.com/generate_204".to_owned(),
        CheckTarget::Example => "https://example.com".to_owned(),
        CheckTarget::IP => "https://1.1.1.1".to_owned(),
    }
}

/// Sum of a sequence of durations (milliseconds).
pub open spec fn duration_sum(s: Seq<u64>) -> int
    decreases s.len(),
{
    if s.len() == 0 {
        0
    } else {
        duration_sum(s.drop_last()) + s.last()
    }
}

/// The mean of the durations: zero when there are none.
pub open spec fn spec_avg(s: Seq<u64>) -> int {
    if s.len() == 0 {
        0
    } else {
        duration_sum(s) / (s.len() as int)
    }
}

/// The sum of `n` durations is at most `n` times the largest value.
proof fn lemma_duration_sum_bound(s: Seq<u64>)
    ensures
        0 <= duration_sum(s) <= s.len() * (u64::MAX as int),
    decreases s.len(),
{
    if s.len() > 0 {
        lemma_duration_sum_bound(s.drop_last());
        assert((s.len() - 1) * (u64::MAX as int) + (u64::MAX as int) == s.len() * (
        u64::MAX as int)) by (nonlinear_arith);
    }
}

/// Mean of the measured round trip times, in milliseconds; zero when no
/// target was probed.
pub fn avg_durations(durations: &Vec<u64>) -> (r: u64)
    ensures
        r == spec_avg(durations@),
{
    if durations.len() == 0 {
        return 0;
    }
    let mut sum: u128 = 0;
    let mut i: usize = 0;
    while i < durations.len()
        invariant
            i <= durations@.len(),
            sum == duration_sum(durations@.subrange(0, i as int)),
            sum <= i * (u64::MAX as int),
        decreases durations@.len() - i,
    {
        proof {
            assert(durations@.subrange(0, i + 1 as int).drop_last() =~= durations@.subrange(
                0,
                i as int,
            ));
            assert((i as int) * (u64::MAX as int) + (u64::MAX as int) == (i + 1) * (
            u64::MAX as int)) by (nonlinear_arith);
        }
        sum = sum + durations[i] as u128;
        i = i + 1;
    }
    proof {
        assert(durations@.subrange(0, durations@.len() as int) =~= durations@);
        lemma_duration_sum_bound(durations@);
        let n = durations@.len() as int;
        vstd::arithmetic::div_mod::lemma_div_is_ordered(sum as int, n * (u64::MAX as int), n);
        vstd::arithmetic::div_mod::lemma_div_multiples_vanish(u64::MAX as int, n);
    }
    (sum / (durations.len() as u128)) as u64
}

/// What the transport layer reported about one failed probe, as plain
/// values: the flags and texts that classification reads.
#[derive(Debug, Clone)]
pub struct ProbeFailure {
    pub timeout: bool,
    pub connect: bool,
    pub status: Option<u16>,
    pub request: bool,
    pub source_message: Option<String>,
    pub display_message: String,
}

/// Whether `needle` occurs as a contiguous part of `hay`.
pub open spec fn contains_seq(hay: Seq<char>, needle: Seq<char>) -> bool {
    exists|k: int|
        0 <= k <= hay.len() - needle.len() && #[trigger] hay.subrange(k, k + needle.len())
            == needle
}

/// Substring search.
pub fn contains_str(hay: &str, needle: &str) -> (r: bool)
    ensures
        r == contains_seq(hay@, needle@),
{
    let hl: usize = hay.unicode_len();
    let nl: usize = needle.unicode_len();
    if nl > hl {
        proof {
            assert(!contains_seq(hay@, needle@));
        }
        return false;
    }
    let mut k: usize = 0;
    while k <= hl - nl
        invariant
            nl <= hl,
            hl == hay@.len(),
            nl == needle@.len(),
            k <= hl - nl + 1,
            forall|t: int|
                0 <= t < k ==> #[trigger] hay@.subrange(t, t + needle@.len()) != needle@,
        decreases hl - nl + 1 - k,
    {
        let mut j: usize = 0;
        let mut matched: bool = true;
        while j < nl
            invariant
                nl <= hl,
                hl == hay@.len(),
                nl == needle@.len(),
                k + nl <= hl,
                j <= nl,
                matched == (forall|t: int|
                    0 <= t < j ==> hay@[k + t] == needle@[t]),
            decreases nl - j,
        {
            let hc: char = hay.get_char(k + j);
            let nc: char = needle.get_char(j);
            if hc != nc {
                matched = false;
                j = nl;
            } else {
                proof {
                    if matched {
                        assert forall|t: int| 0 <= t < j + 1 implies hay@[k + t]
                            == needle@[t] by {
                            if t == j {
                                assert(hay@[k + j] == hc);
                            }
                        }
                    } else {
                        let t0 = choose|t: int| 0 <= t < j && hay@[k + t] != needle@[t];
                        assert(0 <= t0 < j + 1 && hay@[k + t0] != needle@[t0]);
                    }
                }
                j = j + 1;
            }
        }
        if matched {
            proof {
                assert(hay@.subrange(k as int, k + needle@.len()) =~= needle@);
            }
            return true;
        }
        proof {
            if hay@.subrange(k as int, k + needle@.len()) == needle@ {
                assert(forall|t: int|
                    0 <= t < nl ==> hay@.subrange(k as int, k + needle@.len())[t] == needle@[t]);
                assert(forall|t: int|
                    0 <= t < nl ==> hay@[k + t] == needle@[t]);
            }
        }
        k = k + 1;
    }
    proof {
        if contains_seq(hay@, needle@) {
            let w = choose|w: int|
                0 <= w <= hay@.len() - needle@.len() && #[trigger] hay@.subrange(
                    w,
                    w + needle@.len(),
                ) == needle@;
            assert(hay@.subrange(w, w + needle@.len()) == needle@);
        }
    }
    false
}

/// The lower-cased message the connect-failure classification inspects.
pub open spec fn failure_text(f: ProbeFailure) -> Seq<char> {
    match f.source_message {
        Option::Some(m) => m@,
        Option::None => Seq::empty(),
    }
}

/// The classification of one transport failure, by falling precedence: an
/// explicit timeout first; then, among connect failures, a TLS or
/// certificate message, then a DNS or resolver message, then a refused
/// connection (also when the message says nothing); then a carried
/// non-success HTTP status; then a malformed request; and an opaque
/// message otherwise. The message given to classification must already
/// be lower case (the caller lowers it).
pub open spec fn spec_classify(f: ProbeFailure) -> CheckErrorV {
    if f.timeout {
        CheckErrorV::Timeout
    } else if f.connect {
        if f.source_message is Some && (contains_seq(failure_text(f), "tls"@) || contains_seq(
            failure_text(f),
            "certificate"@,
        )) {
            CheckErrorV::TlsError
        } else if f.source_message is Some && (contains_seq(failure_text(f), "dns"@)
            || contains_seq(failure_text(f), "resolve"@)) {
            CheckErrorV::DnsFailure
        } else if f.source_message is Some && contains_seq(failure_text(f), "refused"@) {
            CheckErrorV::ConnectionRefused
        } else {
            CheckErrorV::ConnectionRefused
        }
    } else if f.status is Some {
        CheckErrorV::HttpStatus(f.status->0)
    } else if f.request {
        CheckErrorV::InvalidRequest
    } else {
        CheckErrorV::Other(sanitize_text(f.display_message@))
    }
}

/// Classifies one transport failure. A timeout during a TLS handshake
/// classifies as a timeout: the explicit timeout flag is checked before
/// any substring of the message.
pub fn classify_failure(f: &ProbeFailure) -> (r: CheckError)
    ensures
        r@ == spec_classify(*f),
        r.wf(),
{
    if f.timeout {
        return CheckError::Timeout;
    }
    if f.connect {
        match &f.source_message {
            Option::Some(msg) => {
                if contains_str(msg.as_str(), "tls") || contains_str(
                    msg.as_str(),
                    "certificate",
                ) {
                    return CheckError::TlsError;
                }
                if contains_str(msg.as_str(), "dns") || contains_str(msg.as_str(), "resolve") {
                    return CheckError::DnsFailure;
                }
                if contains_str(msg.as_str(), "refused") {
                    return CheckError::ConnectionRefused;
                }
                return CheckError::ConnectionRefused;
            },
            Option::None => {
                return CheckError::ConnectionRefused;
            },
        }
    }
    match f.status {
        Option::Some(code) => {
            return CheckError::HttpStatus(code);
        },
        Option::None => (),
    }
    if f.request {
        return CheckError::InvalidRequest;
    }
    CheckError::other(f.display_message.as_str())
}

/// Builds the outcome of one probed target from what the transport
/// reported: a carried status marks success exactly when it is a
/// 2xx status, and a non-success status is carried as its error.
pub fn target_outcome(
    target: CheckTarget,
    status: Option<u16>,
    failure: Option<&ProbeFailure>,
    latency_ms: u64,
    latency_threshold: Option<u64>,
) -> (r: TargetResult)
    ensures
        r.target == target,
        r.latency.duration == latency_ms,
        (match failure {
            Option::None => {
                &&& r.status_code == status
                &&& r.success == (status is Some && 200 <= status->0 < 300)
                &&& (r.success ==> r.error is None)
                &&& (!r.success ==> r@.error == (match status {
                    Option::Some(c) => Option::Some(CheckErrorV::HttpStatus(c)),
                    Option::None => Option::None,
                }))
            },
            Option::Some(f) => {
                &&& !r.success
                &&& r.status_code is None
                &&& r@.error == Option::Some(spec_classify(*f))
            },
        }),
        r.wf(),
{
    let latency = crate::model::Latency::from_duration(latency_ms, latency_threshold);
    match failure {
        Option::None => {
            let ok: bool = match status {
                Option::Some(c) => 200 <= c && c < 300,
                Option::None => false,
            };
            let error: Option<CheckError> = if ok {
                Option::None
            } else {
                match status {
                    Option::Some(c) => Option::Some(CheckError::HttpStatus(c)),
                    Option::None => Option::None,
                }
            };
            TargetResult { target, success: ok, latency, status_code: status, error }
        },
        Option::Some(f) => {
            let error = classify_failure(f);
            TargetResult {
                target,
                success: false,
                latency,
                status_code: Option::None,
                error: Option::Some(error),
            }
        },
    }
}

/// Derives one sample from the per-target outcomes: the connection is up
/// exactly when any target answered successfully; the speed label uses a
/// 100 ms threshold over the mean latency; the mean latency is carried
/// along. The sample is stamped with the current time.
pub fn check_outcome(results: Vec<TargetResult>) -> (r: InternetCheckResult)
    ensures
        r.connectivity == (if exists|i: int|
            0 <= i < results@.len() && (#[trigger] results@[i]).success {
            Connectivity::Online
        } else {
            Connectivity::Offline
        }),
        r.speed == LatencySpeed::spec_new(
            results@.map_values(|t: TargetResult| t@),
            Option::Some(100),
        ),
        r.avg == spec_avg(results@.map_values(|t: TargetResult| t.latency.duration)),
        r.results == results,
        (forall|i: int| 0 <= i < results@.len() ==> (#[trigger] results@[i]).wf()) ==> r.wf(),
{
    let mut any_up: bool = false;
    let mut i: usize = 0;
    while i < results.len()
        invariant
            i <= results@.len(),
            any_up == exists|k: int|
                0 <= k < i && (#[trigger] results@[k]).success,
        decreases results@.len() - i,
    {
        if results[i].success {
            any_up = true;
        }
        i = i + 1;
    }
    let speed = LatencySpeed::new(results.as_slice(), Option::Some(100));
    let mut durations: Vec<u64> = Vec::new();
    let mut j: usize = 0;
    while j < results.len()
        invariant
            j <= results@.len(),
            durations@ == results@.map_values(|t: TargetResult| t.latency.duration).subrange(
                0,
                j as int,
            ),
        decreases results@.len() - j,
    {
        durations.push(results[j].latency.duration);
        j = j + 1;
        proof {
            assert(durations@ =~= results@.map_values(
                |t: TargetResult| t.latency.duration,
            ).subrange(0, j as int));
        }
    }
    proof {
        assert(results@.map_values(|t: TargetResult| t.latency.duration).subrange(
            0,
            results@.len() as int,
        ) =~= results@.map_values(|t: TargetResult| t.latency.duration));
    }
    let avg = avg_durations(&durations);
    let connectivity = Connectivity::from_up(any_up);
    InternetCheckResult::new(connectivity, speed, results, avg)
}

} // verus!
