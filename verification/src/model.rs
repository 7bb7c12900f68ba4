//! The probe result model: one timestamped connectivity sample, its
//! per-target outcomes, and the classification taxonomy they carry.

use vstd::prelude::*;

use crate::clock;
use crate::strutil;

verus! {

/// Timestamps are UTC milliseconds since the Unix epoch. The log line format
/// writes them with a four digit year, so every stored timestamp lies before
/// the year 10000 (this constant is 10000-01-01T00:00:00Z in milliseconds).
pub const MAX_TIMESTAMP_MS: u64 = 253402300800000;

/// Binary connectivity classification of one sample.
#[derive(Debug, Clone, Copy, PartialEq, Eq, Structural)]
pub enum Connectivity {
    Online,
    Offline,
}

impl Connectivity {
    /// Reads a probe summary flag: `true` means Online.
    pub fn from_up(value: bool) -> (r: Connectivity)
        ensures
            r == (if value {
                Connectivity::Online
            } else {
                Connectivity::Offline
            }),
    {
        if value {
            Connectivity::Online
        } else {
            Connectivity::Offline
        }
    }

    /// Display text of the variant.
    pub fn as_text(&self) -> (r: String)
        ensures
            self is Online ==> r@ == "Online"@,
            self is Offline ==> r@ == "Offline"@,
    {
        match self {
            Connectivity::Online => "Online".to_owned(),
            Connectivity::Offline => "Offline".to_owned(),
        }
    }
}

/// One probed endpoint.
#[derive(Debug, Clone, Copy, PartialEq, Eq, Structural)]
pub enum CheckTarget {
    Google,
    Example,
    IP,
}

/// Classified transport failure of one probe, carried as data in a sample.
#[derive(Debug, PartialEq, Eq)]
pub enum CheckError {
    Timeout,
    DnsFailure,
    ConnectionRefused,
    TlsError,
    HttpStatus(u16),
    Other(String),
    InvalidRequest,
}

/// Mathematical value of a `CheckError`: the opaque message becomes a
/// sequence of characters.
pub enum CheckErrorV {
    Timeout,
    DnsFailure,
    ConnectionRefused,
    TlsError,
    HttpStatus(u16),
    Other(Seq<char>),
    InvalidRequest,
}

impl View for CheckError {
    type V = CheckErrorV;

    open spec fn view(&self) -> CheckErrorV {
        match self {
            CheckError::Timeout => CheckErrorV::Timeout,
            CheckError::DnsFailure => CheckErrorV::DnsFailure,
            CheckError::ConnectionRefused => CheckErrorV::ConnectionRefused,
            CheckError::TlsError => CheckErrorV::TlsError,
            CheckError::HttpStatus(c) => CheckErrorV::HttpStatus(*c),
            CheckError::Other(m) => CheckErrorV::Other(m@),
            CheckError::InvalidRequest => CheckErrorV::InvalidRequest,
        }
    }
}

impl Clone for CheckError {
    /// A clone carries the very same classification and message.
    fn clone(&self) -> (r: Self)
        ensures
            r == *self,
    {
        match self {
            CheckError::Timeout => CheckError::Timeout,
            CheckError::DnsFailure => CheckError::DnsFailure,
            CheckError::ConnectionRefused => CheckError::ConnectionRefused,
            CheckError::TlsError => CheckError::TlsError,
            CheckError::HttpStatus(c) => CheckError::HttpStatus(*c),
            CheckError::Other(m) => CheckError::Other(m.clone()),
            CheckError::InvalidRequest => CheckError::InvalidRequest,
        }
    }
}

/// A character that may stand in a log line without escaping: printable
/// ASCII, but neither a quote nor a backslash.
pub open spec fn plain_char(c: char) -> bool {
    ' ' <= c <= '~' && c != '"' && c != '\\'
}

/// Text made only of plain characters; such text round-trips through the
/// log line format unchanged.
pub open spec fn plain_text(s: Seq<char>) -> bool {
    forall|i: int| 0 <= i < s.len() ==> plain_char(#[trigger] s[i])
}

/// A classified error whose carried message (if any) is plain text.
pub open spec fn wf_error(e: CheckErrorV) -> bool {
    match e {
        CheckErrorV::Other(m) => plain_text(m),
        _ => true,
    }
}

/// A target outcome whose carried error message (if any) is plain text.
pub open spec fn wf_target(t: TargetV) -> bool {
    match t.error {
        Option::Some(e) => wf_error(e),
        Option::None => true,
    }
}

/// A sample whose timestamp the log line format can carry and whose error
/// messages are plain text.
pub open spec fn wf_sample(s: SampleV) -> bool {
    &&& s.timestamp < MAX_TIMESTAMP_MS
    &&& forall|i: int| 0 <= i < s.results.len() ==> wf_target(#[trigger] s.results[i])
}

impl CheckError {
    /// Whether the carried message (if any) is plain text.
    pub open spec fn wf(&self) -> bool {
        wf_error(self@)
    }

    /// Builds the opaque variant, replacing every character that the log
    /// line format cannot carry verbatim.
    pub fn other(message: &str) -> (r: CheckError)
        ensures
            r@ == CheckErrorV::Other(sanitize_text(message@)),
            r.wf(),
    {
        CheckError::Other(sanitize_message(message))
    }
}

/// `sanitize_message` keeps plain characters and replaces the rest.
pub open spec fn sanitize_text(s: Seq<char>) -> Seq<char> {
    s.map_values(|c: char| if plain_char(c) { c } else { '_' })
}

/// Replaces every character that is not plain by an underscore, so the
/// result can be embedded in a log line verbatim.
pub fn sanitize_message(message: &str) -> (r: String)
    ensures
        r@ == sanitize_text(message@),
        plain_text(r@),
{
    let len: usize = message.unicode_len();
    let mut bytes: Vec<u8> = Vec::new();
    let mut i: usize = 0;
    while i < len
        invariant
            i <= len,
            len == message@.len(),
            strutil::ascii_bytes(bytes@),
            bytes@.len() == i,
            strutil::chars_of(bytes@) == sanitize_text(message@).subrange(0, i as int),
        decreases len - i,
    {
        let c: char = message.get_char(i);
        let code: u32 = c as u32;
        let plain: bool = code >= 32 && code <= 126 && c != '"' && c != '\\';
        let b: u8 = if plain {
            c as u8
        } else {
            95
        };
        proof {
            assert(b as char == sanitize_text(message@)[i as int]);
        }
        let ghost prev = bytes@;
        bytes.push(b);
        i = i + 1;
        proof {
            assert forall|j: int| 0 <= j < i as int implies #[trigger] strutil::chars_of(
                bytes@,
            )[j] == sanitize_text(message@)[j] by {
                if j < i - 1 {
                    assert(strutil::chars_of(prev)[j] == sanitize_text(message@).subrange(
                        0,
                        i - 1,
                    )[j]);
                }
                assert(strutil::chars_of(bytes@)[j] == bytes@[j] as char);
            }
            assert(strutil::chars_of(bytes@) =~= sanitize_text(message@).subrange(0, i as int));
        }
    }
    let r = strutil::ascii_string(&bytes);
    proof {
        assert(r@ =~= sanitize_text(message@));
    }
    r
}

/// Advisory latency label: the mean round trip time measured against a
/// threshold.
#[derive(Debug, Clone, Copy, PartialEq, Eq, Structural)]
pub enum LatencySpeed {
    Slow,
    Okay,
}

/// Sum of the per-target latencies (in milliseconds) of a sequence of
/// target outcomes.
pub open spec fn latency_sum(s: Seq<TargetV>) -> int
    decreases s.len(),
{
    if s.len() == 0 {
        0
    } else {
        latency_sum(s.drop_last()) + s.last().latency.duration
    }
}

impl LatencySpeed {
    /// The label of a set of outcomes: Slow when the mean latency exceeds
    /// the threshold (500 ms unless overridden), Ok otherwise and for an
    /// empty set.
    pub open spec fn spec_new(results: Seq<TargetV>, latency_threshold: Option<usize>) -> LatencySpeed {
        let threshold = match latency_threshold {
            Option::Some(t) => t as int,
            Option::None => 500,
        };
        if results.len() > 0 && latency_sum(results) / (results.len() as int) > threshold {
            LatencySpeed::Slow
        } else {
            LatencySpeed::Okay
        }
    }

    /// Labels a set of target outcomes by their mean latency.
    pub fn new(results: &[TargetResult], latency_threshold: Option<usize>) -> (r: LatencySpeed)
        ensures
            r == LatencySpeed::spec_new(results@.map_values(|t: TargetResult| t@), latency_threshold),
    {
        let ghost view: Seq<TargetV> = results@.map_values(|t: TargetResult| t@);
        if results.len() == 0 {
            return LatencySpeed::Okay;
        }

        let threshold: usize = match latency_threshold {
            Option::Some(t) => t,
            Option::None => 500,
        };

        let mut sum: u128 = 0;
        let mut i: usize = 0;
        while i < results.len()
            invariant
                i <= results@.len(),
                view == results@.map_values(|t: TargetResult| t@),
                sum == latency_sum(view.subrange(0, i as int)),
                sum <= i * (u64::MAX as u128),
            decreases results@.len() - i,
        {
            proof {
                assert(view.subrange(0, i + 1 as int).drop_last() =~= view.subrange(0, i as int));
                assert(view[i as int] == results@[i as int]@);
            }
            sum = sum + results[i].latency.duration as u128;
            i = i + 1;
        }
        proof {
            assert(view.subrange(0, view.len() as int) =~= view);
        }

        let avg: u128 = sum / (results.len() as u128);
        proof {
            vstd::arithmetic::div_mod::lemma_div_is_ordered_by_denominator(
                sum as int,
                1,
                results@.len() as int,
            );
        }
        if avg > threshold as u128 {
            LatencySpeed::Slow
        } else {
            LatencySpeed::Okay
        }
    }
}

/// Measured round trip time with its advisory label. The duration is in
/// milliseconds.
#[derive(Debug, Clone, Copy, PartialEq, Eq, Structural)]
pub struct Latency {
    pub duration: u64,
    pub speed: LatencySpeed,
}

impl Latency {
    /// Labels one measured duration (milliseconds) against a threshold
    /// (500 ms unless overridden).
    pub fn from_duration(duration: u64, threshold: Option<u64>) -> (r: Latency)
        ensures
            r.duration == duration,
            r.speed == (if duration > (match threshold {
                Option::Some(t) => t,
                Option::None => 500,
            }) {
                LatencySpeed::Slow
            } else {
                LatencySpeed::Okay
            }),
    {
        let threshold_value: u64 = match threshold {
            Option::Some(t) => t,
            Option::None => 500,
        };

        let speed = if duration > threshold_value {
            LatencySpeed::Slow
        } else {
            LatencySpeed::Okay
        };

        Latency { duration, speed }
    }

    /// The measured duration in milliseconds.
    pub fn get_duration(&self) -> (r: u64)
        ensures
            r == self.duration,
    {
        self.duration
    }
}

/// Outcome of probing one target.
#[derive(Debug, PartialEq, Eq)]
pub struct TargetResult {
    pub target: CheckTarget,
    pub success: bool,
    pub latency: Latency,
    pub status_code: Option<u16>,
    pub error: Option<CheckError>,
}

/// Mathematical value of a `TargetResult`.
pub struct TargetV {
    pub target: CheckTarget,
    pub success: bool,
    pub latency: Latency,
    pub status_code: Option<u16>,
    pub error: Option<CheckErrorV>,
}

impl View for TargetResult {
    type V = TargetV;

    open spec fn view(&self) -> TargetV {
        TargetV {
            target: self.target,
            success: self.success,
            latency: self.latency,
            status_code: self.status_code,
            error: match &self.error {
                Option::Some(e) => Option::Some(e@),
                Option::None => Option::None,
            },
        }
    }
}

impl Clone for TargetResult {
    /// A clone carries the very same outcome.
    fn clone(&self) -> (r: Self)
        ensures
            r == *self,
    {
        TargetResult {
            target: self.target,
            success: self.success,
            latency: self.latency,
            status_code: self.status_code,
            error: match &self.error {
                Option::Some(e) => Option::Some(e.clone()),
                Option::None => Option::None,
            },
        }
    }
}

impl TargetResult {
    /// A carried error message, if any, is plain text.
    pub open spec fn wf(&self) -> bool {
        wf_target(self@)
    }

    /// Bundles the outcome of one probe.
    pub fn new(
        target: CheckTarget,
        success: bool,
        latency: Latency,
        status_code: Option<u16>,
        error: Option<CheckError>,
    ) -> (r: TargetResult)
        ensures
            r.target == target,
            r.success == success,
            r.latency == latency,
            r.status_code == status_code,
            r.error == error,
    {
        TargetResult { target, success, latency, status_code, error }
    }

    /// Whether this target answered successfully.
    pub fn success(&self) -> (r: bool)
        ensures
            r == self.success,
    {
        self.success
    }

    /// The measured round trip time in milliseconds.
    pub fn latency_duration(&self) -> (r: u64)
        ensures
            r == self.latency.duration,
    {
        self.latency.duration
    }
}

/// How outage timespans are rendered in reports.
#[derive(Debug, Clone, Copy, PartialEq, Eq, Structural)]
pub enum OutageLogPrecision {
    Normal,
    Exact,
}

/// One timestamped connectivity observation covering all probe targets.
/// The timestamp is UTC milliseconds since the Unix epoch.
#[derive(Debug, PartialEq, Eq)]
pub struct InternetCheckResult {
    pub timestamp: u64,
    pub connectivity: Connectivity,
    pub speed: LatencySpeed,
    pub results: Vec<TargetResult>,
    pub avg: u64,
}

/// Mathematical value of a sample.
pub struct SampleV {
    pub timestamp: u64,
    pub connectivity: Connectivity,
    pub speed: LatencySpeed,
    pub results: Seq<TargetV>,
    pub avg: u64,
}

impl View for InternetCheckResult {
    type V = SampleV;

    open spec fn view(&self) -> SampleV {
        SampleV {
            timestamp: self.timestamp,
            connectivity: self.connectivity,
            speed: self.speed,
            results: self.results@.map_values(|t: TargetResult| t@),
            avg: self.avg,
        }
    }
}

impl Clone for InternetCheckResult {
    /// A clone stands for the very same observation.
    fn clone(&self) -> (r: Self)
        ensures
            r@ == self@,
    {
        let results: Vec<TargetResult> = self.results.clone();
        proof {
            assert(results@.map_values(|t: TargetResult| t@) =~= self.results@.map_values(
                |t: TargetResult| t@,
            ));
        }
        InternetCheckResult {
            timestamp: self.timestamp,
            connectivity: self.connectivity,
            speed: self.speed,
            results,
            avg: self.avg,
        }
    }
}

impl InternetCheckResult {
    /// The timestamp is representable in the log line format and every
    /// carried error message is plain text.
    pub open spec fn wf(&self) -> bool {
        wf_sample(self@)
    }

    /// Stamps a freshly derived observation with the current time (clamped
    /// into the range the log format can carry).
    pub fn new(
        connectivity: Connectivity,
        speed: LatencySpeed,
        results: Vec<TargetResult>,
        avg: u64,
    ) -> (r: InternetCheckResult)
        ensures
            r.connectivity == connectivity,
            r.speed == speed,
            r.results == results,
            r.avg == avg,
            r.timestamp < MAX_TIMESTAMP_MS,
            (forall|i: int| 0 <= i < results@.len() ==> (#[trigger] results@[i]).wf()) ==> r.wf(),
    {
        let now: i64 = clock::now_utc_millis();
        let timestamp: u64 = clamp_timestamp(now);
        let r = InternetCheckResult { timestamp, connectivity, speed, results, avg };
        proof {
            if forall|i: int| 0 <= i < r.results@.len() ==> (#[trigger] r.results@[i]).wf() {
                assert forall|i: int| 0 <= i < r@.results.len() implies wf_target(
                    #[trigger] r@.results[i],
                ) by {
                    assert(r.results@[i].wf());
                }
            }
        }
        r
    }

    /// Builds an observation with an explicit timestamp, as the log reader
    /// does when it reconstructs samples.
    pub fn with_timestamp(
        timestamp: u64,
        connectivity: Connectivity,
        speed: LatencySpeed,
        results: Vec<TargetResult>,
        avg: u64,
    ) -> (r: InternetCheckResult)
        requires
            timestamp < MAX_TIMESTAMP_MS,
        ensures
            r == (InternetCheckResult { timestamp, connectivity, speed, results, avg }),
    {
        InternetCheckResult { timestamp, connectivity, speed, results, avg }
    }

    /// The sample's connectivity classification.
    pub fn connectivity(&self) -> (r: Connectivity)
        ensures
            r == self.connectivity,
    {
        self.connectivity
    }

    /// Whether at least one target answered successfully when this sample
    /// was derived from per-target outcomes.
    pub fn is_internet_up(&self) -> (r: bool)
        ensures
            r == (self.connectivity is Online),
    {
        match self.connectivity {
            Connectivity::Online => true,
            Connectivity::Offline => false,
        }
    }
}

/// Clamps a clock reading into the timestamp range the log format carries:
/// readings before the epoch become zero, readings at or past the year
/// 10000 become the last representable millisecond.
pub fn clamp_timestamp(ms: i64) -> (r: u64)
    ensures
        r < MAX_TIMESTAMP_MS,
        0 <= ms < MAX_TIMESTAMP_MS ==> r == ms,
        ms < 0 ==> r == 0,
        ms >= MAX_TIMESTAMP_MS ==> r == MAX_TIMESTAMP_MS - 1,
{
    if ms < 0 {
        0
    } else if ms >= MAX_TIMESTAMP_MS as i64 {
        MAX_TIMESTAMP_MS - 1
    } else {
        ms as u64
    }
}


/// Checks at run time that a string is plain text.
pub fn is_plain_str(s: &str) -> (r: bool)
    ensures
        r == plain_text(s@),
{
    let len: usize = s.unicode_len();
    let mut i: usize = 0;
    while i < len
        invariant
            i <= len,
            len == s@.len(),
            forall|k: int| 0 <= k < i ==> plain_char(#[trigger] s@[k]),
        decreases len - i,
    {
        let c: char = s.get_char(i);
        let code: u32 = c as u32;
        if !(code >= 32 && code <= 126 && c != '"' && c != '\\') {
            proof {
                assert(!plain_char(s@[i as int]));
            }
            return false;
        }
        i = i + 1;
    }
    true
}

impl CheckError {
    /// Checks at run time that a carried message is plain text.
    pub fn is_wf(&self) -> (r: bool)
        ensures
            r == self.wf(),
    {
        match self {
            CheckError::Other(m) => is_plain_str(m.as_str()),
            _ => true,
        }
    }
}

impl TargetResult {
    /// Checks at run time that a carried error message is plain text.
    pub fn is_wf(&self) -> (r: bool)
        ensures
            r == self.wf(),
    {
        match &self.error {
            Option::Some(e) => e.is_wf(),
            Option::None => true,
        }
    }
}

impl InternetCheckResult {
    /// Checks at run time that the sample can be carried by the log line
    /// format: callers that did not build the sample through this
    /// library's constructors can test the serializer's precondition.
    pub fn is_wf(&self) -> (r: bool)
        ensures
            r == self.wf(),
    {
        if self.timestamp >= MAX_TIMESTAMP_MS {
            return false;
        }
        let mut i: usize = 0;
        while i < self.results.len()
            invariant
                i <= self.results@.len(),
                self.timestamp < MAX_TIMESTAMP_MS,
                forall|k: int| 0 <= k < i ==> wf_target(#[trigger] self@.results[k]),
            decreases self.results@.len() - i,
        {
            if !self.results[i].is_wf() {
                proof {
                    assert(!wf_target(self@.results[i as int]));
                }
                return false;
            }
            proof {
                assert(self@.results[i as int] == self.results@[i as int]@);
            }
            i = i + 1;
        }
        true
    }
}

} // verus!
