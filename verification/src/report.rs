//! Report assembly: samples grouped by file, outage statistics, and the
//! renderings the reports print.

use vstd::prelude::*;

use crate::clock;
use crate::model::{InternetCheckResult, OutageLogPrecision, SampleV, MAX_TIMESTAMP_MS};
use crate::strutil;
use crate::time;
use crate::time::{DateTimeParts, Humanize};
use crate::tracker::{outage_seq, DowntimeTracker, Outage, OutageV};

verus! {

/// One logical log file, by name and path.
#[derive(Debug, Clone)]
pub struct Logfile {
    pub name: String,
    pub path: String,
}

/// The file name part of a path: everything after the last separator.
pub open spec fn spec_basename(p: Seq<char>) -> Seq<char>
    decreases p.len(),
{
    if p.len() == 0 {
        Seq::empty()
    } else if p.last() == '/' {
        Seq::empty()
    } else {
        spec_basename(p.drop_last()).push(p.last())
    }
}

/// The basename is the suffix after the last separator.
proof fn lemma_basename_suffix(p: Seq<char>, cut: int)
    requires
        0 <= cut <= p.len(),
        cut == 0 || p[cut - 1] == '/',
        forall|k: int| cut <= k < p.len() ==> p[k] != '/',
    ensures
        spec_basename(p) == p.subrange(cut, p.len() as int),
    decreases p.len() - cut,
{
    if p.len() == cut {
        assert(p.subrange(cut, p.len() as int) =~= Seq::<char>::empty());
        if p.len() > 0 {
            assert(p.last() == p[cut - 1]);
        }
    } else {
        lemma_basename_suffix(p.drop_last(), cut);
        assert(p.drop_last().subrange(cut, p.drop_last().len() as int) =~= p.subrange(
            cut,
            p.len() - 1,
        ));
        assert(spec_basename(p) == p.subrange(cut, p.len() - 1).push(p.last()));
        assert(p.subrange(cut, p.len() - 1).push(p.last()) =~= p.subrange(cut, p.len() as int));
    }
}

impl Logfile {
    /// Pairs a display name with a path.
    pub fn new(name: String, path: String) -> (r: Logfile)
        ensures
            r.name == name,
            r.path == path,
    {
        Logfile { name, path }
    }

    /// Derives the display name from the path: the part after the last
    /// separator.
    pub fn from_path_buf(path: String) -> (r: Logfile)
        ensures
            r.path == path,
            r.name@ == spec_basename(path@),
    {
        let len: usize = path.as_str().unicode_len();
        let mut cut: usize = len;
        loop
            invariant
                cut <= len,
                len == path@.len(),
                forall|k: int| cut <= k < len ==> path@[k] != '/',
            ensures
                cut <= len,
                cut == 0 || path@[cut - 1] == '/',
                forall|k: int| cut <= k < len ==> path@[k] != '/',
            decreases cut,
        {
            if cut == 0 {
                break ;
            }
            if path.as_str().get_char(cut - 1) == '/' {
                break ;
            }
            cut = cut - 1;
        }
        proof {
            lemma_basename_suffix(path@, cut as int);
        }
        let name = path.as_str().substring_char(cut, len).to_owned();
        Logfile { name, path }
    }
}

/// The samples of one log file, with the file they came from.
#[derive(Debug, Clone)]
pub struct ReportItem {
    pub logfile: Logfile,
    pub results: Vec<InternetCheckResult>,
}

impl ReportItem {
    /// The sample views of this item.
    pub open spec fn samples(&self) -> Seq<SampleV> {
        self.results@.map_values(|s: InternetCheckResult| s@)
    }

    /// Pairs a log file with the samples read from it.
    pub fn from_results(logfile: Logfile, results: Vec<InternetCheckResult>) -> (r: ReportItem)
        ensures
            r.logfile == logfile,
            r.results == results,
    {
        ReportItem { logfile, results }
    }

    /// The outages of this file alone, reconstructed with a fresh
    /// tracker: an outage spanning a file boundary is invisible here.
    pub fn outages(&self, log_precision: OutageLogPrecision) -> (r: Vec<Outage>)
        ensures
            r@.map_values(|o: Outage| o@) == outage_seq(self.samples()),
    {
        crate::tracker::collect_outages(&self.results)
    }

    /// The name of the file this item came from.
    pub fn logfile_name(&self) -> (r: &String)
        ensures
            r == self.logfile.name,
    {
        &self.logfile.name
    }

    /// The samples, in file order.
    pub fn iter_results(&self) -> (r: &Vec<InternetCheckResult>)
        ensures
            r == self.results,
    {
        &self.results
    }
}

/// All selected log files with their samples, ready for reporting.
#[derive(Debug, Clone)]
pub struct Report {
    pub items: Vec<ReportItem>,
    pub log_precision: Option<OutageLogPrecision>,
}

/// The samples of a sequence of items, concatenated in file order.
pub open spec fn all_samples(items: Seq<ReportItem>) -> Seq<SampleV>
    decreases items.len(),
{
    if items.len() == 0 {
        Seq::empty()
    } else {
        all_samples(items.drop_last()) + items.last().samples()
    }
}

impl Report {
    /// Bundles per-file items into one report.
    pub fn from_items(items: Vec<ReportItem>, log_precision: Option<OutageLogPrecision>) -> (r:
        Report)
        ensures
            r.items == items,
            r.log_precision == log_precision,
    {
        Report { items, log_precision }
    }

    /// The per-file items.
    pub fn iter_items(&self) -> (r: &Vec<ReportItem>)
        ensures
            r == self.items,
    {
        &self.items
    }

    /// Every sample of every file, in file-then-record order.
    pub fn iter_all_results(&self) -> (r: Vec<InternetCheckResult>)
        ensures
            r@.map_values(|s: InternetCheckResult| s@) == all_samples(self.items@),
    {
        let mut out: Vec<InternetCheckResult> = Vec::new();
        let mut i: usize = 0;
        while i < self.items.len()
            invariant
                i <= self.items@.len(),
                out@.map_values(|s: InternetCheckResult| s@) == all_samples(
                    self.items@.subrange(0, i as int),
                ),
            decreases self.items@.len() - i,
        {
            let mut j: usize = 0;
            let item = &self.items[i];
            while j < item.results.len()
                invariant
                    j <= item.results@.len(),
                    item == self.items@[i as int],
                    i < self.items@.len(),
                    out@.map_values(|s: InternetCheckResult| s@) == all_samples(
                        self.items@.subrange(0, i as int),
                    ) + item.samples().subrange(0, j as int),
                decreases item.results@.len() - j,
            {
                let cloned = item.results[j].clone();
                proof {
                    assert(cloned@ == item.samples()[j as int]);
                }
                let ghost prev_out = out@;
                out.push(cloned);
                j = j + 1;
                proof {
                    assert(out@.map_values(|s: InternetCheckResult| s@) =~= prev_out.map_values(
                        |s: InternetCheckResult| s@,
                    ).push(item.samples()[j - 1]));
                    assert(item.samples().subrange(0, j as int) =~= item.samples().subrange(
                        0,
                        j - 1,
                    ).push(item.samples()[j - 1]));
                    assert((all_samples(self.items@.subrange(0, i as int))
                        + item.samples().subrange(0, j - 1)).push(item.samples()[j - 1]) =~= (
                    all_samples(self.items@.subrange(0, i as int)) + item.samples().subrange(
                        0,
                        j as int,
                    )));
                    assert(out@.map_values(|s: InternetCheckResult| s@) == all_samples(
                        self.items@.subrange(0, i as int),
                    ) + item.samples().subrange(0, j as int));
                }
            }
            i = i + 1;
            proof {
                assert(self.items@.subrange(0, i as int).drop_last() =~= self.items@.subrange(
                    0,
                    i - 1,
                ));
                assert(self.items@.subrange(0, i as int).last() == self.items@[i - 1]);
                assert(item.samples().subrange(0, item.samples().len() as int)
                    =~= item.samples());
                assert(out@.map_values(|s: InternetCheckResult| s@) =~= all_samples(
                    self.items@.subrange(0, i as int),
                ));
            }
        }
        proof {
            assert(self.items@.subrange(0, self.items@.len() as int) =~= self.items@);
        }
        out
    }

    /// The paths of the selected files, in order.
    pub fn iter_logfile_paths(&self) -> (r: Vec<String>)
        ensures
            r@.len() == self.items@.len(),
            forall|i: int|
                0 <= i < r@.len() ==> r@[i] == (#[trigger] self.items@[i]).logfile.path,
    {
        let mut out: Vec<String> = Vec::new();
        let mut i: usize = 0;
        while i < self.items.len()
            invariant
                i <= self.items@.len(),
                out@.len() == i,
                forall|k: int|
                    0 <= k < i ==> out@[k] == (#[trigger] self.items@[k]).logfile.path,
            decreases self.items@.len() - i,
        {
            out.push(self.items[i].logfile.path.clone());
            i = i + 1;
        }
        out
    }

    /// The outages of all files together, reconstructed with one tracker
    /// over the concatenation: an outage spanning a file boundary is
    /// visible in this aggregate view.
    pub fn all_outages(&self) -> (r: Vec<Outage>)
        ensures
            r@.map_values(|o: Outage| o@) == outage_seq(all_samples(self.items@)),
    {
        let all = self.iter_all_results();
        crate::tracker::collect_outages(&all)
    }

    /// The configured precision, normal unless set.
    pub fn log_precision(&self) -> (r: OutageLogPrecision)
        ensures
            r == (match self.log_precision {
                Option::Some(p) => p,
                Option::None => OutageLogPrecision::Normal,
            }),
    {
        match self.log_precision {
            Option::Some(p) => p,
            Option::None => OutageLogPrecision::Normal,
        }
    }
}

// ---------------------------------------------------------------------------
// Duration statistics
// ---------------------------------------------------------------------------
/// The outage durations of a sample sequence, keeping only outages of at
/// least one whole second: shorter ones are vetoed as the duration
/// report does.
pub open spec fn positive_deltas(samples: Seq<SampleV>) -> Seq<u64>
    decreases samples.len(),
{
    outage_seq(samples).filter(|o: OutageV| o.duration() >= 1000).map_values(
        |o: OutageV| o.duration() as u64,
    )
}

/// Collects the outage durations (milliseconds) of a sample sequence,
/// vetoing outages under one second.
pub fn outage_deltas(samples: &Vec<InternetCheckResult>) -> (r: Vec<u64>)
    ensures
        r@ == positive_deltas(samples@.map_values(|s: InternetCheckResult| s@)),
{
    let outages = crate::tracker::collect_outages(samples);
    let ghost oviews = outages@.map_values(|o: Outage| o@);
    let mut out: Vec<u64> = Vec::new();
    let mut i: usize = 0;
    while i < outages.len()
        invariant
            i <= outages@.len(),
            oviews == outages@.map_values(|o: Outage| o@),
            out@ == oviews.subrange(0, i as int).filter(|o: OutageV| o.duration() >= 1000)
                .map_values(|o: OutageV| o.duration() as u64),
        decreases outages@.len() - i,
    {
        proof {
            assert(oviews.subrange(0, i + 1 as int).drop_last() =~= oviews.subrange(0, i as int));
            assert(oviews.subrange(0, i + 1 as int).last() == oviews[i as int]);
            reveal(Seq::filter);
        }
        let d = outages[i].duration();
        if d >= 1000 {
            out.push(d);
        }
        i = i + 1;
        proof {
            assert(out@ =~= oviews.subrange(0, i as int).filter(
                |o: OutageV| o.duration() >= 1000,
            ).map_values(|o: OutageV| o.duration() as u64));
        }
    }
    proof {
        assert(oviews.subrange(0, oviews.len() as int) =~= oviews);
    }
    out
}

/// Sum of a sequence of durations.
pub open spec fn delta_sum(s: Seq<u64>) -> int
    decreases s.len(),
{
    if s.len() == 0 {
        0
    } else {
        delta_sum(s.drop_last()) + s.last()
    }
}

/// The mean of the collected outage durations: nothing when none were
/// collected, their sum divided by their count otherwise.
pub fn calculate_avg(deltas: &Vec<u64>) -> (r: Option<u64>)
    ensures
        deltas@.len() == 0 ==> r is None,
        deltas@.len() > 0 ==> r == Option::Some(
            (delta_sum(deltas@) / (deltas@.len() as int)) as u64,
        ),
{
    if deltas.len() == 0 {
        return Option::None;
    }
    let mut sum: u128 = 0;
    let mut i: usize = 0;
    while i < deltas.len()
        invariant
            i <= deltas@.len(),
            sum == delta_sum(deltas@.subrange(0, i as int)),
            sum <= i * (u64::MAX as int),
        decreases deltas@.len() - i,
    {
        proof {
            assert(deltas@.subrange(0, i + 1 as int).drop_last() =~= deltas@.subrange(
                0,
                i as int,
            ));
            assert((i as int) * (u64::MAX as int) + (u64::MAX as int) == (i + 1) * (
            u64::MAX as int)) by (nonlinear_arith);
        }
        sum = sum + deltas[i] as u128;
        i = i + 1;
    }
    proof {
        assert(deltas@.subrange(0, deltas@.len() as int) =~= deltas@);
        let n = deltas@.len() as int;
        assert(0 <= delta_sum(deltas@) <= n * (u64::MAX as int)) by {
            lemma_delta_sum_bound(deltas@);
        }
        vstd::arithmetic::div_mod::lemma_div_is_ordered(sum as int, n * (u64::MAX as int), n);
        vstd::arithmetic::div_mod::lemma_div_multiples_vanish(u64::MAX as int, n);
    }
    Option::Some((sum / (deltas.len() as u128)) as u64)
}

/// The sum of `n` durations is at most `n` times the largest value.
proof fn lemma_delta_sum_bound(s: Seq<u64>)
    ensures
        0 <= delta_sum(s) <= s.len() * (u64::MAX as int),
    decreases s.len(),
{
    if s.len() > 0 {
        lemma_delta_sum_bound(s.drop_last());
        assert((s.len() - 1) * (u64::MAX as int) + (u64::MAX as int) == s.len() * (
        u64::MAX as int)) by (nonlinear_arith);
    }
}

// ---------------------------------------------------------------------------
// Rendering dates, times and durations for reports
// ---------------------------------------------------------------------------
/// How the time of day is rendered in a timespan.
#[derive(Debug, Clone, Copy, PartialEq, Eq, Structural)]
pub enum TimeStyle {
    HourMinute,
    HourMinuteSecond,
}

/// How the date is rendered in a timespan.
#[derive(Debug, Clone, Copy, PartialEq, Eq, Structural)]
pub enum DateStyle {
    Iso,
}

/// `HH:MM` or `HH:MM:SS`.
pub open spec fn time_bytes(p: DateTimeParts, style: TimeStyle) -> Seq<u8> {
    time::pad_digits(p.hour as nat, 2) + seq![58u8] + time::pad_digits(p.minute as nat, 2)
        + (match style {
        TimeStyle::HourMinute => Seq::empty(),
        TimeStyle::HourMinuteSecond => seq![58u8] + time::pad_digits(p.second as nat, 2),
    })
}

/// The date of split parts, `YYYY-MM-DD`.
pub open spec fn day_bytes_of(p: DateTimeParts) -> Seq<u8> {
    time::date_bytes(p.year as nat, p.month as nat, p.day as nat)
}

/// A span between two wall clock readings: on one day, the date once and
/// both times; across days, both dates with their times.
pub open spec fn spec_timespan(start: DateTimeParts, end: DateTimeParts, style: TimeStyle) -> Seq<
    u8,
> {
    if day_bytes_of(start) == day_bytes_of(end) {
        day_bytes_of(start) + seq![58u8, 32u8] + time_bytes(start, style) + seq![
            32u8,
            45u8,
            32u8,
        ] + time_bytes(end, style)
    } else {
        day_bytes_of(start) + seq![58u8, 32u8] + time_bytes(start, style) + seq![
            32u8,
            45u8,
            32u8,
        ] + day_bytes_of(end) + seq![58u8, 32u8] + time_bytes(end, style)
    }
}

/// Appends `HH:MM` or `HH:MM:SS`.
fn push_time(out: &mut Vec<u8>, p: &DateTimeParts, style: TimeStyle)
    ensures
        final(out)@ == old(out)@ + time_bytes(*p, style),
{
    time::push_padded_digits(out, p.hour, 2);
    out.push(58);
    time::push_padded_digits(out, p.minute, 2);
    match style {
        TimeStyle::HourMinute => (),
        TimeStyle::HourMinuteSecond => {
            out.push(58);
            time::push_padded_digits(out, p.second, 2);
        },
    }
    proof {
        assert(final(out)@ =~= old(out)@ + time_bytes(*p, style));
    }
}

/// Renders the span between two local wall clock readings, as the
/// reports print it.
pub fn timespan_string_custom(
    start: &DateTimeParts,
    end: &DateTimeParts,
    format_local_date: Option<DateStyle>,
    format_time: Option<TimeStyle>,
) -> (r: String)
    ensures
        r@ == strutil::chars_of(
            spec_timespan(*start, *end, match format_time {
                Option::Some(st) => st,
                Option::None => TimeStyle::HourMinute,
            }),
        ),
{
    let style = match format_time {
        Option::Some(st) => st,
        Option::None => TimeStyle::HourMinute,
    };
    let mut b1: Vec<u8> = Vec::new();
    time::push_date(&mut b1, start.year, start.month, start.day);
    let mut b2: Vec<u8> = Vec::new();
    time::push_date(&mut b2, end.year, end.month, end.day);
    let same: bool = strutil::bytes_eq(b1.as_slice(), b2.as_slice());
    let mut bytes: Vec<u8> = Vec::new();
    strutil::push_bytes(&mut bytes, b1.as_slice());
    bytes.push(58);
    bytes.push(32);
    push_time(&mut bytes, start, style);
    bytes.push(32);
    bytes.push(45);
    bytes.push(32);
    if !same {
        strutil::push_bytes(&mut bytes, b2.as_slice());
        bytes.push(58);
        bytes.push(32);
    }
    push_time(&mut bytes, end, style);
    proof {
        assert(bytes@ =~= spec_timespan(*start, *end, style));
        lemma_timespan_ascii(*start, *end, style);
    }
    strutil::ascii_string(&bytes)
}

/// Renders the span between two local wall clock readings with the
/// default formats.
pub fn timespan_string(start: &DateTimeParts, end: &DateTimeParts) -> (r: String)
    ensures
        r@ == strutil::chars_of(spec_timespan(*start, *end, TimeStyle::HourMinute)),
{
    timespan_string_custom(start, end, Option::None, Option::None)
}

/// A rendered timespan is ASCII.
proof fn lemma_timespan_ascii(start: DateTimeParts, end: DateTimeParts, style: TimeStyle)
    ensures
        forall|i: int|
            0 <= i < spec_timespan(start, end, style).len() ==> #[trigger] spec_timespan(
                start,
                end,
                style,
            )[i] < 128,
{
    time::lemma_pad_digits_ascii(start.year as nat, 4);
    time::lemma_pad_digits_ascii(start.month as nat, 2);
    time::lemma_pad_digits_ascii(start.day as nat, 2);
    time::lemma_pad_digits_ascii(start.hour as nat, 2);
    time::lemma_pad_digits_ascii(start.minute as nat, 2);
    time::lemma_pad_digits_ascii(start.second as nat, 2);
    time::lemma_pad_digits_ascii(end.year as nat, 4);
    time::lemma_pad_digits_ascii(end.month as nat, 2);
    time::lemma_pad_digits_ascii(end.day as nat, 2);
    time::lemma_pad_digits_ascii(end.hour as nat, 2);
    time::lemma_pad_digits_ascii(end.minute as nat, 2);
    time::lemma_pad_digits_ascii(end.second as nat, 2);
}

impl DowntimeTracker {
    /// Renders a local wall clock reading as `DD.MM.YYYY HH:MM`.
    pub fn format_datetime(datetime: &DateTimeParts) -> (r: String)
        ensures
            r@ == strutil::chars_of(
                time::pad_digits(datetime.day as nat, 2) + seq![46u8] + time::pad_digits(
                    datetime.month as nat,
                    2,
                ) + seq![46u8] + time::pad_digits(datetime.year as nat, 4) + seq![32u8]
                    + time::pad_digits(datetime.hour as nat, 2) + seq![58u8]
                    + time::pad_digits(datetime.minute as nat, 2),
            ),
    {
        let mut bytes: Vec<u8> = Vec::new();
        time::push_padded_digits(&mut bytes, datetime.day, 2);
        bytes.push(46);
        time::push_padded_digits(&mut bytes, datetime.month, 2);
        bytes.push(46);
        time::push_padded_digits(&mut bytes, datetime.year, 4);
        bytes.push(32);
        time::push_padded_digits(&mut bytes, datetime.hour, 2);
        bytes.push(58);
        time::push_padded_digits(&mut bytes, datetime.minute, 2);
        proof {
            time::lemma_pad_digits_ascii(datetime.day as nat, 2);
            time::lemma_pad_digits_ascii(datetime.month as nat, 2);
            time::lemma_pad_digits_ascii(datetime.year as nat, 4);
            time::lemma_pad_digits_ascii(datetime.hour as nat, 2);
            time::lemma_pad_digits_ascii(datetime.minute as nat, 2);
            assert forall|i: int| 0 <= i < bytes@.len() implies #[trigger] bytes@[i] < 128 by {
                time::lemma_pad_digits_ascii(datetime.day as nat, 2);
            }
        }
        let r = strutil::ascii_string(&bytes);
        proof {
            assert(bytes@ =~= time::pad_digits(datetime.day as nat, 2) + seq![46u8]
                + time::pad_digits(datetime.month as nat, 2) + seq![46u8] + time::pad_digits(
                datetime.year as nat,
                4,
            ) + seq![32u8] + time::pad_digits(datetime.hour as nat, 2) + seq![58u8]
                + time::pad_digits(datetime.minute as nat, 2));
        }
        r
    }

    /// The roughest non-zero unit of a duration with its count: whole
    /// days when there is at least one, else whole hours, else whole
    /// minutes, else whole seconds.
    pub fn human_duration_val(delta_ms: u64) -> (r: (u64, &'static str))
        ensures
            r.0 == rough_count(delta_ms as int),
            r.1@ == rough_unit(delta_ms as int),
    {
        let days: u64 = delta_ms / 86400000;
        let hours: u64 = delta_ms / 3600000;
        let minutes: u64 = delta_ms / 60000;
        let seconds: u64 = delta_ms / 1000;
        if days >= 1 {
            if days == 1 {
                (days, "day")
            } else {
                (days, "days")
            }
        } else if hours >= 1 {
            if hours == 1 {
                (hours, "hour")
            } else {
                (hours, "hours")
            }
        } else if minutes >= 1 {
            if minutes == 1 {
                (minutes, "minute")
            } else {
                (minutes, "minutes")
            }
        } else {
            if seconds == 1 {
                (seconds, "second")
            } else {
                (seconds, "seconds")
            }
        }
    }

    /// Renders a duration as its roughest non-zero unit: the count, a
    /// space, and the unit's name.
    pub fn human_duration(delta_ms: u64) -> (r: String)
        ensures
            r@ == strutil::chars_of(time::dec_digits(rough_count(delta_ms as int) as nat))
                + " "@ + rough_unit(delta_ms as int),
    {
        let pair = DowntimeTracker::human_duration_val(delta_ms);
        let mut r = crate::strutil::u64_string(pair.0);
        r.append(" ");
        r.append(pair.1);
        r
    }

    /// Renders a duration as `took` and its roughest non-zero unit.
    pub fn human_duration_text(delta_ms: u64) -> (r: String)
        ensures
            r@ == "took "@ + strutil::chars_of(
                time::dec_digits(rough_count(delta_ms as int) as nat),
            ) + " "@ + rough_unit(delta_ms as int),
    {
        let mut r = "took ".to_owned();
        let rest = DowntimeTracker::human_duration(delta_ms);
        r.append(rest.as_str());
        r
    }
}

/// The count of the roughest non-zero whole unit of a duration in
/// milliseconds: days first, then hours, minutes, and seconds.
pub open spec fn rough_count(ms: int) -> int {
    if ms >= 86400000 {
        ms / 86400000
    } else if ms >= 3600000 {
        ms / 3600000
    } else if ms >= 60000 {
        ms / 60000
    } else {
        ms / 1000
    }
}

/// The name of the roughest non-zero unit, pluralized unless the count
/// is one.
pub open spec fn rough_unit(ms: int) -> Seq<char> {
    if ms >= 86400000 {
        if rough_count(ms) == 1 {
            "day"@
        } else {
            "days"@
        }
    } else if ms >= 3600000 {
        if rough_count(ms) == 1 {
            "hour"@
        } else {
            "hours"@
        }
    } else if ms >= 60000 {
        if rough_count(ms) == 1 {
            "minute"@
        } else {
            "minutes"@
        }
    } else {
        if rough_count(ms) == 1 {
            "second"@
        } else {
            "seconds"@
        }
    }
}

impl InternetCheckResult {
    /// Renders the sample's UTC timestamp as `DD.MM.YY - HH:MM`.
    pub fn get_time(&self) -> (r: String)
        requires
            self.wf(),
        ensures
            r@ == strutil::chars_of(
                time::pad_digits(time::utc_parts(self.timestamp as int).day as nat, 2) + seq![
                    46u8,
                ] + time::pad_digits(time::utc_parts(self.timestamp as int).month as nat, 2)
                    + seq![46u8] + time::pad_digits(
                    (time::utc_parts(self.timestamp as int).year % 100) as nat,
                    2,
                ) + seq![32u8, 45u8, 32u8] + time::pad_digits(
                    time::utc_parts(self.timestamp as int).hour as nat,
                    2,
                ) + seq![58u8] + time::pad_digits(
                    time::utc_parts(self.timestamp as int).minute as nat,
                    2,
                ),
            ),
    {
        let p = time::utc_date_time(self.timestamp);
        let mut bytes: Vec<u8> = Vec::new();
        time::push_padded_digits(&mut bytes, p.day, 2);
        bytes.push(46);
        time::push_padded_digits(&mut bytes, p.month, 2);
        bytes.push(46);
        time::push_padded_digits(&mut bytes, p.year % 100, 2);
        bytes.push(32);
        bytes.push(45);
        bytes.push(32);
        time::push_padded_digits(&mut bytes, p.hour, 2);
        bytes.push(58);
        time::push_padded_digits(&mut bytes, p.minute, 2);
        proof {
            assert forall|i: int| 0 <= i < bytes@.len() implies #[trigger] bytes@[i] < 128 by {
                time::lemma_pad_digits_ascii(p.day as nat, 2);
                time::lemma_pad_digits_ascii(p.month as nat, 2);
                time::lemma_pad_digits_ascii((p.year % 100) as nat, 2);
                time::lemma_pad_digits_ascii(p.hour as nat, 2);
                time::lemma_pad_digits_ascii(p.minute as nat, 2);
            }
        }
        let r = strutil::ascii_string(&bytes);
        proof {
            assert(bytes@ =~= time::pad_digits(p.day as nat, 2) + seq![46u8] + time::pad_digits(
                p.month as nat,
                2,
            ) + seq![46u8] + time::pad_digits((p.year % 100) as nat, 2) + seq![32u8, 45u8, 32u8]
                + time::pad_digits(p.hour as nat, 2) + seq![58u8] + time::pad_digits(
                p.minute as nat,
                2,
            ));
        }
        r
    }
}

impl Outage {
    /// Renders one outage for the report: the local timespan and the
    /// humanized duration. Which wall clock readings the two endpoints
    /// map to depends on the machine's time zone, so the readings are
    /// only bounded; the timespan and duration renderings of those
    /// readings are fixed exactly.
    pub fn display_string(&self, log_precision: OutageLogPrecision) -> (r: String)
        requires
            self.start.timestamp < MAX_TIMESTAMP_MS,
            self.end.timestamp < MAX_TIMESTAMP_MS,
        ensures
            exists|sp: DateTimeParts, ep: DateTimeParts|
                time::local_reading(sp) && time::local_reading(ep) && r@ == "Outage at "@
                    + #[trigger] strutil::chars_of(
                    spec_timespan(sp, ep, precision_style(log_precision)),
                ) + " for "@ + strutil::chars_of(
                    time::spec_humanize((self@.duration() / 1000) as nat),
                ),
    {
        let sp = clock::local_date_time(self.start.timestamp as i64);
        let ep = clock::local_date_time(self.end.timestamp as i64);
        let style = match log_precision {
            OutageLogPrecision::Normal => TimeStyle::HourMinute,
            OutageLogPrecision::Exact => TimeStyle::HourMinuteSecond,
        };
        let timespan = timespan_string_custom(&sp, &ep, Option::None, Option::Some(style));
        let duration = self.duration();
        let mut r = "Outage at ".to_owned();
        r.append(timespan.as_str());
        r.append(" for ");
        let human = duration.humanize();
        r.append(human.as_str());
        proof {
            assert(r@ == "Outage at "@ + strutil::chars_of(
                spec_timespan(sp, ep, precision_style(log_precision)),
            ) + " for "@ + strutil::chars_of(
                time::spec_humanize((self@.duration() / 1000) as nat),
            ));
        }
        r
    }
}

/// The time-of-day style one precision setting renders with.
pub open spec fn precision_style(p: OutageLogPrecision) -> TimeStyle {
    match p {
        OutageLogPrecision::Normal => TimeStyle::HourMinute,
        OutageLogPrecision::Exact => TimeStyle::HourMinuteSecond,
    }
}

// ---------------------------------------------------------------------------
// Searching the reconstruction
// ---------------------------------------------------------------------------
/// The longest outage of the aggregate view: the last outage whose
/// duration no other exceeds, as a maximum search over the emission
/// order.
pub fn longest_outage(report: &Report) -> (r: Option<Outage>)
    ensures
        r is Some <==> outage_seq(all_samples(report.items@)).len() > 0,
        r is Some ==> (exists|i: int|
            0 <= i < outage_seq(all_samples(report.items@)).len() && r->0@ == #[trigger]
            outage_seq(all_samples(report.items@))[i] && (forall|j: int|
                i < j < outage_seq(all_samples(report.items@)).len() ==> (#[trigger] outage_seq(
                    all_samples(report.items@),
                )[j]).duration() < outage_seq(all_samples(report.items@))[i].duration())),
        r is Some ==> forall|i: int|
            0 <= i < outage_seq(all_samples(report.items@)).len() ==> (#[trigger] outage_seq(
                all_samples(report.items@),
            )[i]).duration() <= r->0@.duration(),
{
    let outages = report.all_outages();
    let ghost oviews = outages@.map_values(|o: Outage| o@);
    if outages.len() == 0 {
        return Option::None;
    }
    let mut best: usize = 0;
    let mut i: usize = 1;
    while i < outages.len()
        invariant
            outages@.len() > 0,
            best < i <= outages@.len(),
            oviews == outages@.map_values(|o: Outage| o@),
            forall|k: int| 0 <= k < i ==> (#[trigger] oviews[k]).duration()
                <= oviews[best as int].duration(),
            forall|k: int| best < k < i ==> (#[trigger] oviews[k]).duration()
                < oviews[best as int].duration(),
        decreases outages@.len() - i,
    {
        if outages[i].duration() >= outages[best].duration() {
            best = i;
        }
        i = i + 1;
    }
    let r = Outage::from_start_end(&outages[best].start, &outages[best].end);
    proof {
        assert(r@ == oviews[best as int]);
        assert(r@ == outage_seq(all_samples(report.items@))[best as int]);
    }
    Option::Some(r)
}

/// The per-file item with the most outages in its own view: the last
/// such item, as a maximum search over file order.
pub fn most_outages_item(report: &Report) -> (r: Option<usize>)
    ensures
        r is Some <==> report.items@.len() > 0,
        r is Some ==> 0 <= r->0 < report.items@.len(),
        r is Some ==> forall|k: int|
            0 <= k < report.items@.len() ==> outage_seq(
                (#[trigger] report.items@[k]).samples(),
            ).len() <= outage_seq(report.items@[r->0 as int].samples()).len(),
        r is Some ==> forall|k: int|
            r->0 < k < report.items@.len() ==> outage_seq(
                (#[trigger] report.items@[k]).samples(),
            ).len() < outage_seq(report.items@[r->0 as int].samples()).len(),
{
    if report.items.len() == 0 {
        return Option::None;
    }
    let mut best: usize = 0;
    let mut best_count: usize = report.items[0].outages(OutageLogPrecision::Normal).len();
    let mut i: usize = 1;
    while i < report.items.len()
        invariant
            report.items@.len() > 0,
            best < i <= report.items@.len(),
            best_count == outage_seq(report.items@[best as int].samples()).len(),
            forall|k: int|
                0 <= k < i ==> outage_seq((#[trigger] report.items@[k]).samples()).len()
                    <= best_count,
            forall|k: int|
                best < k < i ==> outage_seq((#[trigger] report.items@[k]).samples()).len()
                    < best_count,
        decreases report.items@.len() - i,
    {
        let count = report.items[i].outages(OutageLogPrecision::Normal).len();
        if count >= best_count {
            best = i;
            best_count = count;
        }
        i = i + 1;
    }
    Option::Some(best)
}


/// What the find command searches for.
#[derive(Debug, Clone, Copy, PartialEq, Eq, Structural)]
pub enum FindAction {
    Longest,
    MostOutages,
}

/// Everything the find command needs.
#[derive(Debug)]
pub struct FindArgs {
    pub action: FindAction,
    pub dir: Option<String>,
}

} // verus!
