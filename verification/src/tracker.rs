//! Downtime reconstruction: a single-pass fold of ordered samples into
//! closed outage intervals.

use vstd::prelude::*;

use crate::model::{Connectivity, InternetCheckResult, SampleV};

verus! {

/// A closed outage: the first sample after a transition to Offline and the
/// first subsequent Online sample. The endpoints are owned copies of the
/// two samples.
#[derive(Debug)]
pub struct Outage {
    pub start: InternetCheckResult,
    pub end: InternetCheckResult,
}

/// Mathematical value of an outage.
pub struct OutageV {
    pub start: SampleV,
    pub end: SampleV,
}

impl View for Outage {
    type V = OutageV;

    open spec fn view(&self) -> OutageV {
        OutageV { start: self.start@, end: self.end@ }
    }
}

impl OutageV {
    /// Milliseconds between the endpoints; zero when the end does not lie
    /// after the start.
    pub open spec fn duration(self) -> int {
        if self.end.timestamp >= self.start.timestamp {
            self.end.timestamp - self.start.timestamp
        } else {
            0
        }
    }
}

impl Outage {
    /// Builds the closed interval between two samples; for ordered
    /// endpoints its duration is exactly the difference of the two
    /// timestamps.
    pub fn from_start_end(start: &InternetCheckResult, end: &InternetCheckResult) -> (r: Outage)
        ensures
            r@.start == start@,
            r@.end == end@,
            start.timestamp <= end.timestamp ==> r@.duration() == end.timestamp
                - start.timestamp,
    {
        Outage { start: start.clone(), end: end.clone() }
    }

    /// Length of the outage in milliseconds (zero when the endpoints are
    /// out of order).
    pub fn duration(&self) -> (r: u64)
        ensures
            r == self@.duration(),
    {
        if self.end.timestamp >= self.start.timestamp {
            self.end.timestamp - self.start.timestamp
        } else {
            0
        }
    }
}

/// View of an optional emitted outage.
pub open spec fn emitted_view(r: Option<Outage>) -> Option<OutageV> {
    match r {
        Option::Some(o) => Option::Some(o@),
        Option::None => Option::None,
    }
}

/// The tracker state after observing one sample: an Offline sample is
/// remembered as the pending start when nothing is pending; an Online
/// sample clears the pending start.
pub open spec fn step_state(state: Option<SampleV>, s: SampleV) -> Option<SampleV> {
    match s.connectivity {
        Connectivity::Offline => match state {
            Option::Some(first) => Option::Some(first),
            Option::None => Option::Some(s),
        },
        Connectivity::Online => Option::None,
    }
}

/// The outage emitted when one sample is observed: exactly when a start is
/// pending and the sample is Online.
pub open spec fn step_emit(state: Option<SampleV>, s: SampleV) -> Option<OutageV> {
    match state {
        Option::Some(first) => if s.connectivity is Online {
            Option::Some(OutageV { start: first, end: s })
        } else {
            Option::None
        },
        Option::None => Option::None,
    }
}

/// The tracker state after folding a whole sequence of samples, starting
/// from `init`.
pub open spec fn fold_state(init: Option<SampleV>, samples: Seq<SampleV>) -> Option<SampleV>
    decreases samples.len(),
{
    if samples.len() == 0 {
        init
    } else {
        step_state(fold_state(init, samples.drop_last()), samples.last())
    }
}

/// All outages emitted while folding a sequence of samples from `init`, in
/// emission order.
pub open spec fn outages_from(init: Option<SampleV>, samples: Seq<SampleV>) -> Seq<OutageV>
    decreases samples.len(),
{
    if samples.len() == 0 {
        Seq::empty()
    } else {
        let pre = samples.drop_last();
        outages_from(init, pre) + match step_emit(fold_state(init, pre), samples.last()) {
            Option::Some(o) => seq![o],
            Option::None => Seq::empty(),
        }
    }
}

/// The outages of a sample sequence, folded from the idle state.
pub open spec fn outage_seq(samples: Seq<SampleV>) -> Seq<OutageV> {
    outages_from(Option::None, samples)
}

/// Single-pass reducer that folds an ordered sequence of samples into
/// closed outage intervals. Auxiliary state is exactly one optional
/// pending sample.
pub struct DowntimeTracker {
    first_offline: Option<InternetCheckResult>,
}

impl DowntimeTracker {
    /// The pending "first offline sample since the last Online sample",
    /// if any.
    pub closed spec fn pending(&self) -> Option<SampleV> {
        match self.first_offline {
            Option::Some(s) => Option::Some(s@),
            Option::None => Option::None,
        }
    }

    /// A fresh tracker with nothing pending.
    pub fn new() -> (r: Self)
        ensures
            r.pending() is None,
    {
        DowntimeTracker { first_offline: Option::None }
    }

    /// Observes one sample: updates the pending state per the transition
    /// table and returns the closed outage exactly when one ends here.
    pub fn track(&mut self, result: &InternetCheckResult) -> (r: Option<Outage>)
        ensures
            final(self).pending() == step_state(old(self).pending(), result@),
            emitted_view(r) == step_emit(old(self).pending(), result@),
    {
        match result.connectivity() {
            Connectivity::Offline => {
                if self.first_offline.is_none() {
                    self.first_offline = Option::Some(result.clone());
                }
                Option::None
            },
            Connectivity::Online => {
                let emitted: Option<Outage> = match &self.first_offline {
                    Option::Some(first) => Option::Some(
                        Outage { start: first.clone(), end: result.clone() },
                    ),
                    Option::None => Option::None,
                };
                self.first_offline = Option::None;
                emitted
            },
        }
    }
}

/// Folds a whole sample sequence with a fresh tracker and collects every
/// emitted outage, in order.
pub fn collect_outages(samples: &Vec<InternetCheckResult>) -> (r: Vec<Outage>)
    ensures
        r@.map_values(|o: Outage| o@) == outage_seq(
            samples@.map_values(|s: InternetCheckResult| s@),
        ),
{
    let ghost views = samples@.map_values(|s: InternetCheckResult| s@);
    let mut tracker = DowntimeTracker::new();
    let mut out: Vec<Outage> = Vec::new();
    let mut i: usize = 0;
    while i < samples.len()
        invariant
            i <= samples@.len(),
            views == samples@.map_values(|s: InternetCheckResult| s@),
            tracker.pending() == fold_state(Option::None, views.subrange(0, i as int)),
            out@.map_values(|o: Outage| o@) == outages_from(
                Option::None,
                views.subrange(0, i as int),
            ),
        decreases samples@.len() - i,
    {
        proof {
            assert(views.subrange(0, i + 1 as int).drop_last() =~= views.subrange(0, i as int));
            assert(views.subrange(0, i + 1 as int).last() == views[i as int]);
            assert(views[i as int] == samples@[i as int]@);
        }
        let emitted = tracker.track(&samples[i]);
        match emitted {
            Option::Some(o) => {
                out.push(o);
            },
            Option::None => (),
        }
        i = i + 1;
        proof {
            assert(out@.map_values(|o: Outage| o@) =~= outages_from(
                Option::None,
                views.subrange(0, i as int),
            ));
        }
    }
    proof {
        assert(views.subrange(0, views.len() as int) =~= views);
    }
    out
}

/// With no pending start and every sample Online, the tracker never
/// remembers a sample and never emits.
proof fn lemma_all_online_from(samples: Seq<SampleV>)
    requires
        forall|i: int|
            0 <= i < samples.len() ==> (#[trigger] samples[i]).connectivity is Online,
    ensures
        fold_state(Option::None, samples) is None,
        outages_from(Option::None, samples) =~= Seq::<OutageV>::empty(),
    decreases samples.len(),
{
    if samples.len() > 0 {
        lemma_all_online_from(samples.drop_last());
        assert(samples.last() == samples[samples.len() - 1]);
    }
}

/// An all-Online sample sequence yields no outage at all.
pub proof fn lemma_all_online_no_outage(samples: Seq<SampleV>)
    requires
        forall|i: int|
            0 <= i < samples.len() ==> (#[trigger] samples[i]).connectivity is Online,
    ensures
        outage_seq(samples).len() == 0,
{
    lemma_all_online_from(samples);
}

/// An Online, Offline, Online sequence yields exactly one outage: it
/// starts at the Offline sample, ends at the final Online sample, and
/// (for ordered timestamps) lasts exactly the difference of the two
/// timestamps.
pub proof fn lemma_single_dip_one_outage(s0: SampleV, s1: SampleV, s2: SampleV)
    requires
        s0.connectivity is Online,
        s1.connectivity is Offline,
        s2.connectivity is Online,
    ensures
        outage_seq(seq![s0, s1, s2]) =~= seq![OutageV { start: s1, end: s2 }],
        s1.timestamp <= s2.timestamp ==> outage_seq(seq![s0, s1, s2])[0].duration()
            == s2.timestamp - s1.timestamp,
{
    reveal_with_fuel(fold_state, 5);
    reveal_with_fuel(outages_from, 5);
    let all = seq![s0, s1, s2];
    assert(all.drop_last() =~= seq![s0, s1]);
    assert(seq![s0, s1].drop_last() =~= seq![s0]);
    assert(seq![s0].drop_last() =~= Seq::<SampleV>::empty());
    assert(fold_state(Option::None, seq![s0]) is None);
    assert(fold_state(Option::None, seq![s0, s1]) == Option::Some(s1));
    assert(outages_from(Option::None, seq![s0]) =~= Seq::<OutageV>::empty());
    assert(outages_from(Option::None, seq![s0, s1]) =~= Seq::<OutageV>::empty());
}

/// Without a leading Online sample the outage still starts at the first
/// Offline sample, not at a later one.
pub proof fn lemma_leading_offline_starts_first(s0: SampleV, s1: SampleV, s2: SampleV)
    requires
        s0.connectivity is Offline,
        s1.connectivity is Offline,
        s2.connectivity is Online,
    ensures
        outage_seq(seq![s0, s1, s2]) =~= seq![OutageV { start: s0, end: s2 }],
{
    reveal_with_fuel(fold_state, 5);
    reveal_with_fuel(outages_from, 5);
    let all = seq![s0, s1, s2];
    assert(all.drop_last() =~= seq![s0, s1]);
    assert(seq![s0, s1].drop_last() =~= seq![s0]);
    assert(seq![s0].drop_last() =~= Seq::<SampleV>::empty());
    assert(fold_state(Option::None, seq![s0]) == Option::Some(s0));
    assert(fold_state(Option::None, seq![s0, s1]) == Option::Some(s0));
    assert(outages_from(Option::None, seq![s0]) =~= Seq::<OutageV>::empty());
    assert(outages_from(Option::None, seq![s0, s1]) =~= Seq::<OutageV>::empty());
}

/// A sequence that ends while offline emits nothing for the dangling
/// interval: the never-recovered outage is dropped.
pub proof fn lemma_never_recovered_dropped(s0: SampleV, s1: SampleV)
    requires
        s0.connectivity is Online,
        s1.connectivity is Offline,
    ensures
        outage_seq(seq![s0, s1]).len() == 0,
{
    reveal_with_fuel(fold_state, 5);
    reveal_with_fuel(outages_from, 5);
    let all = seq![s0, s1];
    assert(all.drop_last() =~= seq![s0]);
    assert(seq![s0].drop_last() =~= Seq::<SampleV>::empty());
    assert(outages_from(Option::None, seq![s0]) =~= Seq::<OutageV>::empty());
}

} // verus!
