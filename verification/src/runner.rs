//! Drift-compensated scheduling: the arithmetic that keeps invocation
//! start times evenly spaced.

use vstd::prelude::*;

verus! {

/// Sleep before the next tick: the configured interval minus the time the
/// previous callback took, clamped at zero. A callback that overruns the
/// interval makes the next tick fire immediately.
pub open spec fn spec_next_delay(interval: int, elapsed: int) -> int {
    if elapsed >= interval {
        0
    } else {
        interval - elapsed
    }
}

/// Drift compensation for one tick: how long to sleep after a callback
/// that ran for `elapsed` milliseconds under a configured `interval`.
pub fn next_delay(interval: u64, elapsed: u64) -> (r: u64)
    ensures
        r == spec_next_delay(interval as int, elapsed as int),
{
    if elapsed >= interval {
        0
    } else {
        interval - elapsed
    }
}

/// Invocation start times of a drift-compensated loop: the first callback
/// starts at `first`; each later one starts when the previous callback has
/// finished and the compensated delay has passed.
pub open spec fn start_times(first: int, interval: int, elapsed: Seq<int>) -> Seq<int>
    decreases elapsed.len(),
{
    if elapsed.len() == 0 {
        seq![first]
    } else {
        let pre = start_times(first, interval, elapsed.drop_last());
        pre.push(pre.last() + elapsed.last() + spec_next_delay(interval, elapsed.last()))
    }
}

/// There is one start time per callback execution, plus the first.
pub proof fn lemma_start_times_len(first: int, interval: int, elapsed: Seq<int>)
    ensures
        start_times(first, interval, elapsed).len() == elapsed.len() + 1,
    decreases elapsed.len(),
{
    if elapsed.len() > 0 {
        lemma_start_times_len(first, interval, elapsed.drop_last());
    }
}

/// Drift compensation keeps consecutive start times exactly one interval
/// apart whenever the callback finishes within the interval; when it
/// overruns, the next start follows immediately after the callback ends.
pub proof fn lemma_tick_spacing(first: int, interval: int, elapsed: Seq<int>, k: int)
    requires
        0 <= k < elapsed.len(),
    ensures
        start_times(first, interval, elapsed).len() == elapsed.len() + 1,
        elapsed[k] <= interval ==> start_times(first, interval, elapsed)[k + 1] - start_times(
            first,
            interval,
            elapsed,
        )[k] == interval,
        elapsed[k] > interval ==> start_times(first, interval, elapsed)[k + 1] - start_times(
            first,
            interval,
            elapsed,
        )[k] == elapsed[k],
    decreases elapsed.len(),
{
    lemma_start_times_len(first, interval, elapsed);
    let pre = elapsed.drop_last();
    lemma_start_times_len(first, interval, pre);
    if k == elapsed.len() - 1 {
        assert(start_times(first, interval, elapsed)[k] == start_times(first, interval, pre)[k]);
    } else {
        lemma_tick_spacing(first, interval, pre, k);
        assert(start_times(first, interval, elapsed)[k] == start_times(first, interval, pre)[k]);
        assert(start_times(first, interval, elapsed)[k + 1] == start_times(
            first,
            interval,
            pre,
        )[k + 1]);
    }
}

} // verus!
