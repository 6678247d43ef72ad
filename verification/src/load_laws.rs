//! What holds of the load history over any run of measurements.

use vstd::prelude::*;
use crate::load_tracker::{
    admitted_time, after_measurement, average_load, elapsed_since, in_window, recent_samples,
    LoadSample,
};

verus! {

/// One call of `add_measurement_at`: the load and the clock reading.
pub struct Measurement {
    pub load: u64,
    pub now_ms: u64,
}

/// What a tracker with window `window` that started empty holds after the
/// measurements `calls`, made in this order.
pub open spec fn held_after(calls: Seq<Measurement>, window: nat) -> Seq<LoadSample>
    decreases calls.len(),
{
    if calls.len() == 0 {
        Seq::empty()
    } else {
        after_measurement(
            held_after(calls.drop_last(), window),
            window,
            calls.last().load,
            calls.last().now_ms,
        )
    }
}

/// Every measurement of `calls` as a sample, under the time at which it was
/// stored, with nothing dropped.
pub open spec fn all_measured(calls: Seq<Measurement>) -> Seq<LoadSample>
    decreases calls.len(),
{
    if calls.len() == 0 {
        Seq::empty()
    } else {
        let earlier = all_measured(calls.drop_last());
        earlier.push(
            LoadSample {
                load: calls.last().load,
                at_ms: admitted_time(earlier, calls.last().now_ms),
            },
        )
    }
}

/// Dropping what is too old at an earlier time and then what is too old at a
/// later time leaves what is not too old at the later time.
pub proof fn lemma_recent_twice(samples: Seq<LoadSample>, window: nat, earlier: nat, later: nat)
    requires
        earlier <= later,
    ensures
        recent_samples(recent_samples(samples, window, earlier), window, later) == recent_samples(
            samples,
            window,
            later,
        ),
    decreases samples.len(),
{
    if samples.len() > 0 {
        let head = samples.drop_last();
        let newest = samples.last();
        lemma_recent_twice(head, window, earlier, later);
        if in_window(newest, window, earlier) {
            let kept = recent_samples(head, window, earlier);
            assert(kept.push(newest).drop_last() =~= kept);
        }
    }
}

/// After any run of measurements the tracker holds exactly those of all the
/// measurements that are no older than the window at the time of the newest
/// one, and the newest one is among them.
pub proof fn lemma_window_holds_recent(calls: Seq<Measurement>, window: nat)
    requires
        calls.len() > 0,
    ensures
        held_after(calls, window) == recent_samples(
            all_measured(calls),
            window,
            all_measured(calls).last().at_ms as nat,
        ),
        held_after(calls, window).len() > 0,
        held_after(calls, window).last() == all_measured(calls).last(),
    decreases calls.len(),
{
    let before = calls.drop_last();
    let held = held_after(before, window);
    let all = all_measured(before);
    if before.len() > 0 {
        lemma_window_holds_recent(before, window);
    }
    let at_ms = admitted_time(all, calls.last().now_ms);
    assert(at_ms == admitted_time(held, calls.last().now_ms));
    let sample = LoadSample { load: calls.last().load, at_ms };
    assert(held.push(sample).drop_last() =~= held);
    assert(all.push(sample).drop_last() =~= all);
    assert(in_window(sample, window, at_ms as nat));
    if before.len() > 0 {
        lemma_recent_twice(all, window, all.last().at_ms as nat, at_ms as nat);
    }
}

/// The average over the window is the mean of exactly those measurements that
/// are no older than the window at the time of the newest one.
pub proof fn lemma_average_is_mean_of_recent(calls: Seq<Measurement>, window: nat)
    requires
        calls.len() > 0,
    ensures
        average_load(held_after(calls, window)) == average_load(
            recent_samples(
                all_measured(calls),
                window,
                all_measured(calls).last().at_ms as nat,
            ),
        ),
{
    lemma_window_holds_recent(calls, window);
}

/// While no change is recorded, the time since the last change does not go
/// down as the clock goes on.
pub proof fn lemma_elapsed_monotonic(last_change: nat, earlier: nat, later: nat)
    requires
        earlier <= later,
    ensures
        elapsed_since(last_change, earlier) <= elapsed_since(last_change, later),
{
}

} // verus!
