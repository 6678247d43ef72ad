//! A sliding window of load samples and the time of the last change of the
//! core count.
//!
//! Loads are thousandths of a percent, summed over the active logical cores.
//! Times are milliseconds on a monotonic clock.

use vstd::prelude::*;
use std::collections::VecDeque;
use std::time::Instant;
use crate::clock::millis_since;

verus! {

/// One load measurement and the time at which it was taken.
#[derive(Debug, Clone, Copy, PartialEq, Eq, Structural)]
pub struct LoadSample {
    pub load: u64,
    pub at_ms: u64,
}

/// The sum of the loads of `samples`.
pub open spec fn total_load(samples: Seq<LoadSample>) -> nat
    decreases samples.len(),
{
    if samples.len() == 0 {
        0
    } else {
        total_load(samples.drop_last()) + samples.last().load as nat
    }
}

/// The arithmetic mean of the loads of `samples`, rounded down; 0 for no
/// samples.
pub open spec fn average_load(samples: Seq<LoadSample>) -> nat {
    if samples.len() == 0 {
        0
    } else {
        total_load(samples) / samples.len()
    }
}

/// `sample` is no older than `window` at time `now`.
pub open spec fn in_window(sample: LoadSample, window: nat, now: nat) -> bool {
    sample.at_ms + window >= now
}

/// The samples of `samples` that are no older than `window` at time `now`, in
/// their order.
pub open spec fn recent_samples(samples: Seq<LoadSample>, window: nat, now: nat) -> Seq<
    LoadSample,
>
    decreases samples.len(),
{
    if samples.len() == 0 {
        Seq::empty()
    } else if in_window(samples.last(), window, now) {
        recent_samples(samples.drop_last(), window, now).push(samples.last())
    } else {
        recent_samples(samples.drop_last(), window, now)
    }
}

/// No sample is older than a sample before it.
pub open spec fn time_ordered(samples: Seq<LoadSample>) -> bool {
    forall|i: int, j: int| 0 <= i <= j < samples.len() ==> samples[i].at_ms <= samples[j].at_ms
}

/// Every sample is no older than `window` at time `now`.
pub open spec fn all_in_window(samples: Seq<LoadSample>, window: nat, now: nat) -> bool {
    forall|i: int| 0 <= i < samples.len() ==> in_window(samples[i], window, now)
}

/// The time under which a measurement read at `now` is stored: `now`, or the
/// time of the newest sample where the reading lies before it.
pub open spec fn admitted_time(samples: Seq<LoadSample>, now: u64) -> u64 {
    if samples.len() > 0 && samples.last().at_ms > now {
        samples.last().at_ms
    } else {
        now
    }
}

/// The samples held after a measurement of `load` read at `now`: the new
/// sample is appended, and what is then older than `window` is dropped.
pub open spec fn after_measurement(
    samples: Seq<LoadSample>,
    window: nat,
    load: u64,
    now: u64,
) -> Seq<LoadSample> {
    let at_ms = admitted_time(samples, now);
    recent_samples(samples.push(LoadSample { load, at_ms }), window, at_ms as nat)
}

/// The time that has passed at `now` since `last_change`; 0 where `now` lies
/// before it.
pub open spec fn elapsed_since(last_change: nat, now: nat) -> nat {
    if now >= last_change {
        (now - last_change) as nat
    } else {
        0
    }
}

/// Where the first `stale` samples are too old and all others are not, the
/// recent samples are the others.
pub proof fn lemma_recent_is_suffix(samples: Seq<LoadSample>, window: nat, now: nat, stale: int)
    requires
        0 <= stale <= samples.len(),
        forall|i: int| 0 <= i < stale ==> !in_window(samples[i], window, now),
        forall|i: int| stale <= i < samples.len() ==> in_window(samples[i], window, now),
    ensures
        recent_samples(samples, window, now) == samples.skip(stale),
    decreases samples.len(),
{
    if samples.len() == 0 {
        assert(samples.skip(stale) =~= Seq::<LoadSample>::empty());
    } else {
        let head = samples.drop_last();
        if stale == samples.len() {
            assert(!in_window(samples[samples.len() - 1], window, now));
            lemma_recent_is_suffix(head, window, now, stale - 1);
            assert(head.skip(stale - 1) =~= samples.skip(stale));
        } else {
            assert(in_window(samples[samples.len() - 1], window, now));
            lemma_recent_is_suffix(head, window, now, stale);
            assert(head.skip(stale).push(samples.last()) =~= samples.skip(stale));
        }
    }
}

/// The load history of the governor.
pub struct LoadTracker {
    history: VecDeque<LoadSample>,
    window_ms: u64,
    last_change: u64,
    origin: Instant,
}

impl LoadTracker {
    /// The samples are in the order of their times, and none is older than the
    /// window at the time of the newest.
    pub closed spec fn wf(&self) -> bool {
        &&& time_ordered(self.history@)
        &&& self.history@.len() > 0 ==> all_in_window(
            self.history@,
            self.window_ms as nat,
            self.history@.last().at_ms as nat,
        )
    }

    /// The samples held, oldest first.
    pub closed spec fn samples(&self) -> Seq<LoadSample> {
        self.history@
    }

    /// The length of the window in milliseconds.
    pub closed spec fn window(&self) -> u64 {
        self.window_ms
    }

    /// The time of the last recorded change of the core count.
    pub closed spec fn changed_at(&self) -> u64 {
        self.last_change
    }

    /// A tracker with no samples and a window of `window_ms` milliseconds. Its
    /// clock starts now, at 0, and that is also the time of the last change.
    pub fn new(window_ms: u64) -> (tracker: LoadTracker)
        ensures
            tracker.wf(),
            tracker.samples() == Seq::<LoadSample>::empty(),
            tracker.window() == window_ms,
            tracker.changed_at() == 0,
    {
        LoadTracker {
            history: VecDeque::new(),
            window_ms,
            last_change: 0,
            origin: Instant::now(),
        }
    }

    /// The time on the tracker's clock, in milliseconds since the tracker was
    /// made.
    pub fn now_ms(&self) -> (now: u64) {
        millis_since(&self.origin)
    }

    /// Number of samples held.
    pub fn len(&self) -> (count: usize)
        ensures
            count == self.samples().len(),
    {
        self.history.len()
    }

    /// Stores a measurement of `load` read at `now_ms` and drops what is then
    /// older than the window. A reading that lies before the newest sample is
    /// stored under that sample's time, so that the order of times is kept.
    pub fn add_measurement_at(&mut self, load: u64, now_ms: u64)
        requires
            old(self).wf(),
        ensures
            final(self).wf(),
            final(self).samples() == after_measurement(
                old(self).samples(),
                old(self).window() as nat,
                load,
                now_ms,
            ),
            final(self).samples().len() > 0,
            final(self).samples().last() == (LoadSample {
                load,
                at_ms: admitted_time(old(self).samples(), now_ms),
            }),
            time_ordered(final(self).samples()),
            all_in_window(
                final(self).samples(),
                old(self).window() as nat,
                admitted_time(old(self).samples(), now_ms) as nat,
            ),
            final(self).window() == old(self).window(),
            final(self).changed_at() == old(self).changed_at(),
    {
        let ghost before = self.history@;
        let ghost window = self.window_ms as nat;
        let count = self.history.len();
        let at_ms: u64 = if count > 0 && self.history[count - 1].at_ms > now_ms {
            self.history[count - 1].at_ms
        } else {
            now_ms
        };
        assert(at_ms == admitted_time(before, now_ms));
        let ghost mut stale: int = 0;
        loop
            invariant
                0 <= stale <= before.len(),
                self.history@ == before.skip(stale),
                self.window_ms == window,
                self.last_change == old(self).last_change,
                time_ordered(before),
                forall|i: int| 0 <= i < stale ==> !in_window(before[i], window, at_ms as nat),
            ensures
                forall|i: int| stale <= i < before.len() ==> in_window(before[i], window, at_ms as nat),
            decreases before.len() - stale,
        {
            if self.history.len() == 0 {
                break ;
            }
            let oldest = self.history[0];
            assert(oldest == before[stale]);
            if oldest.at_ms as u128 + self.window_ms as u128 >= at_ms as u128 {
                proof {
                    assert forall|i: int| stale <= i < before.len() implies in_window(
                        before[i],
                        window,
                        at_ms as nat,
                    ) by {
                        assert(before[stale].at_ms <= before[i].at_ms);
                    }
                }
                break ;
            }
            proof {
                assert(before.skip(stale).subrange(1, before.skip(stale).len() as int)
                    =~= before.skip(stale + 1));
            }
            self.history.pop_front();
            proof {
                stale = stale + 1;
            }
        }
        let sample = LoadSample { load, at_ms };
        proof {
            let kept = before.skip(stale);
            let pushed = before.push(sample);
            let held = kept.push(sample);
            assert forall|i: int, j: int| 0 <= i <= j < held.len() implies held[i].at_ms
                <= held[j].at_ms by {
                if j < kept.len() {
                    assert(held[i] == before[stale + i]);
                    assert(held[j] == before[stale + j]);
                } else if i < kept.len() {
                    assert(held[i] == before[stale + i]);
                }
            }
            assert forall|i: int| 0 <= i < held.len() implies in_window(
                held[i],
                window,
                at_ms as nat,
            ) by {
                if i < kept.len() {
                    assert(held[i] == before[stale + i]);
                }
            }
            assert forall|i: int| 0 <= i < stale implies !in_window(
                pushed[i],
                window,
                at_ms as nat,
            ) by {
                assert(pushed[i] == before[i]);
            }
            assert forall|i: int| stale <= i < pushed.len() implies in_window(
                pushed[i],
                window,
                at_ms as nat,
            ) by {
                if i < before.len() {
                    assert(pushed[i] == before[i]);
                }
            }
            lemma_recent_is_suffix(pushed, window, at_ms as nat, stale);
            assert(pushed.skip(stale) =~= held);
        }
        self.history.push_back(sample);
    }

    /// Stores a measurement of `load` taken now, by the tracker's clock, as
    /// `add_measurement_at` does.
    pub fn add_measurement(&mut self, load: u64)
        requires
            old(self).wf(),
        ensures
            final(self).wf(),
            exists|now_ms: u64|
                final(self).samples() == after_measurement(
                    old(self).samples(),
                    old(self).window() as nat,
                    load,
                    now_ms,
                ),
            final(self).samples().len() > 0,
            final(self).samples().last().load == load,
            final(self).window() == old(self).window(),
            final(self).changed_at() == old(self).changed_at(),
    {
        let now_ms = self.now_ms();
        self.add_measurement_at(load, now_ms);
    }

    /// The arithmetic mean of the loads held, rounded down; 0 where no sample
    /// is held.
    pub fn get_average(&self) -> (average: u64)
        ensures
            average == average_load(self.samples()),
    {
        let count = self.history.len();
        if count == 0 {
            return 0;
        }
        let mut sum: u128 = 0;
        let mut i: usize = 0;
        proof {
            assert(self.history@.take(0).len() == 0);
        }
        while i < count
            invariant
                i <= count,
                count == self.history@.len(),
                sum == total_load(self.history@.take(i as int)),
                sum <= i * 0xffff_ffff_ffff_ffff,
            decreases count - i,
        {
            proof {
                assert(self.history@.take(i + 1).drop_last() =~= self.history@.take(i as int));
                assert(self.history@.take(i + 1).last() == self.history@[i as int]);
                assert(i * 0xffff_ffff_ffff_ffff + 0xffff_ffff_ffff_ffff <= usize::MAX
                    * 0xffff_ffff_ffff_ffff + 0xffff_ffff_ffff_ffff) by (nonlinear_arith)
                    requires
                        i <= usize::MAX,
                ;
                assert((i + 1) * 0xffff_ffff_ffff_ffff == i * 0xffff_ffff_ffff_ffff
                    + 0xffff_ffff_ffff_ffff) by (nonlinear_arith);
            }
            sum = sum + self.history[i].load as u128;
            i += 1;
        }
        proof {
            assert(self.history@.take(i as int) =~= self.history@);
            assert(sum / (count as u128) <= 0xffff_ffff_ffff_ffff) by (nonlinear_arith)
                requires
                    sum <= count * 0xffff_ffff_ffff_ffff,
                    count > 0,
            ;
        }
        (sum / (count as u128)) as u64
    }

    /// Takes `now_ms` as the time of the last change of the core count.
    pub fn record_change_at(&mut self, now_ms: u64)
        ensures
            final(self).changed_at() == now_ms,
            final(self).samples() == old(self).samples(),
            final(self).window() == old(self).window(),
            final(self).wf() == old(self).wf(),
    {
        self.last_change = now_ms;
    }

    /// Takes the present time, by the tracker's clock, as the time of the last
    /// change of the core count, and returns that time.
    pub fn record_change(&mut self) -> (now_ms: u64)
        ensures
            final(self).changed_at() == now_ms,
            final(self).samples() == old(self).samples(),
            final(self).window() == old(self).window(),
            final(self).wf() == old(self).wf(),
    {
        let now_ms = self.now_ms();
        self.record_change_at(now_ms);
        now_ms
    }

    /// The time of the last recorded change, or 0, the time at which the
    /// tracker was made, if none was recorded.
    pub fn last_change(&self) -> (at_ms: u64)
        ensures
            at_ms == self.changed_at(),
    {
        self.last_change
    }

    /// Milliseconds that have passed at `now_ms` since the last change.
    pub fn time_since_last_change_at(&self, now_ms: u64) -> (elapsed: u64)
        ensures
            elapsed == elapsed_since(self.changed_at() as nat, now_ms as nat),
    {
        if now_ms >= self.last_change {
            now_ms - self.last_change
        } else {
            0
        }
    }

    /// Milliseconds that have passed since the last change, by the tracker's
    /// clock.
    pub fn time_since_last_change(&self) -> (elapsed: u64)
        ensures
            exists|now_ms: u64| elapsed == elapsed_since(self.changed_at() as nat, now_ms as nat),
    {
        let now_ms = self.now_ms();
        self.time_since_last_change_at(now_ms)
    }
}

} // verus!
