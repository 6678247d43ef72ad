//! The rule that turns the average load into a wanted count of logical cores.
//!
//! The rule has a neutral band around the load threshold: the count goes up
//! only above six fifths of the threshold and down only below four fifths of
//! it, by two cores at a time.

use vstd::prelude::*;

verus! {

/// What was sampled of one logical core: whether it is online, and its
/// utilisation in load units.
#[derive(Debug, Clone, Copy, PartialEq, Eq, Structural)]
pub struct CoreSample {
    pub online: bool,
    pub usage: u64,
}

/// The summed utilisation of the active cores among `samples`, where
/// `samples[i]` belongs to logical core `i`. Core 0 always counts as active.
pub open spec fn active_load(samples: Seq<CoreSample>) -> nat
    decreases samples.len(),
{
    if samples.len() == 0 {
        0
    } else {
        active_load(samples.drop_last()) + if samples.len() == 1 || samples.last().online {
            samples.last().usage as nat
        } else {
            0nat
        }
    }
}

/// `value`, or `u64::MAX` where it is larger than that.
pub open spec fn capped_u64(value: nat) -> u64 {
    if value > u64::MAX {
        u64::MAX
    } else {
        value as u64
    }
}

/// The largest count of cores that the percentage cap allows: `cap` percent
/// of `total`, rounded up, and never less than `min_cores`.
pub open spec fn percentage_limit(total: nat, cap: nat, min_cores: nat) -> nat {
    let share = (total * cap + 99) / 100;
    if share < min_cores {
        min_cores
    } else {
        share
    }
}

/// The average load lies above six fifths of the threshold.
pub open spec fn above_band(average: nat, threshold: nat) -> bool {
    5 * average > 6 * threshold
}

/// The average load lies below four fifths of the threshold.
pub open spec fn below_band(average: nat, threshold: nat) -> bool {
    5 * average < 4 * threshold
}

/// The count of cores wanted after one evaluation outside the cooldown.
///
/// Above the band, and with cores to spare, the count rises by two, up to
/// `total`. Below the band, and above `min_cores`, it falls by two, but not
/// under `min_cores`, and is then cut to `limit`. Otherwise it stays.
pub open spec fn scaled_target(
    current: nat,
    total: nat,
    min_cores: nat,
    limit: nat,
    average: nat,
    threshold: nat,
) -> nat {
    if above_band(average, threshold) && current < total {
        if current + 2 < total {
            current + 2
        } else {
            total
        }
    } else if below_band(average, threshold) && current > min_cores {
        let lowered = if current - 2 > min_cores {
            (current - 2) as nat
        } else {
            min_cores
        };
        if lowered < limit {
            lowered
        } else {
            limit
        }
    } else {
        current
    }
}

/// The summed utilisation of the active cores, capped at `u64::MAX`.
pub fn calculate_current_load(samples: &Vec<CoreSample>) -> (load: u64)
    ensures
        load == capped_u64(active_load(samples@)),
{
    let mut load: u64 = 0;
    let mut i: usize = 0;
    proof {
        assert(samples@.take(0).len() == 0);
    }
    while i < samples.len()
        invariant
            i <= samples.len(),
            load == capped_u64(active_load(samples@.take(i as int))),
        decreases samples.len() - i,
    {
        proof {
            assert(samples@.take(i + 1).drop_last() =~= samples@.take(i as int));
            assert(samples@.take(i + 1).last() == samples@[i as int]);
        }
        if i == 0 || samples[i].online {
            load = load.saturating_add(samples[i].usage);
        }
        i += 1;
    }
    proof {
        assert(samples@.take(i as int) =~= samples@);
    }
    load
}

/// The largest count of cores that `cap` percent of `total` allows, as
/// `percentage_limit` says, capped at `usize::MAX`.
pub fn core_limit(total: usize, cap: u32, min_cores: usize) -> (limit: usize)
    ensures
        limit == if percentage_limit(total as nat, cap as nat, min_cores as nat) > usize::MAX {
            usize::MAX as nat
        } else {
            percentage_limit(total as nat, cap as nat, min_cores as nat)
        },
{
    assert((total as u128) * (cap as u128) <= 0xffff_ffff_ffff_ffff * 0xffff_ffff)
        by (nonlinear_arith)
        requires
            total <= 0xffff_ffff_ffff_ffff,
            cap <= 0xffff_ffff,
    ;
    let scaled: u128 = (total as u128) * (cap as u128);
    let share: u128 = (scaled + 99) / 100;
    let floor: u128 = min_cores as u128;
    let limit: u128 = if share < floor {
        floor
    } else {
        share
    };
    if limit > usize::MAX as u128 {
        usize::MAX
    } else {
        limit as usize
    }
}

/// The count of cores wanted after one evaluation outside the cooldown, for
/// `current` enabled cores out of `total`, an average load of `average` and a
/// load threshold of `threshold`, both in load units, and a cap of `cap`
/// percent.
pub fn decide_target(
    current: usize,
    total: usize,
    min_cores: usize,
    cap: u32,
    average: u64,
    threshold: u64,
) -> (target: usize)
    ensures
        target == scaled_target(
            current as nat,
            total as nat,
            min_cores as nat,
            percentage_limit(total as nat, cap as nat, min_cores as nat),
            average as nat,
            threshold as nat,
        ),
{
    let load: u128 = (average as u128) * 5;
    let upper: u128 = (threshold as u128) * 6;
    let lower: u128 = (threshold as u128) * 4;
    if load > upper && current < total {
        if total - current > 2 {
            current + 2
        } else {
            total
        }
    } else if load < lower && current > min_cores {
        let lowered: usize = if current >= 2 && current - 2 > min_cores {
            current - 2
        } else {
            min_cores
        };
        let limit = core_limit(total, cap, min_cores);
        if lowered < limit {
            lowered
        } else {
            limit
        }
    } else {
        current
    }
}

/// A load inside the band leaves the count of cores as it is: with the
/// average load between four fifths and six fifths of the threshold, and so
/// with the average exactly at the threshold, the target is the current
/// count, however often the evaluation is repeated.
pub proof fn lemma_band_keeps_count(
    current: nat,
    total: nat,
    min_cores: nat,
    limit: nat,
    average: nat,
    threshold: nat,
)
    requires
        4 * threshold <= 5 * average <= 6 * threshold,
    ensures
        scaled_target(current, total, min_cores, limit, average, threshold) == current,
{
}

/// With `min_cores <= current <= total` and a cap of at most a hundred
/// percent, the target stays within `min_cores ..= total`.
pub proof fn lemma_target_in_range(
    current: nat,
    total: nat,
    min_cores: nat,
    cap: nat,
    average: nat,
    threshold: nat,
)
    requires
        min_cores <= current <= total,
        cap <= 100,
    ensures
        min_cores <= scaled_target(
            current,
            total,
            min_cores,
            percentage_limit(total, cap, min_cores),
            average,
            threshold,
        ) <= total,
{
    assert((total * cap + 99) / 100 <= total) by (nonlinear_arith)
        requires
            cap <= 100,
    ;
}

/// Above the band, with cores to spare, the target is two above the current
/// count, or all cores where fewer than two are left.
pub proof fn lemma_high_load_adds_two(
    current: nat,
    total: nat,
    min_cores: nat,
    limit: nat,
    average: nat,
    threshold: nat,
)
    requires
        above_band(average, threshold),
        current < total,
    ensures
        scaled_target(current, total, min_cores, limit, average, threshold) == if current + 2
            <= total {
            current + 2
        } else {
            total
        },
{
}

} // verus!
