//! The scaling engine: it owns the topology, the load history and the count
//! of enabled cores, decides the wanted count at each tick and commits a
//! change once the cores have been switched.

use vstd::prelude::*;
use crate::changes::{
    available_cores, controllable_cores, ChangeError, CoreChanges, CoreDirProbe,
    MAX_PROBED_CORES,
};
use crate::load_tracker::{
    after_measurement, average_load, elapsed_since, LoadSample, LoadTracker,
};
use crate::power::PowerState;
use crate::scaling::{
    active_load, calculate_current_load, capped_u64, decide_target, percentage_limit,
    scaled_target, CoreSample,
};
use crate::settings::Settings;
use crate::topology::{is_plan, CPUTopology, CoreInfo};

verus! {

/// What one evaluation asks for: the wanted count of logical cores and, where
/// the source of power has changed, the energy-performance hint to write.
#[derive(Debug)]
pub struct ScalingDecision {
    pub target_cores: usize,
    pub epp_hint: Option<String>,
}

/// The source of power that an evaluation sees.
pub open spec fn observed_state(on_battery: bool) -> PowerState {
    if on_battery {
        PowerState::Battery
    } else {
        PowerState::AC
    }
}

/// The change of the core count is still too recent: less than
/// `min_interval_sec` seconds have passed.
pub open spec fn cooling_down(elapsed_ms: nat, min_interval_sec: nat) -> bool {
    elapsed_ms < min_interval_sec * 1000
}

/// `seconds` in milliseconds, capped at `u64::MAX`.
pub open spec fn window_millis(seconds: u64) -> u64 {
    capped_u64((seconds * 1000) as nat)
}

/// The scaling engine.
pub struct CoreManager {
    settings: Settings,
    topology: CPUTopology,
    current_cores: usize,
    load_tracker: LoadTracker,
    last_power_state: Option<PowerState>,
}

impl CoreManager {
    /// The load history is well formed.
    pub closed spec fn wf(&self) -> bool {
        self.load_tracker.wf()
    }

    /// The settings the engine works with.
    pub closed spec fn settings(&self) -> Settings {
        self.settings
    }

    /// The topology the engine works with.
    pub closed spec fn topology(&self) -> Seq<CoreInfo> {
        self.topology@
    }

    /// The count of logical cores that the engine takes to be enabled.
    pub closed spec fn current(&self) -> usize {
        self.current_cores
    }

    /// The load samples held.
    pub closed spec fn samples(&self) -> Seq<LoadSample> {
        self.load_tracker.samples()
    }

    /// The length of the load window in milliseconds.
    pub closed spec fn window(&self) -> u64 {
        self.load_tracker.window()
    }

    /// The time of the last decision that changed the target.
    pub closed spec fn changed_at(&self) -> u64 {
        self.load_tracker.changed_at()
    }

    /// The source of power seen by the last evaluation outside the cooldown.
    pub closed spec fn last_power(&self) -> Option<PowerState> {
        self.last_power_state
    }

    /// The state `after` and the decision `decision` are what one evaluation
    /// at time `now_ms` makes of the state `before`.
    ///
    /// The summed load of the active cores enters the history. Within the
    /// cooldown nothing else happens and the target is the current count.
    /// Otherwise the target follows from the average load over the window; a
    /// target that differs from the current count makes `now_ms` the time of
    /// the last change; and a source of power other than the last one seen
    /// gives the hint to write.
    pub open spec fn evaluation(
        before: CoreManager,
        after: CoreManager,
        on_battery: bool,
        samples: Seq<CoreSample>,
        now_ms: u64,
        decision: ScalingDecision,
    ) -> bool {
        let settings = before.settings();
        let target = scaled_target(
            before.current() as nat,
            samples.len(),
            settings.min_cores as nat,
            percentage_limit(
                samples.len(),
                settings.core_percentage(on_battery) as nat,
                settings.min_cores as nat,
            ),
            average_load(after.samples()),
            settings.load_threshold(on_battery) as nat,
        );
        &&& after.wf()
        &&& after.settings() == before.settings()
        &&& after.topology() == before.topology()
        &&& after.current() == before.current()
        &&& after.window() == before.window()
        &&& after.samples() == after_measurement(
            before.samples(),
            before.window() as nat,
            capped_u64(active_load(samples)),
            now_ms,
        )
        &&& if cooling_down(
            elapsed_since(before.changed_at() as nat, now_ms as nat),
            settings.min_change_interval_sec as nat,
        ) {
            &&& decision.target_cores == before.current()
            &&& decision.epp_hint is None
            &&& after.changed_at() == before.changed_at()
            &&& after.last_power() == before.last_power()
        } else {
            &&& decision.target_cores == target
            &&& after.changed_at() == if target != before.current() {
                now_ms
            } else {
                before.changed_at()
            }
            &&& after.last_power() == Some(observed_state(on_battery))
            &&& if before.last_power() == Some(observed_state(on_battery)) {
                decision.epp_hint is None
            } else {
                decision.epp_hint matches Some(hint) && hint@ == settings.epp_hint(on_battery)
            }
        }
    }

    /// The average load that an evaluation judges by lies inside the band
    /// around the load threshold.
    pub open spec fn load_in_band(after: CoreManager, on_battery: bool) -> bool {
        let average = average_load(after.samples());
        let threshold = after.settings().load_threshold(on_battery);
        4 * threshold <= 5 * average <= 6 * threshold
    }

    /// An evaluation within the cooldown, or with the average load inside the
    /// band around the threshold and so with the average exactly at the
    /// threshold, asks for the count of cores that is enabled, and leaves the
    /// time of the last change as it was: repeated at constant load, it gives
    /// the same target tick after tick.
    pub proof fn lemma_steady_load_keeps_count(
        before: CoreManager,
        after: CoreManager,
        on_battery: bool,
        samples: Seq<CoreSample>,
        now_ms: u64,
        decision: ScalingDecision,
    )
        requires
            Self::evaluation(before, after, on_battery, samples, now_ms, decision),
            cooling_down(
                elapsed_since(before.changed_at() as nat, now_ms as nat),
                before.settings().min_change_interval_sec as nat,
            ) || Self::load_in_band(after, on_battery),
        ensures
            decision.target_cores == before.current(),
            after.current() == before.current(),
            after.changed_at() == before.changed_at(),
    {
    }

    /// An engine for `topology` under `settings`. It takes every logical core
    /// of the topology, two per physical core, to be enabled, and starts with
    /// an empty load history.
    pub fn new(settings: Settings, topology: CPUTopology) -> (manager: CoreManager)
        ensures
            manager.wf(),
            manager.settings() == settings,
            manager.topology() == topology@,
            manager.current() == if 2 * topology@.len() > usize::MAX {
                usize::MAX as nat
            } else {
                2 * topology@.len()
            },
            manager.samples() == Seq::<LoadSample>::empty(),
            manager.window() == window_millis(settings.load_window_sec),
            manager.changed_at() == 0,
            manager.last_power() == None::<PowerState>,
    {
        let initial_cores: usize = match topology.cores.len().checked_mul(2) {
            Some(count) => count,
            None => usize::MAX,
        };
        let window_ms: u64 = match settings.load_window_sec.checked_mul(1000) {
            Some(millis) => millis,
            None => u64::MAX,
        };
        CoreManager {
            settings,
            topology,
            current_cores: initial_cores,
            load_tracker: LoadTracker::new(window_ms),
            last_power_state: None,
        }
    }

    /// The count of logical cores that the engine takes to be enabled.
    pub fn current_core_count(&self) -> (count: usize)
        ensures
            count == self.current(),
    {
        self.current_cores
    }

    /// The time on the engine's clock, in milliseconds.
    pub fn now_ms(&self) -> (now: u64) {
        self.load_tracker.now_ms()
    }

    /// One evaluation at time `now_ms`, where `samples[i]` is what was sampled
    /// of logical core `i`.
    pub fn get_optimal_core_count_at(
        &mut self,
        on_battery: bool,
        samples: &Vec<CoreSample>,
        now_ms: u64,
    ) -> (decision: ScalingDecision)
        requires
            old(self).wf(),
        ensures
            Self::evaluation(*old(self), *final(self), on_battery, samples@, now_ms, decision),
    {
        let current_load = calculate_current_load(samples);
        self.load_tracker.add_measurement_at(current_load, now_ms);
        let elapsed = self.load_tracker.time_since_last_change_at(now_ms);
        let min_interval: u128 = (self.settings.min_change_interval_sec as u128) * 1000;
        if (elapsed as u128) < min_interval {
            return ScalingDecision { target_cores: self.current_cores, epp_hint: None };
        }
        let average = self.load_tracker.get_average();
        let total = samples.len();
        let threshold = if on_battery {
            self.settings.cpu_load_threshold
        } else {
            self.settings.ac_cpu_load_threshold
        };
        let cap = if on_battery {
            self.settings.battery_core_percentage
        } else {
            self.settings.ac_core_percentage
        };
        let target = decide_target(
            self.current_cores,
            total,
            self.settings.min_cores,
            cap,
            average,
            threshold,
        );
        if target != self.current_cores {
            self.load_tracker.record_change_at(now_ms);
        }
        let state = if on_battery {
            PowerState::Battery
        } else {
            PowerState::AC
        };
        let seen_before = match self.last_power_state {
            Some(last) => last == state,
            None => false,
        };
        let epp_hint = if seen_before {
            None
        } else if on_battery {
            Some(self.settings.battery_epp.clone())
        } else {
            Some(self.settings.ac_epp.clone())
        };
        self.last_power_state = Some(state);
        ScalingDecision { target_cores: target, epp_hint }
    }

    /// One evaluation at the present time, by the engine's clock.
    pub fn get_optimal_core_count(&mut self, on_battery: bool, samples: &Vec<CoreSample>) -> (decision:
        ScalingDecision)
        requires
            old(self).wf(),
        ensures
            exists|now_ms: u64|
                Self::evaluation(*old(self), *final(self), on_battery, samples@, now_ms, decision),
    {
        let now_ms = self.now_ms();
        self.get_optimal_core_count_at(on_battery, samples, now_ms)
    }

    /// The logical cores found by probing the control directories of the cores
    /// `0, 1, 2, ..` in this order: `probes[i]` belongs to logical core `i`.
    /// Looking stops at the first missing directory after core 0 and at
    /// `MAX_PROBED_CORES`. Finding no core is an error.
    pub fn get_available_cores(probes: &Vec<CoreDirProbe>) -> (found: Result<
        Vec<usize>,
        ChangeError,
    >)
        ensures
            match found {
                Ok(cores) => cores@ == available_cores(probes@, probes@.len()) && cores@.len() > 0,
                Err(error) => error == ChangeError::NoCores && available_cores(
                    probes@,
                    probes@.len(),
                ).len() == 0,
            },
    {
        let mut cores: Vec<usize> = Vec::new();
        let mut i: usize = 0;
        let mut open: bool = true;
        while i < probes.len()
            invariant
                i <= probes.len(),
                cores@ == available_cores(probes@, i as nat),
                open == (forall|j: int| 0 < j < i ==> probes@[j].dir_exists),
            decreases probes.len() - i,
        {
            if open && i < MAX_PROBED_CORES && probes[i].dir_exists && (i == 0
                || probes[i].has_online_file) {
                cores.push(i);
            }
            if i > 0 && !probes[i].dir_exists {
                open = false;
            }
            i += 1;
        }
        if cores.len() == 0 {
            Err(ChangeError::NoCores)
        } else {
            Ok(cores)
        }
    }

    /// The cores to bring online when the governor leaves: every core of
    /// `available` but logical core 0, in the same order.
    pub fn enable_all_cores(available: &Vec<usize>) -> (cores: Vec<usize>)
        ensures
            cores@ == controllable_cores(available@),
            forall|i: int| 0 <= i < cores@.len() ==> cores@[i] != 0,
    {
        let mut cores: Vec<usize> = Vec::new();
        let mut i: usize = 0;
        proof {
            assert(available@.take(0).len() == 0);
        }
        while i < available.len()
            invariant
                i <= available.len(),
                cores@ == controllable_cores(available@.take(i as int)),
                forall|k: int| 0 <= k < cores@.len() ==> cores@[k] != 0,
            decreases available.len() - i,
        {
            proof {
                assert(available@.take(i + 1).drop_last() =~= available@.take(i as int));
                assert(available@.take(i + 1).last() == available@[i as int]);
            }
            if available[i] != 0 {
                cores.push(available[i]);
            }
            i += 1;
        }
        proof {
            assert(available@.take(i as int) =~= available@);
        }
        cores
    }

    /// Opens a batch of core changes towards `target_cores`.
    ///
    /// The batch is idle where the target is the current count. With a
    /// topology, the cores wanted online are those of its plan for the target;
    /// without one, the cores with an id below the target.
    pub fn perform_core_state_changes(&self, target_cores: usize) -> (changes: CoreChanges)
        ensures
            changes.wf(),
            changes.target() == target_cores,
            changes.idle() == (target_cores == self.current()),
            changes.flat() == (self.topology().len() == 0),
            !changes.flat() ==> is_plan(self.topology(), target_cores as nat, changes.plan()),
            changes.settle_ms() == self.settings().transition_delay_ms,
            changes.last_error() == None::<ChangeError>,
    {
        let flat = self.topology.cores.len() == 0;
        let plan = self.topology.get_cores_to_enable(target_cores);
        CoreChanges::open(
            target_cores,
            target_cores == self.current_cores,
            flat,
            plan,
            self.settings.transition_delay_ms,
        )
    }

    /// Closes a batch of core changes. Where every change of the batch went
    /// through, the batch's target becomes the current count. After any
    /// failure the current count stays as it was, and the last failure is
    /// returned.
    pub fn manage_cpu_cores(&mut self, changes: CoreChanges) -> (outcome: Result<(), ChangeError>)
        ensures
            outcome == match changes.last_error() {
                None => Ok::<(), ChangeError>(()),
                Some(error) => Err::<(), ChangeError>(error),
            },
            final(self).current() == if changes.last_error() is None {
                changes.target()
            } else {
                old(self).current()
            },
            final(self).wf() == old(self).wf(),
            final(self).settings() == old(self).settings(),
            final(self).topology() == old(self).topology(),
            final(self).samples() == old(self).samples(),
            final(self).window() == old(self).window(),
            final(self).changed_at() == old(self).changed_at(),
            final(self).last_power() == old(self).last_power(),
    {
        match changes.failure() {
            None => {
                self.current_cores = changes.target_cores();
                Ok(())
            },
            Some(error) => Err(error),
        }
    }
}

} // verus!
