//! The settings of the governor.

use vstd::prelude::*;

verus! {

/// Load units in one percent: loads and load thresholds are thousandths of a
/// percent.
pub const LOAD_UNITS_PER_PERCENT: u64 = 1000;

/// The settings of the governor. Loads are summed over the active logical
/// cores, so that a threshold may lie above a hundred percent.
#[derive(Debug, Clone)]
pub struct Settings {
    /// Share of the logical cores, in percent, that may run on battery.
    pub battery_core_percentage: u32,
    /// Share of the logical cores, in percent, that may run on AC power.
    pub ac_core_percentage: u32,
    /// Time to wait after a core was enabled, in milliseconds.
    pub transition_delay_ms: u64,
    /// Time between two evaluations, in seconds.
    pub check_interval_sec: u64,
    /// Load threshold on battery, in load units.
    pub cpu_load_threshold: u64,
    /// Load threshold on AC power, in load units.
    pub ac_cpu_load_threshold: u64,
    /// The count of cores below which scaling down does not go.
    pub min_cores: usize,
    /// Shortest time between two changes of the core count, in seconds.
    pub min_change_interval_sec: u64,
    /// Length of the load window, in seconds.
    pub load_window_sec: u64,
    /// Energy-performance hint on battery.
    pub battery_epp: String,
    /// Energy-performance hint on AC power.
    pub ac_epp: String,
}

impl Settings {
    /// The load threshold that holds for the given source of power.
    pub open spec fn load_threshold(&self, on_battery: bool) -> u64 {
        if on_battery {
            self.cpu_load_threshold
        } else {
            self.ac_cpu_load_threshold
        }
    }

    /// The share of the cores, in percent, that may run on the given source of
    /// power.
    pub open spec fn core_percentage(&self, on_battery: bool) -> u32 {
        if on_battery {
            self.battery_core_percentage
        } else {
            self.ac_core_percentage
        }
    }

    /// The energy-performance hint for the given source of power.
    pub open spec fn epp_hint(&self, on_battery: bool) -> Seq<char> {
        if on_battery {
            self.battery_epp@
        } else {
            self.ac_epp@
        }
    }
}

impl Default for Settings {
    fn default() -> (settings: Settings)
        ensures
            settings.battery_core_percentage == 50,
            settings.ac_core_percentage == 100,
            settings.transition_delay_ms == 500,
            settings.check_interval_sec == 5,
            settings.cpu_load_threshold == 45 * LOAD_UNITS_PER_PERCENT,
            settings.ac_cpu_load_threshold == 80 * LOAD_UNITS_PER_PERCENT,
            settings.min_cores == 2,
            settings.min_change_interval_sec == 15,
            settings.load_window_sec == 30,
            settings.battery_epp@ == "balance_power"@,
            settings.ac_epp@ == "balance_performance"@,
    {
        Settings {
            battery_core_percentage: 50,
            ac_core_percentage: 100,
            transition_delay_ms: 500,
            check_interval_sec: 5,
            cpu_load_threshold: 45 * LOAD_UNITS_PER_PERCENT,
            ac_cpu_load_threshold: 80 * LOAD_UNITS_PER_PERCENT,
            min_cores: 2,
            min_change_interval_sec: 15,
            load_window_sec: 30,
            battery_epp: "balance_power".to_owned(),
            ac_epp: "balance_performance".to_owned(),
        }
    }
}

} // verus!
