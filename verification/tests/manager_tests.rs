use observer::changes::{ChangeError, CoreAction, CoreObservation};
use observer::manager::CoreManager;
use observer::scaling::CoreSample;
use observer::settings::Settings;
use observer::topology::{CPUTopology, CoreInfo, CoreType};

fn paired(physical: usize) -> CPUTopology {
    let cores: Vec<CoreInfo> = (0..physical)
        .map(|id| CoreInfo { id, sibling_id: id + physical, core_type: CoreType::Performance })
        .collect();
    CPUTopology { cores, num_p_cores: physical, num_e_cores: 0 }
}

fn samples(count: usize, usage: u64) -> Vec<CoreSample> {
    vec![CoreSample { online: true, usage }; count]
}

fn second(n: u64) -> u64 {
    n * 1_000
}

#[test]
fn new_manager_takes_all_logical_cores_as_enabled() {
    let manager = CoreManager::new(Settings::default(), paired(4));
    assert_eq!(manager.current_core_count(), 8);
    let manager = CoreManager::new(Settings::default(), CPUTopology::new());
    assert_eq!(manager.current_core_count(), 0);
}

#[test]
fn evaluation_within_the_cooldown_keeps_the_count() {
    let mut manager = CoreManager::new(Settings::default(), paired(4));
    let decision = manager.get_optimal_core_count_at(true, &samples(8, 0), second(14));
    assert_eq!(decision.target_cores, 8);
    assert_eq!(decision.epp_hint, None);
    let decision = manager.get_optimal_core_count_at(true, &samples(8, 0), second(15) - 1);
    assert_eq!(decision.target_cores, 8);
    assert_eq!(decision.epp_hint, None);
}

#[test]
fn evaluation_by_the_clock_starts_within_the_cooldown() {
    let mut manager = CoreManager::new(Settings::default(), paired(4));
    let decision = manager.get_optimal_core_count(true, &samples(8, 0));
    assert_eq!(decision.target_cores, 8);
    assert_eq!(decision.epp_hint, None);
    assert!(manager.now_ms() < second(15));
}

#[test]
fn low_load_on_battery_scales_down_to_the_battery_limit() {
    let mut manager = CoreManager::new(Settings::default(), paired(4));
    let decision = manager.get_optimal_core_count_at(true, &samples(8, 1_000), second(15));
    assert_eq!(decision.target_cores, 4);
    assert_eq!(decision.epp_hint, Some("balance_power".to_string()));
}

#[test]
fn low_load_on_ac_scales_down_by_two() {
    let mut manager = CoreManager::new(Settings::default(), paired(4));
    let decision = manager.get_optimal_core_count_at(false, &samples(8, 1_000), second(15));
    assert_eq!(decision.target_cores, 6);
    assert_eq!(decision.epp_hint, Some("balance_performance".to_string()));
}

#[test]
fn high_load_on_battery_adds_two_cores_up_to_the_total() {
    let settings = Settings { min_change_interval_sec: 0, ..Settings::default() };
    let threshold = settings.cpu_load_threshold;
    let mut manager = CoreManager::new(settings, paired(4));
    let changes = manager.perform_core_state_changes(5);
    assert_eq!(manager.manage_cpu_cores(changes), Ok(()));
    assert_eq!(manager.current_core_count(), 5);

    let load = threshold * 13 / 10;
    let one_core = vec![CoreSample { online: true, usage: load }];
    let mut cores = one_core.clone();
    cores.extend(vec![CoreSample { online: false, usage: 0 }; 7]);
    let decision = manager.get_optimal_core_count_at(true, &cores, second(1));
    assert_eq!(decision.target_cores, 7);

    let changes = manager.perform_core_state_changes(7);
    assert_eq!(manager.manage_cpu_cores(changes), Ok(()));
    let decision = manager.get_optimal_core_count_at(true, &cores, second(2));
    assert_eq!(decision.target_cores, 8);

    let changes = manager.perform_core_state_changes(8);
    assert_eq!(manager.manage_cpu_cores(changes), Ok(()));
    let decision = manager.get_optimal_core_count_at(true, &cores, second(3));
    assert_eq!(decision.target_cores, 8);
}

#[test]
fn load_at_the_threshold_keeps_the_count_tick_after_tick() {
    let settings = Settings { min_change_interval_sec: 0, ..Settings::default() };
    let threshold = settings.cpu_load_threshold;
    let mut manager = CoreManager::new(settings, paired(4));
    let mut cores = vec![CoreSample { online: true, usage: threshold }];
    cores.extend(vec![CoreSample { online: true, usage: 0 }; 7]);
    for tick in 0..20 {
        let decision = manager.get_optimal_core_count_at(true, &cores, second(tick));
        assert_eq!(decision.target_cores, manager.current_core_count());
        assert_eq!(decision.target_cores, 8);
    }
}

#[test]
fn decision_that_changes_the_target_starts_a_new_cooldown() {
    let mut manager = CoreManager::new(Settings::default(), paired(4));
    let decision = manager.get_optimal_core_count_at(false, &samples(8, 0), second(20));
    assert_eq!(decision.target_cores, 6);
    let decision = manager.get_optimal_core_count_at(false, &samples(8, 0), second(34));
    assert_eq!(decision.target_cores, 8);
    let decision = manager.get_optimal_core_count_at(false, &samples(8, 0), second(35));
    assert_eq!(decision.target_cores, 6);
}

#[test]
fn decision_that_keeps_the_target_starts_no_cooldown() {
    let mut manager = CoreManager::new(Settings::default(), paired(4));
    let busy = samples(8, 10_000);
    let decision = manager.get_optimal_core_count_at(false, &busy, second(20));
    assert_eq!(decision.target_cores, 8);
    let decision = manager.get_optimal_core_count_at(false, &samples(8, 0), second(60));
    assert_eq!(decision.target_cores, 6);
}

#[test]
fn average_is_taken_over_the_window() {
    let mut manager = CoreManager::new(Settings::default(), paired(4));
    let decision = manager.get_optimal_core_count_at(false, &samples(8, 40_000), second(1));
    assert_eq!(decision.target_cores, 8);
    let decision = manager.get_optimal_core_count_at(false, &samples(8, 0), second(20));
    assert_eq!(decision.target_cores, 8);
    let decision = manager.get_optimal_core_count_at(false, &samples(8, 0), second(32));
    assert_eq!(decision.target_cores, 6);
}

#[test]
fn hint_is_given_once_per_source_of_power() {
    let settings = Settings { min_change_interval_sec: 0, ..Settings::default() };
    let mut manager = CoreManager::new(settings, paired(4));
    let steady = samples(8, 10_000);
    let hint = |manager: &mut CoreManager, on_battery: bool, at: u64| {
        manager.get_optimal_core_count_at(on_battery, &steady, at).epp_hint
    };
    assert_eq!(hint(&mut manager, false, 1), Some("balance_performance".to_string()));
    assert_eq!(hint(&mut manager, false, 2), None);
    assert_eq!(hint(&mut manager, true, 3), Some("balance_power".to_string()));
    assert_eq!(hint(&mut manager, true, 4), None);
    assert_eq!(hint(&mut manager, false, 5), Some("balance_performance".to_string()));
}

#[test]
fn hint_waits_for_the_end_of_the_cooldown() {
    let mut manager = CoreManager::new(Settings::default(), paired(4));
    let steady = samples(8, 10_000);
    assert_eq!(manager.get_optimal_core_count_at(true, &steady, second(1)).epp_hint, None);
    assert_eq!(
        manager.get_optimal_core_count_at(true, &steady, second(16)).epp_hint,
        Some("balance_power".to_string())
    );
}

#[test]
fn evaluation_does_not_change_the_current_count() {
    let mut manager = CoreManager::new(Settings::default(), paired(4));
    let decision = manager.get_optimal_core_count_at(false, &samples(8, 0), second(20));
    assert_eq!(decision.target_cores, 6);
    assert_eq!(manager.current_core_count(), 8);
}

#[test]
fn batch_for_the_current_count_touches_nothing() {
    let manager = CoreManager::new(Settings::default(), paired(2));
    let mut changes = manager.perform_core_state_changes(4);
    for core in 0..4 {
        assert_eq!(changes.action_for(core, CoreObservation::Offline), CoreAction::Keep);
        assert_eq!(changes.action_for(core, CoreObservation::Unreadable), CoreAction::Keep);
    }
    assert_eq!(changes.failure(), None);
}

#[test]
fn batch_follows_the_plan_of_the_topology() {
    let mut manager = CoreManager::new(Settings::default(), paired(2));
    let mut changes = manager.perform_core_state_changes(2);
    assert_eq!(changes.target_cores(), 2);
    assert!(changes.is_wanted_online(0));
    assert!(!changes.is_wanted_online(1));
    assert!(changes.is_wanted_online(2));
    assert!(!changes.is_wanted_online(3));
    assert_eq!(changes.action_for(1, CoreObservation::Online), CoreAction::Disable);
    assert_eq!(changes.action_for(1, CoreObservation::Offline), CoreAction::Keep);
    assert_eq!(changes.action_for(2, CoreObservation::Online), CoreAction::Keep);
    assert_eq!(changes.action_for(2, CoreObservation::Offline), CoreAction::Enable);
    assert_eq!(changes.action_for(3, CoreObservation::Online), CoreAction::Disable);
    assert_eq!(manager.manage_cpu_cores(changes), Ok(()));
    assert_eq!(manager.current_core_count(), 2);
}

#[test]
fn batch_never_touches_core_zero() {
    let manager = CoreManager::new(Settings::default(), paired(2));
    for target in 0..6 {
        let mut changes = manager.perform_core_state_changes(target);
        for observed in
            [CoreObservation::Online, CoreObservation::Offline, CoreObservation::Unreadable]
        {
            assert_eq!(changes.action_for(0, observed), CoreAction::Keep);
        }
        assert_eq!(changes.failure(), None);
    }
}

#[test]
fn batch_without_topology_goes_by_the_core_id() {
    let mut manager = CoreManager::new(Settings::default(), CPUTopology::new());
    let mut changes = manager.perform_core_state_changes(3);
    assert_eq!(changes.action_for(0, CoreObservation::Offline), CoreAction::Keep);
    assert_eq!(changes.action_for(1, CoreObservation::Offline), CoreAction::Enable);
    assert_eq!(changes.action_for(2, CoreObservation::Offline), CoreAction::Enable);
    assert_eq!(changes.action_for(3, CoreObservation::Online), CoreAction::Disable);
    assert_eq!(changes.action_for(4, CoreObservation::Offline), CoreAction::Keep);
    assert_eq!(manager.manage_cpu_cores(changes), Ok(()));
    assert_eq!(manager.current_core_count(), 3);
}

#[test]
fn settling_time_follows_only_a_core_that_was_enabled() {
    let manager = CoreManager::new(Settings::default(), paired(2));
    let mut changes = manager.perform_core_state_changes(2);
    assert_eq!(changes.record_write(2, CoreAction::Enable, true), 500);
    assert_eq!(changes.record_write(1, CoreAction::Disable, true), 0);
    assert_eq!(changes.record_write(3, CoreAction::Keep, true), 0);
    assert_eq!(changes.failure(), None);
    assert_eq!(changes.record_write(2, CoreAction::Enable, false), 0);
    assert_eq!(changes.failure(), Some(ChangeError::WriteFailed(2)));
}

#[test]
fn failed_write_leaves_the_current_count() {
    let mut manager = CoreManager::new(Settings::default(), paired(2));
    let mut changes = manager.perform_core_state_changes(2);
    assert_eq!(changes.action_for(1, CoreObservation::Online), CoreAction::Disable);
    assert_eq!(changes.record_write(1, CoreAction::Disable, false), 0);
    assert_eq!(changes.action_for(3, CoreObservation::Online), CoreAction::Disable);
    assert_eq!(changes.record_write(3, CoreAction::Disable, true), 0);
    assert_eq!(manager.manage_cpu_cores(changes), Err(ChangeError::WriteFailed(1)));
    assert_eq!(manager.current_core_count(), 4);
}

#[test]
fn failed_read_leaves_the_current_count() {
    let mut manager = CoreManager::new(Settings::default(), paired(2));
    let mut changes = manager.perform_core_state_changes(2);
    assert_eq!(changes.action_for(1, CoreObservation::Unreadable), CoreAction::Keep);
    assert_eq!(changes.failure(), Some(ChangeError::ReadFailed(1)));
    assert_eq!(manager.manage_cpu_cores(changes), Err(ChangeError::ReadFailed(1)));
    assert_eq!(manager.current_core_count(), 4);
}

#[test]
fn last_failure_of_a_batch_is_the_one_returned() {
    let mut manager = CoreManager::new(Settings::default(), paired(2));
    let mut changes = manager.perform_core_state_changes(1);
    changes.record_write(1, CoreAction::Disable, false);
    changes.action_for(2, CoreObservation::Unreadable);
    changes.record_write(3, CoreAction::Disable, false);
    changes.record_write(3, CoreAction::Keep, false);
    assert_eq!(manager.manage_cpu_cores(changes), Err(ChangeError::WriteFailed(3)));
    assert_eq!(manager.current_core_count(), 4);
}
