use observer::cpu::FileRead;
use observer::discovery::{classify_core, CoreProbe};
use observer::topology::{CPUTopology, CoreInfo, CoreType};

fn physical(id: usize, sibling_id: usize, core_type: CoreType) -> CoreInfo {
    CoreInfo { id, sibling_id, core_type }
}

fn topology(cores: Vec<CoreInfo>) -> CPUTopology {
    let num_p_cores = cores.iter().filter(|c| c.core_type == CoreType::Performance).count();
    let num_e_cores = cores.iter().filter(|c| c.core_type == CoreType::Efficiency).count();
    CPUTopology { cores, num_p_cores, num_e_cores }
}

/// Two Performance cores with siblings 4 and 5, two Efficiency cores without.
fn hybrid() -> CPUTopology {
    topology(vec![
        physical(0, 4, CoreType::Performance),
        physical(1, 5, CoreType::Performance),
        physical(2, 2, CoreType::Efficiency),
        physical(3, 3, CoreType::Efficiency),
    ])
}

/// Four cores, each with a sibling of its own: two Performance, one
/// Efficiency, one Unknown.
fn paired() -> CPUTopology {
    topology(vec![
        physical(0, 4, CoreType::Performance),
        physical(1, 5, CoreType::Efficiency),
        physical(2, 6, CoreType::Performance),
        physical(3, 7, CoreType::Unknown),
    ])
}

#[test]
fn new_topology_is_empty() {
    let empty = CPUTopology::new();
    assert!(empty.cores.is_empty());
    assert_eq!(empty.num_p_cores, 0);
    assert_eq!(empty.num_e_cores, 0);
}

#[test]
fn plan_for_three_takes_core_zero_pair_then_next_performance_core() {
    assert_eq!(hybrid().get_cores_to_enable(3), vec![0, 1, 4]);
}

#[test]
fn plan_grows_by_preference() {
    let t = hybrid();
    assert_eq!(t.get_cores_to_enable(1), vec![0]);
    assert_eq!(t.get_cores_to_enable(2), vec![0, 4]);
    assert_eq!(t.get_cores_to_enable(4), vec![0, 1, 4, 5]);
    assert_eq!(t.get_cores_to_enable(5), vec![0, 1, 2, 4, 5]);
    assert_eq!(t.get_cores_to_enable(6), vec![0, 1, 2, 3, 4, 5]);
}

#[test]
fn plan_without_smt_stops_at_the_known_cores() {
    let t = hybrid();
    assert_eq!(t.get_cores_to_enable(8), vec![0, 1, 2, 3, 4, 5]);
    assert_eq!(t.get_cores_to_enable(100), vec![0, 1, 2, 3, 4, 5]);
}

#[test]
fn plan_for_zero_is_the_plan_for_one() {
    let t = hybrid();
    assert_eq!(t.get_cores_to_enable(0), vec![0]);
    assert_eq!(t.get_cores_to_enable(0), t.get_cores_to_enable(1));
}

#[test]
fn plan_is_idempotent() {
    let t = paired();
    for n in 0..12 {
        assert_eq!(t.get_cores_to_enable(n), t.get_cores_to_enable(n));
    }
}

#[test]
fn plan_size_is_the_smaller_of_target_and_total() {
    let t = paired();
    for n in 1..12usize {
        let plan = t.get_cores_to_enable(n);
        assert_eq!(plan.len(), n.min(8));
        assert!(plan.contains(&0));
        assert!(plan.windows(2).all(|pair| pair[0] < pair[1]));
    }
    assert_eq!(t.get_cores_to_enable(usize::MAX).len(), 8);
}

#[test]
fn plan_order_is_performance_then_efficiency_then_unknown() {
    let t = paired();
    assert_eq!(t.get_cores_to_enable(2), vec![0, 4]);
    assert_eq!(t.get_cores_to_enable(3), vec![0, 2, 4]);
    assert_eq!(t.get_cores_to_enable(4), vec![0, 2, 4, 6]);
    assert_eq!(t.get_cores_to_enable(5), vec![0, 1, 2, 4, 6]);
    assert_eq!(t.get_cores_to_enable(6), vec![0, 1, 2, 4, 5, 6]);
    assert_eq!(t.get_cores_to_enable(7), vec![0, 1, 2, 3, 4, 5, 6]);
    assert_eq!(t.get_cores_to_enable(8), vec![0, 1, 2, 3, 4, 5, 6, 7]);
}

#[test]
fn efficiency_cores_come_before_their_siblings() {
    let t = topology(vec![
        physical(0, 1, CoreType::Efficiency),
        physical(2, 3, CoreType::Efficiency),
        physical(4, 5, CoreType::Efficiency),
    ]);
    assert_eq!(t.get_cores_to_enable(2), vec![0, 1]);
    assert_eq!(t.get_cores_to_enable(3), vec![0, 1, 2]);
    assert_eq!(t.get_cores_to_enable(4), vec![0, 1, 2, 4]);
    assert_eq!(t.get_cores_to_enable(5), vec![0, 1, 2, 3, 4]);
}

#[test]
fn plan_of_the_empty_topology_is_empty() {
    let empty = CPUTopology::new();
    assert_eq!(empty.get_cores_to_enable(0), Vec::<usize>::new());
    assert_eq!(empty.get_cores_to_enable(4), Vec::<usize>::new());
}

#[test]
fn plan_holds_core_zero_even_where_no_core_is_named_zero() {
    let t = topology(vec![physical(2, 3, CoreType::Performance)]);
    assert_eq!(t.get_cores_to_enable(1), vec![0]);
    assert_eq!(t.get_cores_to_enable(2), vec![0, 2]);
}

#[test]
fn discover_nothing_gives_the_empty_topology() {
    let t = CPUTopology::discover(&Vec::new());
    assert!(t.cores.is_empty());
    assert_eq!((t.num_p_cores, t.num_e_cores), (0, 0));
}

#[test]
fn discover_pairs_siblings_and_classifies_by_frequency() {
    let probe = |sibling_id, khz| CoreProbe { sibling_id, max_freq_khz: Some(khz) };
    let probes = vec![
        probe(4, 4_000_000),
        probe(5, 4_000_000),
        probe(2, 2_999_999),
        probe(3, 3_000_000),
        probe(0, 4_000_000),
        probe(1, 4_000_000),
    ];
    let t = CPUTopology::discover(&probes);
    assert_eq!(
        t.cores,
        vec![
            physical(0, 4, CoreType::Performance),
            physical(1, 5, CoreType::Performance),
            physical(2, 2, CoreType::Efficiency),
            physical(3, 3, CoreType::Performance),
        ]
    );
    assert_eq!(t.num_p_cores, 3);
    assert_eq!(t.num_e_cores, 1);
}

#[test]
fn discover_leaves_unknown_cores_out_of_the_counts() {
    let probes = vec![
        CoreProbe { sibling_id: 1, max_freq_khz: Some(3_000) },
        CoreProbe { sibling_id: 0, max_freq_khz: Some(3_000) },
        CoreProbe { sibling_id: 2, max_freq_khz: None },
        CoreProbe { sibling_id: 3, max_freq_khz: Some(1_000) },
    ];
    let t = CPUTopology::discover(&probes);
    assert_eq!(
        t.cores,
        vec![
            physical(0, 1, CoreType::Performance),
            physical(2, 2, CoreType::Unknown),
            physical(3, 3, CoreType::Efficiency),
        ]
    );
    assert_eq!((t.num_p_cores, t.num_e_cores), (1, 1));
}

#[test]
fn discover_without_any_frequency_knows_no_kind() {
    let probes = vec![
        CoreProbe { sibling_id: 1, max_freq_khz: None },
        CoreProbe { sibling_id: 0, max_freq_khz: None },
    ];
    let t = CPUTopology::discover(&probes);
    assert_eq!(t.cores, vec![physical(0, 1, CoreType::Unknown)]);
    assert_eq!((t.num_p_cores, t.num_e_cores), (0, 0));
}

#[test]
fn discover_takes_a_sibling_beyond_the_probes_as_it_is() {
    let probes = vec![
        CoreProbe { sibling_id: 9, max_freq_khz: Some(0) },
        CoreProbe { sibling_id: 0, max_freq_khz: Some(0) },
    ];
    let t = CPUTopology::discover(&probes);
    assert_eq!(
        t.cores,
        vec![physical(0, 9, CoreType::Performance), physical(1, 0, CoreType::Performance)]
    );
}

#[test]
fn classify_core_at_three_quarters_is_a_performance_core() {
    assert_eq!(classify_core(Some(3_000), 4_000), CoreType::Performance);
    assert_eq!(classify_core(Some(2_999), 4_000), CoreType::Efficiency);
    assert_eq!(classify_core(Some(3), 5), CoreType::Efficiency);
    assert_eq!(classify_core(Some(4), 5), CoreType::Performance);
    assert_eq!(classify_core(Some(0), 0), CoreType::Performance);
    assert_eq!(classify_core(None, 4_000), CoreType::Unknown);
    assert_eq!(classify_core(Some(usize::MAX), usize::MAX), CoreType::Performance);
    assert_eq!(classify_core(Some(usize::MAX / 2), usize::MAX), CoreType::Efficiency);
}

#[test]
fn probe_from_readings_parses_siblings_and_frequency() {
    let text = |s: &str| FileRead::Content(s.as_bytes().to_vec());
    let probe = CoreProbe::from_readings(0, &text("0,4\n"), &text("4500000\n"));
    assert_eq!(probe, CoreProbe { sibling_id: 4, max_freq_khz: Some(4_500_000) });
    let probe = CoreProbe::from_readings(4, &text("0,4\n"), &text(" 800000 "));
    assert_eq!(probe, CoreProbe { sibling_id: 0, max_freq_khz: Some(800_000) });
    let probe = CoreProbe::from_readings(3, &text("3\n"), &FileRead::NotFound);
    assert_eq!(probe, CoreProbe { sibling_id: 3, max_freq_khz: None });
    let probe = CoreProbe::from_readings(2, &FileRead::Failed, &text("fast"));
    assert_eq!(probe, CoreProbe { sibling_id: 2, max_freq_khz: None });
    let probe = CoreProbe::from_readings(1, &text("0-1\n"), &text(""));
    assert_eq!(probe, CoreProbe { sibling_id: 0, max_freq_khz: None });
    let probe = CoreProbe::from_readings(0, &text("0-1\n"), &text("4500000\u{a0}"));
    assert_eq!(probe, CoreProbe { sibling_id: 1, max_freq_khz: Some(4_500_000) });
}

#[test]
fn discovered_cores_share_no_logical_core() {
    let count = 12usize;
    let probes: Vec<CoreProbe> = (0..count)
        .map(|id| CoreProbe {
            sibling_id: if id < 8 { id ^ 1 } else { id },
            max_freq_khz: Some(if id < 8 { 5_000_000 } else { 3_000_000 }),
        })
        .collect();
    let t = CPUTopology::discover(&probes);
    assert_eq!(t.cores.len(), 8);
    assert_eq!((t.num_p_cores, t.num_e_cores), (4, 4));
    let mut owned: Vec<usize> = Vec::new();
    for core in &t.cores {
        owned.push(core.id);
        if core.sibling_id != core.id {
            owned.push(core.sibling_id);
        }
    }
    let mut distinct = owned.clone();
    distinct.sort();
    distinct.dedup();
    assert_eq!(distinct.len(), owned.len());
    assert_eq!(distinct, (0..count).collect::<Vec<usize>>());
    assert!(t.cores.windows(2).all(|pair| pair[0].id < pair[1].id));
    assert_eq!(t.get_cores_to_enable(16), (0..count).collect::<Vec<usize>>());
}

#[test]
fn default_topology_is_empty() {
    let empty = CPUTopology::default();
    assert!(empty.cores.is_empty());
    assert_eq!((empty.num_p_cores, empty.num_e_cores), (0, 0));
}

#[test]
fn plan_takes_each_kind_by_ascending_id_however_the_cores_are_listed() {
    let t = topology(vec![
        physical(0, 4, CoreType::Performance),
        physical(2, 6, CoreType::Performance),
        physical(1, 5, CoreType::Performance),
    ]);
    assert_eq!(t.get_cores_to_enable(2), vec![0, 4]);
    assert_eq!(t.get_cores_to_enable(3), vec![0, 1, 4]);
    assert_eq!(t.get_cores_to_enable(4), vec![0, 1, 4, 5]);
    assert_eq!(t.get_cores_to_enable(5), vec![0, 1, 2, 4, 5]);
    assert_eq!(t.get_cores_to_enable(6), vec![0, 1, 2, 4, 5, 6]);
}

#[test]
fn plan_does_not_depend_on_the_order_of_the_list() {
    let listed = vec![
        physical(0, 8, CoreType::Performance),
        physical(1, 9, CoreType::Efficiency),
        physical(2, 10, CoreType::Performance),
        physical(3, 11, CoreType::Unknown),
        physical(4, 12, CoreType::Efficiency),
        physical(5, 13, CoreType::Unknown),
    ];
    let ascending = topology(listed.clone());
    let mut reversed = listed.clone();
    reversed.reverse();
    let mut rotated = listed.clone();
    rotated.rotate_left(4);
    for n in 0..14 {
        let plan = ascending.get_cores_to_enable(n);
        assert_eq!(topology(reversed.clone()).get_cores_to_enable(n), plan);
        assert_eq!(topology(rotated.clone()).get_cores_to_enable(n), plan);
    }
    assert_eq!(ascending.get_cores_to_enable(7), vec![0, 1, 2, 4, 8, 9, 10]);
    assert_eq!(topology(reversed).get_cores_to_enable(9), vec![0, 1, 2, 3, 4, 8, 9, 10, 12]);
}

#[test]
fn plan_finds_core_zero_anywhere_in_the_list() {
    let t = topology(vec![
        physical(3, 7, CoreType::Performance),
        physical(0, 4, CoreType::Efficiency),
    ]);
    assert_eq!(t.get_cores_to_enable(1), vec![0]);
    assert_eq!(t.get_cores_to_enable(2), vec![0, 4]);
    assert_eq!(t.get_cores_to_enable(3), vec![0, 3, 4]);
    assert_eq!(t.get_cores_to_enable(4), vec![0, 3, 4, 7]);
}

#[test]
fn discovery_ends_at_the_first_missing_cpu() {
    let probe = |sibling_id| Some(CoreProbe { sibling_id, max_freq_khz: Some(3_000_000) });
    let found = vec![probe(1), probe(0), None, probe(4), probe(3)];
    let t = CPUTopology::discover_until_gap(&found);
    assert_eq!(t.cores, vec![physical(0, 1, CoreType::Performance)]);
    assert_eq!((t.num_p_cores, t.num_e_cores), (1, 0));

    let whole = vec![probe(1), probe(0), probe(3), probe(2)];
    let t = CPUTopology::discover_until_gap(&whole);
    assert_eq!(
        t.cores,
        vec![physical(0, 1, CoreType::Performance), physical(2, 3, CoreType::Performance)]
    );
}

#[test]
fn discovery_with_cpu_zero_missing_finds_nothing() {
    let found = vec![None, Some(CoreProbe { sibling_id: 1, max_freq_khz: Some(1_000) })];
    let t = CPUTopology::discover_until_gap(&found);
    assert!(t.cores.is_empty());
    assert_eq!((t.num_p_cores, t.num_e_cores), (0, 0));
    assert!(CPUTopology::discover_until_gap(&Vec::new()).cores.is_empty());
}

#[test]
fn frequency_behind_a_gap_does_not_count() {
    let found = vec![
        Some(CoreProbe { sibling_id: 0, max_freq_khz: Some(2_000_000) }),
        None,
        Some(CoreProbe { sibling_id: 2, max_freq_khz: Some(5_000_000) }),
    ];
    let t = CPUTopology::discover_until_gap(&found);
    assert_eq!(t.cores, vec![physical(0, 0, CoreType::Performance)]);
}

#[test]
fn neighbours_listed_as_a_range_become_one_core() {
    let text = |s: &str| FileRead::Content(s.as_bytes().to_vec());
    for lists in [["0-1\n", "0-1\n"], ["0,1\n", "0,1\n"], ["0-1\n", "0,1\n"]] {
        let found: Vec<Option<CoreProbe>> = lists
            .iter()
            .enumerate()
            .map(|(id, list)| Some(CoreProbe::from_readings(id, &text(list), &text("3000000\n"))))
            .collect();
        let t = CPUTopology::discover_until_gap(&found);
        assert_eq!(t.cores, vec![physical(0, 1, CoreType::Performance)]);
    }
    let alone = vec![Some(CoreProbe::from_readings(0, &text("0\n"), &text("3000000\n")))];
    let t = CPUTopology::discover_until_gap(&alone);
    assert_eq!(t.cores, vec![physical(0, 0, CoreType::Performance)]);
}
