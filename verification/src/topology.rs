//! The physical cores of the machine, their SMT siblings and their kinds, and
//! the choice of which logical cores run for a wanted count.

use vstd::prelude::*;
use std::collections::HashSet;
use vstd::std_specs::hash::spec_hash_keys_iter;
use vstd::std_specs::iter::IteratorSpec;
use crate::ascending::{ascending_insert, strictly_ascending};
use crate::id_order::{by_ascending_id, sort_by_id};
use crate::plan_laws::{lemma_plan_keeps_core_zero, lemma_plan_len};

verus! {

broadcast use vstd::std_specs::hash::group_hash_axioms;

/// The kind of a physical core.
#[derive(Debug, Clone, Copy, PartialEq, Eq, Structural)]
pub enum CoreType {
    Performance,
    Efficiency,
    /// The core's maximum frequency could not be read.
    Unknown,
}

/// One physical core: its primary logical id, the logical id of its SMT
/// partner (`id` itself where the core has none) and its kind.
#[derive(Debug, Clone, Copy, PartialEq, Eq, Structural)]
pub struct CoreInfo {
    pub id: usize,
    pub sibling_id: usize,
    pub core_type: CoreType,
}

/// A snapshot of the machine's cores. An empty `cores` means that the
/// topology is not available.
#[derive(Debug, Clone)]
pub struct CPUTopology {
    /// One entry per physical core.
    pub cores: Vec<CoreInfo>,
    /// Number of physical Performance cores.
    pub num_p_cores: usize,
    /// Number of physical Efficiency cores.
    pub num_e_cores: usize,
}

/// No logical core belongs to two physical cores: the primary ids differ from
/// each other, the siblings differ from each other, and no core's sibling is
/// another core's primary id.
pub open spec fn cores_disjoint(cores: Seq<CoreInfo>) -> bool {
    forall|i: int, j: int|
        0 <= i < cores.len() && 0 <= j < cores.len() && i != j ==> {
            &&& cores[i].id != cores[j].id
            &&& cores[i].sibling_id != cores[j].sibling_id
            &&& cores[i].sibling_id != cores[j].id
        }
}

/// Number of cores of kind `kind` in `cores`.
pub open spec fn count_of_type(cores: Seq<CoreInfo>, kind: CoreType) -> nat
    decreases cores.len(),
{
    if cores.len() == 0 {
        0
    } else {
        count_of_type(cores.drop_last(), kind) + if cores.last().core_type == kind {
            1nat
        } else {
            0nat
        }
    }
}

/// Adding one core raises the count of its kind by one and no other.
pub proof fn lemma_count_push(cores: Seq<CoreInfo>, core: CoreInfo, kind: CoreType)
    ensures
        count_of_type(cores.push(core), kind) == count_of_type(cores, kind) + if core.core_type
            == kind {
            1nat
        } else {
            0nat
        },
        count_of_type(cores, kind) <= cores.len(),
    decreases cores.len(),
{
    assert(cores.push(core).drop_last() =~= cores);
    if cores.len() > 0 {
        lemma_count_push(cores.drop_last(), cores.last(), kind);
        assert(cores.drop_last().push(cores.last()) =~= cores);
    }
}

/// The primary ids of the cores of kind `kind`, in the order of `cores`.
pub open spec fn primary_ids(cores: Seq<CoreInfo>, kind: CoreType) -> Seq<usize>
    decreases cores.len(),
{
    if cores.len() == 0 {
        Seq::empty()
    } else if cores.last().core_type == kind {
        primary_ids(cores.drop_last(), kind).push(cores.last().id)
    } else {
        primary_ids(cores.drop_last(), kind)
    }
}

/// The sibling ids of the cores of kind `kind`, in the order of `cores`.
pub open spec fn sibling_ids(cores: Seq<CoreInfo>, kind: CoreType) -> Seq<usize>
    decreases cores.len(),
{
    if cores.len() == 0 {
        Seq::empty()
    } else if cores.last().core_type == kind {
        sibling_ids(cores.drop_last(), kind).push(cores.last().sibling_id)
    } else {
        sibling_ids(cores.drop_last(), kind)
    }
}

/// Each core of kind `kind` followed at once by its sibling, in the order of
/// `cores`.
pub open spec fn paired_ids(cores: Seq<CoreInfo>, kind: CoreType) -> Seq<usize>
    decreases cores.len(),
{
    if cores.len() == 0 {
        Seq::empty()
    } else if cores.last().core_type == kind {
        paired_ids(cores.drop_last(), kind).push(cores.last().id).push(cores.last().sibling_id)
    } else {
        paired_ids(cores.drop_last(), kind)
    }
}

/// Logical core 0, followed by the sibling of the first physical core whose
/// primary id is 0, if there is such a core.
pub open spec fn core_zero_pair(cores: Seq<CoreInfo>) -> Seq<usize>
    decreases cores.len(),
{
    if cores.len() == 0 {
        seq![0usize]
    } else if cores[0].id == 0 {
        seq![0usize, cores[0].sibling_id]
    } else {
        core_zero_pair(cores.drop_first())
    }
}

/// The order in which the logical cores of a list of cores are preferred:
/// core 0 and its sibling, then each Performance core with its sibling, then
/// the Efficiency cores and after them their siblings, then the Unknown cores
/// and after them their siblings, the cores of a kind in the order of the
/// list. A logical core may occur more than once; its first place counts.
pub open spec fn listed_order(cores: Seq<CoreInfo>) -> Seq<usize> {
    core_zero_pair(cores) + paired_ids(cores, CoreType::Performance) + primary_ids(
        cores,
        CoreType::Efficiency,
    ) + sibling_ids(cores, CoreType::Efficiency) + primary_ids(cores, CoreType::Unknown)
        + sibling_ids(cores, CoreType::Unknown)
}

/// The order in which the logical cores of a topology are preferred: that of
/// `listed_order` with the cores of each kind in ascending order of their
/// primary ids, however the topology lists them.
pub open spec fn preference_order(cores: Seq<CoreInfo>) -> Seq<usize> {
    listed_order(by_ascending_id(cores))
}

/// The first `limit` distinct values of `order`, in the order of their first
/// occurrence.
pub open spec fn first_distinct(order: Seq<usize>, limit: nat) -> Seq<usize>
    decreases order.len(),
{
    if order.len() == 0 {
        Seq::empty()
    } else {
        let earlier = first_distinct(order.drop_last(), limit);
        if earlier.len() < limit && !earlier.contains(order.last()) {
            earlier.push(order.last())
        } else {
            earlier
        }
    }
}

/// Number of logical cores that a topology of `physical` cores is taken to
/// have: two per physical core.
pub open spec fn total_logical_cores(physical: nat) -> nat {
    2 * physical
}

/// `target_count` brought into `1 ..= total_logical_cores(physical)`; 0 where
/// there is no core at all.
pub open spec fn clamped_target(target_count: nat, physical: nat) -> nat {
    let wanted = if target_count < 1 {
        1
    } else {
        target_count
    };
    if wanted > total_logical_cores(physical) {
        total_logical_cores(physical)
    } else {
        wanted
    }
}

/// The logical cores chosen for `target_count`, in order of preference.
pub open spec fn chosen_cores(cores: Seq<CoreInfo>, target_count: nat) -> Seq<usize> {
    first_distinct(preference_order(cores), clamped_target(target_count, cores.len()))
}

/// `plan` is the enablement plan of `cores` for `target_count`: the chosen
/// logical cores, each once, in ascending order.
pub open spec fn is_plan(cores: Seq<CoreInfo>, target_count: nat, plan: Seq<usize>) -> bool {
    &&& strictly_ascending(plan)
    &&& forall|id: usize| plan.contains(id) <==> chosen_cores(cores, target_count).contains(id)
}

/// What `first_distinct` keeps: no value twice, at most `limit` values, only
/// values of `order`, and all of them while there is room; the first value of
/// `order` comes first.
pub proof fn lemma_first_distinct(order: Seq<usize>, limit: nat)
    ensures
        first_distinct(order, limit).no_duplicates(),
        first_distinct(order, limit).len() <= limit,
        first_distinct(order, limit).len() <= order.len(),
        forall|id: usize| first_distinct(order, limit).contains(id) ==> order.contains(id),
        first_distinct(order, limit).len() < limit ==> forall|id: usize|
            order.contains(id) ==> first_distinct(order, limit).contains(id),
        order.len() > 0 && limit > 0 ==> first_distinct(order, limit).len() > 0
            && first_distinct(order, limit)[0] == order[0],
    decreases order.len(),
{
    if order.len() > 0 {
        let head = order.drop_last();
        let earlier = first_distinct(head, limit);
        let kept = first_distinct(order, limit);
        lemma_first_distinct(head, limit);
        assert forall|id: usize| kept.contains(id) implies order.contains(id) by {
            let k = choose|k: int| 0 <= k < kept.len() && kept[k] == id;
            if k < earlier.len() {
                assert(earlier[k] == id);
                assert(earlier.contains(id));
                assert(head.contains(id));
                let m = choose|m: int| 0 <= m < head.len() && head[m] == id;
                assert(order[m] == id);
            } else {
                assert(order[order.len() - 1] == id);
            }
        }
        if kept.len() < limit {
            assert forall|id: usize| order.contains(id) implies kept.contains(id) by {
                let m = choose|m: int| 0 <= m < order.len() && order[m] == id;
                if m < head.len() {
                    assert(head[m] == id);
                    assert(head.contains(id));
                    assert(earlier.contains(id));
                    let k = choose|k: int| 0 <= k < earlier.len() && earlier[k] == id;
                    assert(kept[k] == id);
                } else if earlier.contains(id) {
                    let k = choose|k: int| 0 <= k < earlier.len() && earlier[k] == id;
                    assert(kept[k] == id);
                } else {
                    assert(kept[kept.len() - 1] == id);
                }
            }
        }
        if limit > 0 {
            if head.len() > 0 {
                assert(earlier[0] == head[0]);
                assert(kept[0] == earlier[0]);
            } else {
                assert(earlier.len() == 0);
                assert(kept[0] == order[0]);
            }
        }
    }
}

/// `first_distinct` keeps as many values as the limit allows, and never more
/// than there are distinct values.
pub proof fn lemma_first_distinct_len(order: Seq<usize>, limit: nat)
    ensures
        first_distinct(order, limit).len() == if limit <= order.to_set().len() {
            limit
        } else {
            order.to_set().len()
        },
{
    let kept = first_distinct(order, limit);
    lemma_first_distinct(order, limit);
    kept.unique_seq_to_set();
    vstd::seq_lib::seq_to_set_is_finite(order);
    vstd::seq_lib::seq_to_set_is_finite(kept);
    if kept.len() < limit {
        assert(kept.to_set() =~= order.to_set());
    } else {
        assert(kept.to_set().subset_of(order.to_set()));
        vstd::set_lib::lemma_len_subset(kept.to_set(), order.to_set());
    }
}

/// The order of preference always starts with logical core 0.
pub proof fn lemma_core_zero_first(cores: Seq<CoreInfo>)
    ensures
        preference_order(cores).len() > 0,
        preference_order(cores)[0] == 0,
{
    lemma_core_zero_pair_head(by_ascending_id(cores));
}

/// `core_zero_pair` starts with 0 and has one or two entries.
pub proof fn lemma_core_zero_pair_head(cores: Seq<CoreInfo>)
    ensures
        1 <= core_zero_pair(cores).len() <= 2,
        core_zero_pair(cores)[0] == 0,
    decreases cores.len(),
{
    if cores.len() > 0 && cores[0].id != 0 {
        lemma_core_zero_pair_head(cores.drop_first());
    }
}

/// Appends `core_zero_pair(cores)` to `order`.
fn append_core_zero_pair(order: &mut Vec<usize>, cores: &Vec<CoreInfo>)
    ensures
        final(order)@ == old(order)@ + core_zero_pair(cores@),
{
    order.push(0);
    let mut i: usize = 0;
    proof {
        assert(cores@.skip(0) =~= cores@);
    }
    while i < cores.len()
        invariant
            i <= cores.len(),
            order@ == old(order)@.push(0),
            core_zero_pair(cores@) == core_zero_pair(cores@.skip(i as int)),
        decreases cores.len() - i,
    {
        if cores[i].id == 0 {
            order.push(cores[i].sibling_id);
            proof {
                let rest = cores@.skip(i as int);
                assert(rest[0] == cores@[i as int]);
                assert(core_zero_pair(rest) == seq![0usize, cores@[i as int].sibling_id]);
                assert(order@ =~= old(order)@ + core_zero_pair(cores@));
            }
            return ;
        }
        proof {
            let rest = cores@.skip(i as int);
            assert(rest[0] == cores@[i as int]);
            assert(rest.drop_first() =~= cores@.skip(i + 1));
        }
        i += 1;
    }
    proof {
        assert(cores@.skip(i as int).len() == 0);
        assert(order@ =~= old(order)@ + core_zero_pair(cores@));
    }
}

/// Appends `paired_ids(cores, kind)` to `order`.
fn append_paired_ids(order: &mut Vec<usize>, cores: &Vec<CoreInfo>, kind: CoreType)
    ensures
        final(order)@ == old(order)@ + paired_ids(cores@, kind),
{
    let mut i: usize = 0;
    proof {
        assert(cores@.take(0).len() == 0);
        assert(order@ =~= old(order)@ + paired_ids(cores@.take(0), kind));
    }
    while i < cores.len()
        invariant
            i <= cores.len(),
            order@ == old(order)@ + paired_ids(cores@.take(i as int), kind),
        decreases cores.len() - i,
    {
        proof {
            assert(cores@.take(i + 1).drop_last() =~= cores@.take(i as int));
            assert(cores@.take(i + 1).last() == cores@[i as int]);
        }
        if cores[i].core_type == kind {
            order.push(cores[i].id);
            order.push(cores[i].sibling_id);
        }
        proof {
            assert(order@ =~= old(order)@ + paired_ids(cores@.take(i + 1), kind));
        }
        i += 1;
    }
    proof {
        assert(cores@.take(i as int) =~= cores@);
    }
}

/// Appends `primary_ids(cores, kind)` to `order`.
fn append_primary_ids(order: &mut Vec<usize>, cores: &Vec<CoreInfo>, kind: CoreType)
    ensures
        final(order)@ == old(order)@ + primary_ids(cores@, kind),
{
    let mut i: usize = 0;
    proof {
        assert(cores@.take(0).len() == 0);
        assert(order@ =~= old(order)@ + primary_ids(cores@.take(0), kind));
    }
    while i < cores.len()
        invariant
            i <= cores.len(),
            order@ == old(order)@ + primary_ids(cores@.take(i as int), kind),
        decreases cores.len() - i,
    {
        proof {
            assert(cores@.take(i + 1).drop_last() =~= cores@.take(i as int));
            assert(cores@.take(i + 1).last() == cores@[i as int]);
        }
        if cores[i].core_type == kind {
            order.push(cores[i].id);
        }
        proof {
            assert(order@ =~= old(order)@ + primary_ids(cores@.take(i + 1), kind));
        }
        i += 1;
    }
    proof {
        assert(cores@.take(i as int) =~= cores@);
    }
}

/// Appends `sibling_ids(cores, kind)` to `order`.
fn append_sibling_ids(order: &mut Vec<usize>, cores: &Vec<CoreInfo>, kind: CoreType)
    ensures
        final(order)@ == old(order)@ + sibling_ids(cores@, kind),
{
    let mut i: usize = 0;
    proof {
        assert(cores@.take(0).len() == 0);
        assert(order@ =~= old(order)@ + sibling_ids(cores@.take(0), kind));
    }
    while i < cores.len()
        invariant
            i <= cores.len(),
            order@ == old(order)@ + sibling_ids(cores@.take(i as int), kind),
        decreases cores.len() - i,
    {
        proof {
            assert(cores@.take(i + 1).drop_last() =~= cores@.take(i as int));
            assert(cores@.take(i + 1).last() == cores@[i as int]);
        }
        if cores[i].core_type == kind {
            order.push(cores[i].sibling_id);
        }
        proof {
            assert(order@ =~= old(order)@ + sibling_ids(cores@.take(i + 1), kind));
        }
        i += 1;
    }
    proof {
        assert(cores@.take(i as int) =~= cores@);
    }
}

/// The first `limit` distinct values of `order`, as a set.
fn select_cores(order: &Vec<usize>, limit: usize) -> (enabled: HashSet<usize>)
    ensures
        enabled@.finite(),
        enabled@.len() == first_distinct(order@, limit as nat).len(),
        forall|id: usize| enabled@.contains(id) <==> first_distinct(order@, limit as nat).contains(id),
{
    let mut enabled: HashSet<usize> = HashSet::new();
    let mut i: usize = 0;
    proof {
        assert(order@.take(0).len() == 0);
        assert(enabled@ =~= first_distinct(order@.take(0), limit as nat).to_set());
    }
    while i < order.len()
        invariant
            i <= order.len(),
            enabled@ == first_distinct(order@.take(i as int), limit as nat).to_set(),
        decreases order.len() - i,
    {
        let candidate = order[i];
        let ghost earlier = first_distinct(order@.take(i as int), limit as nat);
        proof {
            assert(order@.take(i + 1).drop_last() =~= order@.take(i as int));
            assert(order@.take(i + 1).last() == candidate);
            lemma_first_distinct(order@.take(i as int), limit as nat);
            earlier.unique_seq_to_set();
        }
        if enabled.len() < limit && !enabled.contains(&candidate) {
            enabled.insert(candidate);
            proof {
                let kept = first_distinct(order@.take(i + 1), limit as nat);
                assert(kept == earlier.push(candidate));
                assert forall|id: usize| kept.contains(id) <==> (earlier.contains(id) || id
                    == candidate) by {
                    if kept.contains(id) {
                        let k = choose|k: int| 0 <= k < kept.len() && kept[k] == id;
                        if k < earlier.len() {
                            assert(earlier[k] == id);
                        }
                    }
                    if earlier.contains(id) {
                        let k = choose|k: int| 0 <= k < earlier.len() && earlier[k] == id;
                        assert(kept[k] == id);
                    }
                    if id == candidate {
                        assert(kept[kept.len() - 1] == id);
                    }
                }
                assert(enabled@ =~= kept.to_set());
            }
        }
        i += 1;
    }
    proof {
        assert(order@.take(i as int) =~= order@);
        let kept = first_distinct(order@, limit as nat);
        lemma_first_distinct(order@, limit as nat);
        kept.unique_seq_to_set();
        vstd::seq_lib::seq_to_set_is_finite(kept);
    }
    enabled
}

/// The values of `enabled` in ascending order.
fn sorted_cores(enabled: &HashSet<usize>) -> (plan: Vec<usize>)
    ensures
        strictly_ascending(plan@),
        forall|id: usize| plan@.contains(id) <==> enabled@.contains(id),
{
    let mut plan: Vec<usize> = Vec::new();
    let ghost keys = spec_hash_keys_iter(enabled).remaining();
    let ghost mut taken: int = 0;
    for id in walk: enabled.iter()
        invariant
            strictly_ascending(plan@),
            walk.seq() == keys,
            taken == walk.index(),
            keys.no_duplicates(),
            forall|x: usize| plan@.contains(x) <==> exists|j: int| 0 <= j < taken && *keys[j] == x,
    {
        ascending_insert(&mut plan, *id);
        proof {
            taken = taken + 1;
        }
    }
    proof {
        assert(keys.unref().to_set() == enabled@);
        assert forall|id: usize| plan@.contains(id) <==> enabled@.contains(id) by {
            if plan@.contains(id) {
                let j = choose|j: int| 0 <= j < taken && *keys[j] == id;
                assert(keys.unref()[j] == id);
                assert(keys.unref().contains(id));
            }
            if enabled@.contains(id) {
                assert(keys.unref().contains(id));
                let j = choose|j: int| 0 <= j < keys.unref().len() && keys.unref()[j] == id;
                assert(*keys[j] == id);
            }
        }
    }
    plan
}

impl Default for CPUTopology {
    /// The empty topology.
    fn default() -> (topology: CPUTopology)
        ensures
            topology@ == Seq::<CoreInfo>::empty(),
            topology.num_p_cores == 0,
            topology.num_e_cores == 0,
    {
        CPUTopology::new()
    }
}

impl CPUTopology {
    /// The cores as a sequence.
    pub open spec fn view(&self) -> Seq<CoreInfo> {
        self.cores@
    }

    /// The two counters agree with the list of cores.
    pub open spec fn counts_consistent(&self) -> bool {
        &&& self.num_p_cores == count_of_type(self.cores@, CoreType::Performance)
        &&& self.num_e_cores == count_of_type(self.cores@, CoreType::Efficiency)
    }

    /// The empty topology, which stands for "topology unavailable".
    pub fn new() -> (topology: CPUTopology)
        ensures
            topology@ == Seq::<CoreInfo>::empty(),
            topology.num_p_cores == 0,
            topology.num_e_cores == 0,
            topology.counts_consistent(),
    {
        CPUTopology { cores: Vec::new(), num_p_cores: 0, num_e_cores: 0 }
    }

    /// The logical cores to keep enabled for `target_count`, in ascending
    /// order and each once.
    ///
    /// `target_count` is first brought into `1 ..= 2 * cores.len()`. The cores
    /// are then taken in the order of `preference_order`, the cores of a kind
    /// by ascending primary id, until the count is reached or no further
    /// logical core is known.
    pub fn get_cores_to_enable(&self, target_count: usize) -> (plan: Vec<usize>)
        ensures
            is_plan(self@, target_count as nat, plan@),
            plan@.len() == chosen_cores(self@, target_count as nat).len(),
            plan@.len() == if clamped_target(target_count as nat, self@.len())
                <= preference_order(self@).to_set().len() {
                clamped_target(target_count as nat, self@.len())
            } else {
                preference_order(self@).to_set().len()
            },
            self@.len() > 0 ==> plan@.len() > 0 && plan@[0] == 0,
    {
        let wanted: usize = if target_count < 1 {
            1
        } else {
            target_count
        };
        let limit: usize = match self.cores.len().checked_mul(2) {
            Some(total) => if wanted > total {
                total
            } else {
                wanted
            },
            None => wanted,
        };
        assert(limit == clamped_target(target_count as nat, self@.len()));
        let sorted = sort_by_id(&self.cores);
        let mut order: Vec<usize> = Vec::new();
        append_core_zero_pair(&mut order, &sorted);
        append_paired_ids(&mut order, &sorted, CoreType::Performance);
        append_primary_ids(&mut order, &sorted, CoreType::Efficiency);
        append_sibling_ids(&mut order, &sorted, CoreType::Efficiency);
        append_primary_ids(&mut order, &sorted, CoreType::Unknown);
        append_sibling_ids(&mut order, &sorted, CoreType::Unknown);
        assert(order@ =~= preference_order(self@));
        let enabled = select_cores(&order, limit);
        let plan = sorted_cores(&enabled);
        proof {
            lemma_first_distinct(order@, limit as nat);
            lemma_first_distinct_len(order@, limit as nat);
            lemma_plan_len(self@, target_count as nat, plan@);
            if self@.len() > 0 {
                lemma_plan_keeps_core_zero(self@, target_count as nat, plan@);
            }
        }
        plan
    }
}

} // verus!
