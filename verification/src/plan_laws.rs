//! What holds of every enablement plan.

use vstd::prelude::*;
use crate::ascending::{lemma_ascending_unique, strictly_ascending};
use crate::id_order::{
    by_ascending_id, ids_ascending, lemma_ascending_list_is_kept, lemma_same_cores,
};
use crate::topology::{
    chosen_cores, clamped_target, core_zero_pair, cores_disjoint, first_distinct, is_plan, lemma_core_zero_first,
    lemma_first_distinct, lemma_first_distinct_len, listed_order, paired_ids, preference_order,
    primary_ids,
    sibling_ids, total_logical_cores, CoreInfo, CoreType,
};

verus! {

/// Every physical core has an SMT sibling of its own: no logical core belongs
/// to two physical cores, and no core is its own sibling.
pub open spec fn fully_paired(cores: Seq<CoreInfo>) -> bool {
    &&& cores_disjoint(cores)
    &&& forall|i: int| 0 <= i < cores.len() ==> cores[i].sibling_id != cores[i].id
}

/// The primary ids of `cores` followed by their sibling ids.
pub open spec fn logical_ids(cores: Seq<CoreInfo>) -> Seq<usize> {
    Seq::new(
        2 * cores.len(),
        |k: int|
            if k < cores.len() {
                cores[k].id
            } else {
                cores[k - cores.len()].sibling_id
            },
    )
}

/// A value is in a concatenation exactly if it is in one of the two parts.
pub proof fn lemma_concat_contains(a: Seq<usize>, b: Seq<usize>, x: usize)
    ensures
        (a + b).contains(x) <==> (a.contains(x) || b.contains(x)),
{
    if a.contains(x) {
        let k = choose|k: int| 0 <= k < a.len() && a[k] == x;
        assert((a + b)[k] == x);
    }
    if b.contains(x) {
        let k = choose|k: int| 0 <= k < b.len() && b[k] == x;
        assert((a + b)[a.len() + k] == x);
    }
    if (a + b).contains(x) {
        let k = choose|k: int| 0 <= k < (a + b).len() && (a + b)[k] == x;
        if k < a.len() {
            assert(a[k] == x);
        } else {
            assert(b[k - a.len()] == x);
        }
    }
}

/// A core of kind `kind` is listed, with its sibling, in each of the three
/// listings of that kind.
pub proof fn lemma_kind_members(cores: Seq<CoreInfo>, kind: CoreType, k: int)
    requires
        0 <= k < cores.len(),
        cores[k].core_type == kind,
    ensures
        primary_ids(cores, kind).contains(cores[k].id),
        sibling_ids(cores, kind).contains(cores[k].sibling_id),
        paired_ids(cores, kind).contains(cores[k].id),
        paired_ids(cores, kind).contains(cores[k].sibling_id),
    decreases cores.len(),
{
    let head = cores.drop_last();
    if k < cores.len() - 1 {
        lemma_kind_members(head, kind, k);
        assert(head[k] == cores[k]);
        let a = choose|a: int|
            0 <= a < primary_ids(head, kind).len() && primary_ids(head, kind)[a] == cores[k].id;
        assert(primary_ids(cores, kind)[a] == cores[k].id);
        let b = choose|b: int|
            0 <= b < sibling_ids(head, kind).len() && sibling_ids(head, kind)[b]
                == cores[k].sibling_id;
        assert(sibling_ids(cores, kind)[b] == cores[k].sibling_id);
        let c = choose|c: int|
            0 <= c < paired_ids(head, kind).len() && paired_ids(head, kind)[c] == cores[k].id;
        assert(paired_ids(cores, kind)[c] == cores[k].id);
        let d = choose|d: int|
            0 <= d < paired_ids(head, kind).len() && paired_ids(head, kind)[d]
                == cores[k].sibling_id;
        assert(paired_ids(cores, kind)[d] == cores[k].sibling_id);
    } else {
        let p = primary_ids(cores, kind);
        assert(p[p.len() - 1] == cores[k].id);
        let s = sibling_ids(cores, kind);
        assert(s[s.len() - 1] == cores[k].sibling_id);
        let q = paired_ids(cores, kind);
        assert(q[q.len() - 2] == cores[k].id);
        assert(q[q.len() - 1] == cores[k].sibling_id);
    }
}

/// Every primary id and every sibling id of `cores` occurs in the order in
/// which the list is preferred.
pub proof fn lemma_listed_order_covers(cores: Seq<CoreInfo>, k: int)
    requires
        0 <= k < cores.len(),
    ensures
        listed_order(cores).contains(cores[k].id),
        listed_order(cores).contains(cores[k].sibling_id),
{
    let zero = core_zero_pair(cores);
    let p = paired_ids(cores, CoreType::Performance);
    let e1 = primary_ids(cores, CoreType::Efficiency);
    let e2 = sibling_ids(cores, CoreType::Efficiency);
    let u1 = primary_ids(cores, CoreType::Unknown);
    let u2 = sibling_ids(cores, CoreType::Unknown);
    let id = cores[k].id;
    let sib = cores[k].sibling_id;
    lemma_kind_members(cores, cores[k].core_type, k);
    lemma_concat_contains(zero, p, id);
    lemma_concat_contains(zero, p, sib);
    lemma_concat_contains(zero + p, e1, id);
    lemma_concat_contains(zero + p, e1, sib);
    lemma_concat_contains(zero + p + e1, e2, id);
    lemma_concat_contains(zero + p + e1, e2, sib);
    lemma_concat_contains(zero + p + e1 + e2, u1, id);
    lemma_concat_contains(zero + p + e1 + e2, u1, sib);
    lemma_concat_contains(zero + p + e1 + e2 + u1, u2, id);
    lemma_concat_contains(zero + p + e1 + e2 + u1, u2, sib);
}

/// Every primary id and every sibling id of `cores` occurs in the order of
/// preference.
pub proof fn lemma_order_covers(cores: Seq<CoreInfo>, k: int)
    requires
        0 <= k < cores.len(),
    ensures
        preference_order(cores).contains(cores[k].id),
        preference_order(cores).contains(cores[k].sibling_id),
{
    let sorted = by_ascending_id(cores);
    lemma_same_cores(cores, cores[k]);
    assert(cores.contains(cores[k]));
    let m = choose|m: int| 0 <= m < sorted.len() && sorted[m] == cores[k];
    lemma_listed_order_covers(sorted, m);
}

/// A topology whose list has ascending primary ids, as every discovered one
/// has, is preferred in the order of its list.
pub proof fn lemma_ascending_topology_order(cores: Seq<CoreInfo>)
    requires
        ids_ascending(cores),
    ensures
        preference_order(cores) == listed_order(cores),
{
    lemma_ascending_list_is_kept(cores);
}

/// In a fully paired topology the order of preference holds at least two
/// distinct logical cores per physical core.
pub proof fn lemma_paired_order_is_rich(cores: Seq<CoreInfo>)
    requires
        fully_paired(cores),
    ensures
        known_logical_cores(cores) >= total_logical_cores(cores.len()),
{
    let all = logical_ids(cores);
    let order = preference_order(cores);
    let n = cores.len() as int;
    assert forall|i: int, j: int| 0 <= i < all.len() && 0 <= j < all.len() && i != j implies all[i]
        != all[j] by {
        if i < n && j < n {
            assert(cores[i].id != cores[j].id);
        } else if i >= n && j >= n {
            assert(cores[i - n].sibling_id != cores[j - n].sibling_id);
        } else if i < n {
            if i != j - n {
                assert(cores[j - n].sibling_id != cores[i].id);
            }
        } else {
            if j != i - n {
                assert(cores[i - n].sibling_id != cores[j].id);
            }
        }
    }
    assert(all.no_duplicates());
    all.unique_seq_to_set();
    vstd::seq_lib::seq_to_set_is_finite(order);
    assert forall|x: usize| all.to_set().contains(x) implies order.to_set().contains(x) by {
        assert(all.contains(x));
        let k = choose|k: int| 0 <= k < all.len() && all[k] == x;
        if k < n {
            lemma_order_covers(cores, k);
        } else {
            lemma_order_covers(cores, k - n);
        }
    }
    assert(all.to_set().subset_of(order.to_set()));
    vstd::set_lib::lemma_len_subset(all.to_set(), order.to_set());
}

/// A plan has as many entries as there are chosen cores.
pub proof fn lemma_plan_len(cores: Seq<CoreInfo>, target_count: nat, plan: Seq<usize>)
    requires
        is_plan(cores, target_count, plan),
    ensures
        plan.len() == chosen_cores(cores, target_count).len(),
{
    let chosen = chosen_cores(cores, target_count);
    lemma_first_distinct(preference_order(cores), clamped_target(target_count, cores.len()));
    assert(plan.no_duplicates()) by {
        assert forall|i: int, j: int| 0 <= i < plan.len() && 0 <= j < plan.len() && i != j implies plan[i]
            != plan[j] by {
            if i < j {
                assert(plan[i] < plan[j]);
            } else {
                assert(plan[j] < plan[i]);
            }
        }
    }
    plan.unique_seq_to_set();
    chosen.unique_seq_to_set();
    assert(plan.to_set() =~= chosen.to_set());
}

/// Planning is deterministic: a topology and a target count have one plan, so
/// planning twice for the same count gives the same list of cores.
pub proof fn lemma_plan_is_unique(
    cores: Seq<CoreInfo>,
    target_count: nat,
    first: Seq<usize>,
    second: Seq<usize>,
)
    requires
        is_plan(cores, target_count, first),
        is_plan(cores, target_count, second),
    ensures
        first == second,
{
    lemma_ascending_unique(first, second);
}

/// Number of distinct logical cores that the topology knows of, logical core
/// 0 among them.
pub open spec fn known_logical_cores(cores: Seq<CoreInfo>) -> nat {
    preference_order(cores).to_set().len()
}

/// The smaller of the target and the number of logical cores, two per
/// physical core.
pub open spec fn wanted_size(cores: Seq<CoreInfo>, target_count: nat) -> nat {
    if target_count <= total_logical_cores(cores.len()) {
        target_count
    } else {
        total_logical_cores(cores.len())
    }
}

/// The plan for a target of at least one core holds exactly the smaller of
/// the target and the number of logical cores, wherever the topology knows of
/// that many distinct logical cores.
pub proof fn lemma_plan_size(cores: Seq<CoreInfo>, target_count: nat, plan: Seq<usize>)
    requires
        target_count >= 1 || cores.len() == 0,
        wanted_size(cores, target_count) <= known_logical_cores(cores),
        is_plan(cores, target_count, plan),
    ensures
        plan.len() == wanted_size(cores, target_count),
{
    lemma_plan_len(cores, target_count, plan);
    lemma_first_distinct_len(preference_order(cores), clamped_target(target_count, cores.len()));
}

/// Where every physical core has an SMT sibling of its own, the plan for a
/// target of at least one core holds exactly the smaller of the target and
/// the number of logical cores.
pub proof fn lemma_plan_size_paired(cores: Seq<CoreInfo>, target_count: nat, plan: Seq<usize>)
    requires
        fully_paired(cores),
        target_count >= 1,
        is_plan(cores, target_count, plan),
    ensures
        plan.len() == wanted_size(cores, target_count),
{
    lemma_paired_order_is_rich(cores);
    lemma_plan_size(cores, target_count, plan);
}

/// Where the topology has at least one core, the plan for any target holds
/// logical core 0, in the first place.
pub proof fn lemma_plan_keeps_core_zero(cores: Seq<CoreInfo>, target_count: nat, plan: Seq<usize>)
    requires
        cores.len() > 0,
        is_plan(cores, target_count, plan),
    ensures
        plan.len() > 0,
        plan[0] == 0,
        plan.contains(0usize),
{
    let limit = clamped_target(target_count, cores.len());
    let kept = first_distinct(preference_order(cores), limit);
    lemma_core_zero_first(cores);
    lemma_first_distinct(preference_order(cores), limit);
    assert(kept[0] == 0);
    assert(kept.contains(0usize));
    assert(plan.contains(0usize));
    let k = choose|k: int| 0 <= k < plan.len() && plan[k] == 0usize;
    if k > 0 {
        assert(plan[0] < plan[k]);
    }
}

} // verus!
