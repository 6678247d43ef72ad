//! The physical cores of a topology in ascending order of their primary ids.

use vstd::prelude::*;
use crate::topology::CoreInfo;

verus! {

/// The primary ids of `cores` do not go down from left to right.
pub open spec fn ids_ascending(cores: Seq<CoreInfo>) -> bool {
    forall|i: int, j: int| 0 <= i < j < cores.len() ==> cores[i].id <= cores[j].id
}

/// Number of cores of `cores` whose primary id is at most `id`.
pub open spec fn rank_by_id(cores: Seq<CoreInfo>, id: usize) -> nat
    decreases cores.len(),
{
    if cores.len() == 0 {
        0
    } else {
        rank_by_id(cores.drop_last(), id) + if cores.last().id <= id {
            1nat
        } else {
            0nat
        }
    }
}

/// The cores of `cores` in ascending order of their primary ids. Cores with
/// the same primary id keep the order in which `cores` lists them.
pub open spec fn by_ascending_id(cores: Seq<CoreInfo>) -> Seq<CoreInfo>
    decreases cores.len(),
{
    if cores.len() == 0 {
        Seq::empty()
    } else {
        let earlier = by_ascending_id(cores.drop_last());
        earlier.insert(rank_by_id(earlier, cores.last().id) as int, cores.last())
    }
}

/// In a list with ascending ids the cores with an id of at most `id` are
/// exactly the first `rank_by_id(cores, id)` ones.
pub proof fn lemma_rank_by_id(cores: Seq<CoreInfo>, id: usize)
    requires
        ids_ascending(cores),
    ensures
        rank_by_id(cores, id) <= cores.len(),
        forall|i: int| 0 <= i < rank_by_id(cores, id) ==> cores[i].id <= id,
        forall|i: int| rank_by_id(cores, id) <= i < cores.len() ==> cores[i].id > id,
    decreases cores.len(),
{
    if cores.len() > 0 {
        let head = cores.drop_last();
        assert forall|i: int, j: int| 0 <= i < j < head.len() implies head[i].id <= head[j].id by {
            assert(cores[i].id <= cores[j].id);
        }
        lemma_rank_by_id(head, id);
        if cores.last().id <= id {
            assert forall|i: int| 0 <= i < head.len() implies head[i].id <= id by {
                assert(cores[i].id <= cores[cores.len() - 1].id);
            }
            assert(rank_by_id(head, id) == head.len()) by {
                if rank_by_id(head, id) < head.len() {
                    assert(head[rank_by_id(head, id) as int].id > id);
                }
            }
        }
        assert forall|i: int| 0 <= i < rank_by_id(cores, id) implies cores[i].id <= id by {
            if i < head.len() {
                assert(cores[i] == head[i]);
            }
        }
        assert forall|i: int| rank_by_id(cores, id) <= i < cores.len() implies cores[i].id
            > id by {
            if i < head.len() {
                assert(cores[i] == head[i]);
            }
        }
    }
}

/// A core put between the cores with an id of at most its own and the cores
/// with a larger id leaves the ids ascending.
pub proof fn lemma_insert_keeps_order(cores: Seq<CoreInfo>, at: int, core: CoreInfo)
    requires
        ids_ascending(cores),
        0 <= at <= cores.len(),
        forall|i: int| 0 <= i < at ==> cores[i].id <= core.id,
        forall|i: int| at <= i < cores.len() ==> cores[i].id > core.id,
    ensures
        ids_ascending(cores.insert(at, core)),
{
    let longer = cores.insert(at, core);
    assert forall|i: int, j: int| 0 <= i < j < longer.len() implies longer[i].id
        <= longer[j].id by {
        if j < at {
            assert(longer[i] == cores[i] && longer[j] == cores[j]);
        } else if j == at {
            assert(longer[i] == cores[i]);
        } else if i < at {
            assert(longer[i] == cores[i] && longer[j] == cores[j - 1]);
        } else if i == at {
            assert(longer[j] == cores[j - 1]);
        } else {
            assert(longer[i] == cores[i - 1] && longer[j] == cores[j - 1]);
        }
    }
}

/// A list with one core put in holds that core and every core it held before,
/// and nothing else.
pub proof fn lemma_insert_holds(cores: Seq<CoreInfo>, at: int, core: CoreInfo, other: CoreInfo)
    requires
        0 <= at <= cores.len(),
    ensures
        cores.insert(at, core).contains(other) <==> (other == core || cores.contains(other)),
{
    let longer = cores.insert(at, core);
    if cores.contains(other) {
        let m = choose|m: int| 0 <= m < cores.len() && cores[m] == other;
        if m < at {
            assert(longer[m] == other);
        } else {
            assert(longer[m + 1] == other);
        }
    }
    if other == core {
        assert(longer[at] == other);
    }
    if longer.contains(other) {
        let m = choose|m: int| 0 <= m < longer.len() && longer[m] == other;
        if m < at {
            assert(cores[m] == other);
        } else if m > at {
            assert(cores[m - 1] == other);
        }
    }
}

/// Putting the cores in ascending order of their ids gives a list with
/// ascending ids and as many cores as before.
pub proof fn lemma_by_ascending_id(cores: Seq<CoreInfo>)
    ensures
        ids_ascending(by_ascending_id(cores)),
        by_ascending_id(cores).len() == cores.len(),
    decreases cores.len(),
{
    if cores.len() > 0 {
        let earlier = by_ascending_id(cores.drop_last());
        lemma_by_ascending_id(cores.drop_last());
        lemma_rank_by_id(earlier, cores.last().id);
        lemma_insert_keeps_order(
            earlier,
            rank_by_id(earlier, cores.last().id) as int,
            cores.last(),
        );
    }
}

/// Putting the cores in ascending order of their ids neither drops a core nor
/// brings one in.
pub proof fn lemma_same_cores(cores: Seq<CoreInfo>, core: CoreInfo)
    ensures
        by_ascending_id(cores).contains(core) <==> cores.contains(core),
    decreases cores.len(),
{
    if cores.len() > 0 {
        let head = cores.drop_last();
        let earlier = by_ascending_id(head);
        lemma_same_cores(head, core);
        lemma_by_ascending_id(head);
        lemma_rank_by_id(earlier, cores.last().id);
        lemma_insert_holds(earlier, rank_by_id(earlier, cores.last().id) as int, cores.last(), core);
        if head.contains(core) {
            let k = choose|k: int| 0 <= k < head.len() && head[k] == core;
            assert(cores[k] == core);
        }
        if core == cores.last() {
            assert(cores[cores.len() - 1] == core);
        }
        if cores.contains(core) {
            let k = choose|k: int| 0 <= k < cores.len() && cores[k] == core;
            if k < head.len() {
                assert(head[k] == core);
            }
        }
    }
}

/// A list whose ids ascend already is in ascending order of ids: putting it in
/// that order changes nothing.
pub proof fn lemma_ascending_list_is_kept(cores: Seq<CoreInfo>)
    requires
        ids_ascending(cores),
    ensures
        by_ascending_id(cores) == cores,
    decreases cores.len(),
{
    if cores.len() > 0 {
        let head = cores.drop_last();
        assert forall|i: int, j: int| 0 <= i < j < head.len() implies head[i].id <= head[j].id by {
            assert(cores[i].id <= cores[j].id);
        }
        lemma_ascending_list_is_kept(head);
        lemma_rank_by_id(head, cores.last().id);
        assert(rank_by_id(head, cores.last().id) == head.len()) by {
            if rank_by_id(head, cores.last().id) < head.len() {
                let i = rank_by_id(head, cores.last().id) as int;
                assert(head[i].id > cores.last().id);
                assert(cores[i].id <= cores[cores.len() - 1].id);
            }
        }
        assert(head.insert(head.len() as int, cores.last()) =~= cores);
    }
}

/// The cores of `cores` in ascending order of their primary ids.
pub(crate) fn sort_by_id(cores: &Vec<CoreInfo>) -> (sorted: Vec<CoreInfo>)
    ensures
        sorted@ == by_ascending_id(cores@),
{
    let mut sorted: Vec<CoreInfo> = Vec::new();
    let mut i: usize = 0;
    proof {
        assert(cores@.take(0).len() == 0);
    }
    while i < cores.len()
        invariant
            i <= cores.len(),
            sorted@ == by_ascending_id(cores@.take(i as int)),
        decreases cores.len() - i,
    {
        let core = cores[i];
        proof {
            assert(cores@.take(i + 1).drop_last() =~= cores@.take(i as int));
            assert(cores@.take(i + 1).last() == core);
            lemma_by_ascending_id(cores@.take(i as int));
            lemma_rank_by_id(sorted@, core.id);
        }
        let ghost rank = rank_by_id(sorted@, core.id);
        let mut at: usize = 0;
        while at < sorted.len() && sorted[at].id <= core.id
            invariant
                at <= sorted.len(),
                at <= rank <= sorted@.len(),
                forall|k: int| rank <= k < sorted@.len() ==> sorted@[k].id > core.id,
            decreases sorted.len() - at,
        {
            proof {
                if at as int >= rank {
                    assert(sorted@[at as int].id > core.id);
                }
            }
            at += 1;
        }
        proof {
            if (at as int) < rank {
                assert(sorted@[at as int].id <= core.id);
            }
        }
        sorted.insert(at, core);
        i += 1;
    }
    proof {
        assert(cores@.take(i as int) =~= cores@);
    }
    sorted
}

} // verus!
