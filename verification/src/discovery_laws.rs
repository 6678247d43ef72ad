//! What holds of every discovered topology.

use vstd::prelude::*;
use crate::discovery::{claimed, discovered_cores, CoreProbe};
use crate::topology::cores_disjoint;

verus! {

/// The probes agree on who is whose sibling: the sibling of every logical CPU
/// is one of the probed CPUs, and names that CPU as its own sibling.
pub open spec fn symmetric_probes(probes: Seq<CoreProbe>) -> bool {
    forall|k: int|
        0 <= k < probes.len() ==> (#[trigger] probes[k]).sibling_id < probes.len()
            && probes[probes[k].sibling_id as int].sibling_id == k
}

/// Every discovered core has an id below `upto` and the sibling that its
/// probe names.
pub proof fn lemma_discovered_from_probes(probes: Seq<CoreProbe>, upto: nat)
    requires
        upto <= usize::MAX,
    ensures
        forall|i: int|
            0 <= i < discovered_cores(probes, upto).len() ==> {
                &&& (#[trigger] discovered_cores(probes, upto)[i]).id < upto
                &&& discovered_cores(probes, upto)[i].sibling_id
                    == probes[discovered_cores(probes, upto)[i].id as int].sibling_id
            },
    decreases upto,
{
    if upto > 0 {
        lemma_discovered_from_probes(probes, (upto - 1) as nat);
        let earlier = discovered_cores(probes, (upto - 1) as nat);
        let cores = discovered_cores(probes, upto);
        assert forall|i: int| 0 <= i < cores.len() implies (#[trigger] cores[i]).id < upto
            && cores[i].sibling_id == probes[cores[i].id as int].sibling_id by {
            if i < earlier.len() {
                assert(cores[i] == earlier[i]);
            }
        }
    }
}

/// Where the probes agree on who is whose sibling, no logical core belongs to
/// two of the discovered physical cores.
pub proof fn lemma_discovered_cores_disjoint(probes: Seq<CoreProbe>, upto: nat)
    requires
        symmetric_probes(probes),
        upto <= probes.len() <= usize::MAX,
    ensures
        cores_disjoint(discovered_cores(probes, upto)),
    decreases upto,
{
    if upto > 0 {
        let earlier = discovered_cores(probes, (upto - 1) as nat);
        let cores = discovered_cores(probes, upto);
        let id = upto - 1;
        lemma_discovered_cores_disjoint(probes, (upto - 1) as nat);
        lemma_discovered_from_probes(probes, (upto - 1) as nat);
        if !claimed(earlier, id) {
            let sibling = probes[id].sibling_id;
            assert(probes[sibling as int].sibling_id == id);
            assert forall|i: int| 0 <= i < earlier.len() implies {
                &&& earlier[i].id != id
                &&& earlier[i].sibling_id != id
                &&& earlier[i].sibling_id != sibling
                &&& earlier[i].id != sibling
            } by {
                let owner = earlier[i].id as int;
                assert(earlier[i].sibling_id == probes[owner].sibling_id);
                assert(probes[probes[owner].sibling_id as int].sibling_id == owner);
            }
            assert forall|i: int, j: int|
                0 <= i < cores.len() && 0 <= j < cores.len() && i != j implies {
                &&& cores[i].id != cores[j].id
                &&& cores[i].sibling_id != cores[j].sibling_id
                &&& cores[i].sibling_id != cores[j].id
            } by {
                if i < earlier.len() {
                    assert(cores[i] == earlier[i]);
                }
                if j < earlier.len() {
                    assert(cores[j] == earlier[j]);
                }
            }
        }
    }
}

} // verus!
