//! Building the topology from what the control files say of each logical CPU:
//! which CPUs are siblings, and which physical cores are Performance cores
//! and which Efficiency cores.

use vstd::prelude::*;
use std::collections::HashSet;
use crate::cpu::{content_of, FileRead};
use crate::text::{parse_sibling, parse_trimmed_number, parsed_number, sibling_of, trimmed};
use crate::topology::{count_of_type, lemma_count_push, CPUTopology, CoreInfo, CoreType};

verus! {

broadcast use vstd::std_specs::hash::group_hash_axioms;

/// What was read of one logical CPU: the logical id of its SMT partner (its
/// own id where it has none or the list could not be read) and its maximum
/// frequency in kHz, if that could be read.
#[derive(Debug, Clone, Copy, PartialEq, Eq, Structural)]
pub struct CoreProbe {
    pub sibling_id: usize,
    pub max_freq_khz: Option<usize>,
}

/// The maximum frequency that the text of a core's frequency file writes
/// between the white space at its ends; none where the file could not be read
/// or writes no number.
pub open spec fn frequency_of(reading: FileRead) -> Option<usize> {
    match content_of(reading) {
        Some(text) => parsed_number(trimmed(text)),
        None => None,
    }
}

impl CoreProbe {
    /// What the files of logical core `id` say of it: `siblings` is what came
    /// of reading its list of thread siblings, `max_freq` what came of reading
    /// its maximum frequency.
    pub fn from_readings(id: usize, siblings: &FileRead, max_freq: &FileRead) -> (probe: CoreProbe)
        ensures
            probe.sibling_id == sibling_of(content_of(*siblings), id),
            probe.max_freq_khz == frequency_of(*max_freq),
    {
        let sibling_id = match siblings {
            FileRead::Content(text) => parse_sibling(text.as_slice(), id),
            FileRead::NotFound => id,
            FileRead::Failed => id,
        };
        let max_freq_khz = match max_freq {
            FileRead::Content(text) => parse_trimmed_number(text.as_slice()),
            FileRead::NotFound => None,
            FileRead::Failed => None,
        };
        CoreProbe { sibling_id, max_freq_khz }
    }
}

/// Number of logical CPUs that were found before the first one that is
/// missing: the enumeration ends at the first gap.
pub open spec fn present_count(found: Seq<Option<CoreProbe>>) -> nat
    decreases found.len(),
{
    if found.len() == 0 || found[0] is None {
        0
    } else {
        1 + present_count(found.drop_first())
    }
}

/// The probes of the logical CPUs that were found before the first one that
/// is missing. What stands behind a gap is not looked at.
pub open spec fn present_probes(found: Seq<Option<CoreProbe>>) -> Seq<CoreProbe> {
    Seq::new(present_count(found), |i: int| found[i]->0)
}

/// The count of the CPUs before the first gap, for a list that begins with
/// `count` CPUs that were found and goes on with a gap or ends there.
pub proof fn lemma_present_count(found: Seq<Option<CoreProbe>>, count: int)
    requires
        0 <= count <= found.len(),
        forall|i: int| 0 <= i < count ==> found[i] is Some,
        count < found.len() ==> found[count] is None,
    ensures
        present_count(found) == count,
    decreases count,
{
    if count > 0 {
        let rest = found.drop_first();
        assert forall|i: int| 0 <= i < count - 1 implies rest[i] is Some by {
            assert(rest[i] == found[i + 1]);
        }
        if count < found.len() {
            assert(rest[count - 1] == found[count]);
        }
        lemma_present_count(rest, count - 1);
    }
}

/// The highest maximum frequency among `probes`; 0 where none could be read.
pub open spec fn highest_frequency(probes: Seq<CoreProbe>) -> nat
    decreases probes.len(),
{
    if probes.len() == 0 {
        0
    } else {
        let earlier = highest_frequency(probes.drop_last());
        match probes.last().max_freq_khz {
            Some(freq) => if freq > earlier {
                freq as nat
            } else {
                earlier
            },
            None => earlier,
        }
    }
}

/// The kind of a core by its maximum frequency: Efficiency below three
/// quarters of the highest frequency of the machine, Performance from there
/// on, Unknown without a frequency.
pub open spec fn classify(max_freq_khz: Option<usize>, highest: nat) -> CoreType {
    match max_freq_khz {
        None => CoreType::Unknown,
        Some(freq) => if 4 * freq < 3 * highest {
            CoreType::Efficiency
        } else {
            CoreType::Performance
        },
    }
}

/// Logical core `id` already belongs to one of `cores`, as its primary id or
/// as its sibling.
pub open spec fn claimed(cores: Seq<CoreInfo>, id: int) -> bool {
    exists|j: int| 0 <= j < cores.len() && (cores[j].id == id || cores[j].sibling_id == id)
}

/// The physical cores found among the logical CPUs `0 .. upto`: going up by
/// id, a logical CPU opens a new physical core, and takes its reported sibling
/// with it, unless an earlier core has claimed it.
pub open spec fn discovered_cores(probes: Seq<CoreProbe>, upto: nat) -> Seq<CoreInfo>
    decreases upto,
{
    if upto == 0 {
        Seq::empty()
    } else {
        let earlier = discovered_cores(probes, (upto - 1) as nat);
        let id = upto - 1;
        if claimed(earlier, id) {
            earlier
        } else {
            earlier.push(
                CoreInfo {
                    id: id as usize,
                    sibling_id: probes[id].sibling_id,
                    core_type: classify(probes[id].max_freq_khz, highest_frequency(probes)),
                },
            )
        }
    }
}

/// The primary ids of `cores` go up strictly and stay below `bound`.
pub open spec fn ids_ascending_below(cores: Seq<CoreInfo>, bound: nat) -> bool {
    &&& forall|i: int, j: int| 0 <= i < j < cores.len() ==> cores[i].id < cores[j].id
    &&& forall|i: int| 0 <= i < cores.len() ==> cores[i].id < bound
}

/// The highest maximum frequency among `probes`.
fn find_highest_frequency(probes: &Vec<CoreProbe>) -> (highest: usize)
    ensures
        highest == highest_frequency(probes@),
{
    let mut highest: usize = 0;
    let mut i: usize = 0;
    proof {
        assert(probes@.take(0).len() == 0);
    }
    while i < probes.len()
        invariant
            i <= probes.len(),
            highest == highest_frequency(probes@.take(i as int)),
        decreases probes.len() - i,
    {
        proof {
            assert(probes@.take(i + 1).drop_last() =~= probes@.take(i as int));
            assert(probes@.take(i + 1).last() == probes@[i as int]);
        }
        match probes[i].max_freq_khz {
            Some(freq) => {
                if freq > highest {
                    highest = freq;
                }
            },
            None => {},
        }
        i += 1;
    }
    proof {
        assert(probes@.take(i as int) =~= probes@);
    }
    highest
}

/// The kind of a core with maximum frequency `max_freq_khz` on a machine whose
/// highest frequency is `highest`.
pub fn classify_core(max_freq_khz: Option<usize>, highest: usize) -> (kind: CoreType)
    ensures
        kind == classify(max_freq_khz, highest as nat),
{
    match max_freq_khz {
        None => CoreType::Unknown,
        Some(freq) => {
            let scaled_freq: u128 = (freq as u128) * 4;
            let scaled_highest: u128 = (highest as u128) * 3;
            if scaled_freq < scaled_highest {
                CoreType::Efficiency
            } else {
                CoreType::Performance
            }
        },
    }
}

impl CPUTopology {
    /// Builds the topology from what was found of the logical CPUs `0, 1, 2,
    /// ..` in this order, where `found[i]` is `None` for a CPU that is missing.
    /// The enumeration ends at the first missing CPU: the topology is that of
    /// the CPUs before it, whatever was found behind the gap.
    pub fn discover_until_gap(found: &Vec<Option<CoreProbe>>) -> (topology: CPUTopology)
        ensures
            topology@ == discovered_cores(present_probes(found@), present_count(found@)),
            topology.counts_consistent(),
            ids_ascending_below(topology@, present_count(found@)),
            present_count(found@) > 0 ==> topology@.len() > 0 && topology@[0].id == 0,
            topology.num_p_cores + topology.num_e_cores <= topology@.len() <= present_count(
                found@,
            ),
    {
        let mut probes: Vec<CoreProbe> = Vec::new();
        let mut i: usize = 0;
        while i < found.len()
            invariant
                i <= found.len(),
                probes@.len() == i,
                forall|k: int| 0 <= k < i ==> found@[k] == Some(probes@[k]),
            ensures
                i <= found.len(),
                probes@.len() == i,
                forall|k: int| 0 <= k < i ==> found@[k] == Some(probes@[k]),
                i < found.len() ==> found@[i as int] is None,
            decreases found.len() - i,
        {
            match found[i] {
                Some(probe) => {
                    probes.push(probe);
                },
                None => {
                    break ;
                },
            }
            i += 1;
        }
        proof {
            lemma_present_count(found@, i as int);
            assert(probes@ =~= present_probes(found@));
        }
        CPUTopology::discover(&probes)
    }

    /// Builds the topology from what was read of the logical CPUs `0, 1, 2, ..`
    /// in this order: `probes[i]` belongs to logical CPU `i`.
    ///
    /// No probes give the empty topology. Otherwise each SMT pair becomes one
    /// physical core, named by its lower logical id, and is classified by its
    /// maximum frequency against the highest one of the machine. Cores of
    /// unknown kind count neither as Performance nor as Efficiency cores.
    pub fn discover(probes: &Vec<CoreProbe>) -> (topology: CPUTopology)
        ensures
            topology@ == discovered_cores(probes@, probes@.len()),
            topology.counts_consistent(),
            ids_ascending_below(topology@, probes@.len()),
            probes@.len() > 0 ==> topology@.len() > 0 && topology@[0].id == 0,
            topology.num_p_cores + topology.num_e_cores <= topology@.len() <= probes@.len(),
    {
        let highest = find_highest_frequency(probes);
        let count = probes.len();
        let mut processed: HashSet<usize> = HashSet::new();
        let mut cores: Vec<CoreInfo> = Vec::new();
        let mut p_cores: usize = 0;
        let mut e_cores: usize = 0;
        let mut id: usize = 0;
        while id < count
            invariant
                id <= count,
                count == probes@.len(),
                highest == highest_frequency(probes@),
                cores@ == discovered_cores(probes@, id as nat),
                forall|m: usize| processed@.contains(m) <==> claimed(cores@, m as int),
                ids_ascending_below(cores@, id as nat),
                cores@.len() <= id,
                id > 0 ==> cores@.len() > 0 && cores@[0].id == 0,
                p_cores == count_of_type(cores@, CoreType::Performance),
                e_cores == count_of_type(cores@, CoreType::Efficiency),
                p_cores + e_cores <= cores@.len(),
            decreases count - id,
        {
            if !processed.contains(&id) {
                let ghost before = cores@;
                let sibling_id = probes[id].sibling_id;
                let core_type = classify_core(probes[id].max_freq_khz, highest);
                let core = CoreInfo { id, sibling_id, core_type };
                proof {
                    lemma_count_push(before, core, CoreType::Performance);
                    lemma_count_push(before, core, CoreType::Efficiency);
                }
                cores.push(core);
                match core_type {
                    CoreType::Performance => {
                        p_cores += 1;
                    },
                    CoreType::Efficiency => {
                        e_cores += 1;
                    },
                    CoreType::Unknown => {},
                }
                processed.insert(id);
                if sibling_id != id {
                    processed.insert(sibling_id);
                }
                proof {
                    let after = cores@;
                    assert(after[before.len() as int] == core);
                    assert forall|m: usize| processed@.contains(m) <==> claimed(
                        after,
                        m as int,
                    ) by {
                        if claimed(before, m as int) {
                            let j = choose|j: int|
                                0 <= j < before.len() && (before[j].id == m
                                    || before[j].sibling_id == m);
                            assert(after[j] == before[j]);
                        }
                        if claimed(after, m as int) && !claimed(before, m as int) {
                            let j = choose|j: int|
                                0 <= j < after.len() && (after[j].id == m || after[j].sibling_id
                                    == m);
                            if j < before.len() {
                                assert(before[j] == after[j]);
                            }
                        }
                    }
                }
            }
            id += 1;
        }
        CPUTopology { cores, num_p_cores: p_cores, num_e_cores: e_cores }
    }
}

} // verus!
