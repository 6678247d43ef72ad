//! A batch of core changes: which cores to switch, given what was observed of
//! each, and what becomes of the batch when a read or a write fails.
//!
//! The program around the library reads and writes the cores. For each core
//! it hands the observed state to `action_for`, carries out the action, and
//! reports how a write went to `record_write`.

use vstd::prelude::*;
use crate::ascending::{ascending_contains, strictly_ascending};

verus! {

/// Highest number of logical cores that is looked for.
pub const MAX_PROBED_CORES: usize = 256;

/// The energy-performance hint written when the governor leaves.
pub const DEFAULT_EPP_HINT: &'static str = "balance_performance";

/// What was read of a core's online state.
#[derive(Debug, Clone, Copy, PartialEq, Eq, Structural)]
pub enum CoreObservation {
    Online,
    Offline,
    /// The state could not be read.
    Unreadable,
}

/// What to do with a core.
#[derive(Debug, Clone, Copy, PartialEq, Eq, Structural)]
pub enum CoreAction {
    /// Write nothing.
    Keep,
    /// Bring the core online.
    Enable,
    /// Take the core offline.
    Disable,
}

/// Why a batch of core changes did not go through.
#[derive(Debug, Clone, Copy, PartialEq, Eq, Structural)]
pub enum ChangeError {
    /// No logical core was found.
    NoCores,
    /// The online state of this core could not be read.
    ReadFailed(usize),
    /// The online state of this core could not be written.
    WriteFailed(usize),
}

/// What was found of one logical core's control directory.
#[derive(Debug, Clone, Copy, PartialEq, Eq, Structural)]
pub struct CoreDirProbe {
    pub dir_exists: bool,
    pub has_online_file: bool,
}

/// Logical core `id` is available: it is among the first `MAX_PROBED_CORES`,
/// its directory exists and holds an online file (core 0 needs none), and no
/// directory of a core between 1 and `id` is missing.
pub open spec fn is_available(probes: Seq<CoreDirProbe>, id: int) -> bool {
    &&& 0 <= id < probes.len()
    &&& id < MAX_PROBED_CORES
    &&& probes[id].dir_exists
    &&& (id == 0 || probes[id].has_online_file)
    &&& forall|j: int| 0 < j < id ==> probes[j].dir_exists
}

/// The available cores with an id below `upto`, in ascending order.
pub open spec fn available_cores(probes: Seq<CoreDirProbe>, upto: nat) -> Seq<usize>
    decreases upto,
{
    if upto == 0 {
        Seq::empty()
    } else if is_available(probes, upto - 1) {
        available_cores(probes, (upto - 1) as nat).push((upto - 1) as usize)
    } else {
        available_cores(probes, (upto - 1) as nat)
    }
}

/// `cores` without logical core 0, in the same order.
pub open spec fn controllable_cores(cores: Seq<usize>) -> Seq<usize>
    decreases cores.len(),
{
    if cores.len() == 0 {
        Seq::empty()
    } else if cores.last() != 0 {
        controllable_cores(cores.drop_last()).push(cores.last())
    } else {
        controllable_cores(cores.drop_last())
    }
}

/// What a batch does with a core, given whether the batch is idle, whether
/// the core is wanted online and what was observed of it. Core 0 is never
/// touched, an idle batch touches nothing, and a core whose state could not
/// be read or is already as wanted is kept.
pub open spec fn planned_action(
    idle: bool,
    core: usize,
    wanted_online: bool,
    observed: CoreObservation,
) -> CoreAction {
    if idle || core == 0 {
        CoreAction::Keep
    } else {
        match observed {
            CoreObservation::Unreadable => CoreAction::Keep,
            CoreObservation::Online => if wanted_online {
                CoreAction::Keep
            } else {
                CoreAction::Disable
            },
            CoreObservation::Offline => if wanted_online {
                CoreAction::Enable
            } else {
                CoreAction::Keep
            },
        }
    }
}

/// Logical core 0 is never switched, whatever the batch wants and whatever was
/// observed; and no core is switched by an idle batch.
pub proof fn lemma_core_zero_is_kept(
    idle: bool,
    core: usize,
    wanted_online: bool,
    observed: CoreObservation,
)
    requires
        idle || core == 0,
    ensures
        planned_action(idle, core, wanted_online, observed) == CoreAction::Keep,
{
}

/// A batch of core changes towards one target.
pub struct CoreChanges {
    target: usize,
    idle: bool,
    flat: bool,
    plan: Vec<usize>,
    settle_ms: u64,
    last_error: Option<ChangeError>,
}

impl CoreChanges {
    /// The plan is in ascending order.
    pub closed spec fn wf(&self) -> bool {
        strictly_ascending(self.plan@)
    }

    /// The count of cores that the batch goes for.
    pub closed spec fn target(&self) -> usize {
        self.target
    }

    /// The batch has nothing to do.
    pub closed spec fn idle(&self) -> bool {
        self.idle
    }

    /// There is no topology: the cores wanted online are those with an id
    /// below the target.
    pub closed spec fn flat(&self) -> bool {
        self.flat
    }

    /// The cores wanted online where there is a topology.
    pub closed spec fn plan(&self) -> Seq<usize> {
        self.plan@
    }

    /// The time to wait after a core was enabled, in milliseconds.
    pub closed spec fn settle_ms(&self) -> u64 {
        self.settle_ms
    }

    /// The last failure of the batch, if any.
    pub closed spec fn last_error(&self) -> Option<ChangeError> {
        self.last_error
    }

    /// Logical core `core` is wanted online.
    pub open spec fn wants_online(&self, core: usize) -> bool {
        if self.flat() {
            core < self.target()
        } else {
            self.plan().contains(core)
        }
    }

    /// A batch without failures.
    pub(crate) fn open(target: usize, idle: bool, flat: bool, plan: Vec<usize>, settle_ms: u64) -> (changes:
        CoreChanges)
        requires
            strictly_ascending(plan@),
        ensures
            changes.wf(),
            changes.target() == target,
            changes.idle() == idle,
            changes.flat() == flat,
            changes.plan() == plan@,
            changes.settle_ms() == settle_ms,
            changes.last_error() == None::<ChangeError>,
    {
        CoreChanges { target, idle, flat, plan, settle_ms, last_error: None }
    }

    /// The count of cores that the batch goes for.
    pub fn target_cores(&self) -> (target: usize)
        ensures
            target == self.target(),
    {
        self.target
    }

    /// Whether the batch has nothing to do, so that no core needs to be looked
    /// at.
    pub fn is_idle(&self) -> (idle: bool)
        ensures
            idle == self.idle(),
    {
        self.idle
    }

    /// Takes note that no logical core was found to work on. This counts as a
    /// failure of the batch.
    pub fn record_no_cores(&mut self)
        ensures
            final(self).last_error() == Some(ChangeError::NoCores),
            final(self).wf() == old(self).wf(),
            final(self).target() == old(self).target(),
            final(self).idle() == old(self).idle(),
            final(self).flat() == old(self).flat(),
            final(self).plan() == old(self).plan(),
            final(self).settle_ms() == old(self).settle_ms(),
    {
        self.last_error = Some(ChangeError::NoCores);
    }

    /// The last failure of the batch, if any.
    pub fn failure(&self) -> (error: Option<ChangeError>)
        ensures
            error == self.last_error(),
    {
        self.last_error
    }

    /// Whether logical core `core` is wanted online.
    pub fn is_wanted_online(&self, core: usize) -> (wanted: bool)
        requires
            self.wf(),
        ensures
            wanted == self.wants_online(core),
    {
        if self.flat {
            core < self.target
        } else {
            ascending_contains(&self.plan, core)
        }
    }

    /// What to do with logical core `core`, of which `observed` was read.
    ///
    /// Core 0 is kept whatever was observed. A state that could not be read
    /// counts as a failure of the batch, and the core is kept.
    pub fn action_for(&mut self, core: usize, observed: CoreObservation) -> (action: CoreAction)
        requires
            old(self).wf(),
        ensures
            action == planned_action(
                old(self).idle(),
                core,
                old(self).wants_online(core),
                observed,
            ),
            core == 0 ==> action == CoreAction::Keep,
            final(self).last_error() == if !old(self).idle() && core != 0 && observed
                == CoreObservation::Unreadable {
                Some(ChangeError::ReadFailed(core))
            } else {
                old(self).last_error()
            },
            final(self).wf(),
            final(self).target() == old(self).target(),
            final(self).idle() == old(self).idle(),
            final(self).flat() == old(self).flat(),
            final(self).plan() == old(self).plan(),
            final(self).settle_ms() == old(self).settle_ms(),
    {
        if self.idle || core == 0 {
            return CoreAction::Keep;
        }
        let wanted = self.is_wanted_online(core);
        match observed {
            CoreObservation::Unreadable => {
                self.last_error = Some(ChangeError::ReadFailed(core));
                CoreAction::Keep
            },
            CoreObservation::Online => if wanted {
                CoreAction::Keep
            } else {
                CoreAction::Disable
            },
            CoreObservation::Offline => if wanted {
                CoreAction::Enable
            } else {
                CoreAction::Keep
            },
        }
    }

    /// Takes note of how the write for `action` on logical core `core` went,
    /// and returns the time to wait before the next core, in milliseconds: the
    /// settling time after a core was enabled, otherwise none. A write that
    /// failed counts as a failure of the batch.
    pub fn record_write(&mut self, core: usize, action: CoreAction, succeeded: bool) -> (wait_ms:
        u64)
        ensures
            wait_ms == if succeeded && action == CoreAction::Enable {
                old(self).settle_ms()
            } else {
                0
            },
            final(self).last_error() == if !succeeded && action != CoreAction::Keep {
                Some(ChangeError::WriteFailed(core))
            } else {
                old(self).last_error()
            },
            final(self).wf() == old(self).wf(),
            final(self).target() == old(self).target(),
            final(self).idle() == old(self).idle(),
            final(self).flat() == old(self).flat(),
            final(self).plan() == old(self).plan(),
            final(self).settle_ms() == old(self).settle_ms(),
    {
        match action {
            CoreAction::Keep => 0,
            CoreAction::Enable => {
                if succeeded {
                    self.settle_ms
                } else {
                    self.last_error = Some(ChangeError::WriteFailed(core));
                    0
                }
            },
            CoreAction::Disable => {
                if !succeeded {
                    self.last_error = Some(ChangeError::WriteFailed(core));
                }
                0
            },
        }
    }
}

} // verus!
