//! The online state of a logical core, as its control file gives and takes
//! it.

use vstd::prelude::*;
use crate::changes::{ChangeError, CoreObservation};
use crate::text::{reads_as_one, trimmed};

verus! {

/// What came of reading a control file.
#[derive(Debug, Clone, PartialEq, Eq)]
pub enum FileRead {
    /// The bytes of the file.
    Content(Vec<u8>),
    /// There is no such file.
    NotFound,
    /// The file could not be read.
    Failed,
}

/// The bytes that a reading holds, if it holds any.
pub open spec fn content_of(reading: FileRead) -> Option<Seq<u8>> {
    match reading {
        FileRead::Content(content) => Some(content@),
        FileRead::NotFound => None,
        FileRead::Failed => None,
    }
}

/// The write that switches a logical core: the core and the byte to put into
/// its online file, the digit 1 or the digit 0.
#[derive(Debug, Clone, Copy, PartialEq, Eq, Structural)]
pub struct OnlineWrite {
    pub cpu: usize,
    pub value: u8,
}

/// The content of an online file says that the core is online: it is the
/// digit 1 between white space.
pub open spec fn says_online(content: Seq<u8>) -> bool {
    trimmed(content) == seq![49u8]
}

/// The online state of logical core `cpu_number` by what was read of its
/// online file. Core 0 is always online. Any other core is online where its
/// file says so, and counts as offline where it has no online file or the file
/// could not be read: a failed probe is never an error.
pub open spec fn online_state(cpu_number: usize, reading: FileRead) -> Result<bool, ChangeError> {
    if cpu_number == 0 {
        Ok(true)
    } else {
        match reading {
            FileRead::Content(content) => Ok(says_online(content@)),
            FileRead::NotFound => Ok(false),
            FileRead::Failed => Ok(false),
        }
    }
}

/// What is observed of a core whose online file gave `reading`: online or
/// offline by its content, unreadable without content.
pub open spec fn observation(reading: FileRead) -> CoreObservation {
    match reading {
        FileRead::Content(content) => if says_online(content@) {
            CoreObservation::Online
        } else {
            CoreObservation::Offline
        },
        FileRead::NotFound => CoreObservation::Unreadable,
        FileRead::Failed => CoreObservation::Unreadable,
    }
}

/// The online state of logical core `cpu_number` by what was read of its
/// online file.
pub fn read_cpu_online_state(cpu_number: usize, reading: &FileRead) -> (state: Result<
    bool,
    ChangeError,
>)
    ensures
        state == online_state(cpu_number, *reading),
        state is Ok,
{
    if cpu_number == 0 {
        return Ok(true);
    }
    match reading {
        FileRead::Content(content) => Ok(reads_as_one(content.as_slice())),
        FileRead::NotFound => Ok(false),
        FileRead::Failed => Ok(false),
    }
}

/// What is observed of a core whose online file gave `reading`.
pub fn observe_core(reading: &FileRead) -> (observed: CoreObservation)
    ensures
        observed == observation(*reading),
{
    match reading {
        FileRead::Content(content) => if reads_as_one(content.as_slice()) {
            CoreObservation::Online
        } else {
            CoreObservation::Offline
        },
        FileRead::NotFound => CoreObservation::Unreadable,
        FileRead::Failed => CoreObservation::Unreadable,
    }
}

/// Whether a core whose online file gave `reading` counts as active when the
/// load is summed: it does where the file says so, and does not where the
/// file could not be read.
pub fn counts_as_active(reading: &FileRead) -> (active: bool)
    ensures
        active == (observation(*reading) == CoreObservation::Online),
{
    match observe_core(reading) {
        CoreObservation::Online => true,
        CoreObservation::Offline => false,
        CoreObservation::Unreadable => false,
    }
}

/// The write that brings logical core `cpu_number` online or takes it
/// offline. There is none for core 0, whose state is never changed.
pub fn set_cpu_online_state(cpu_number: usize, online: bool) -> (write: Option<OnlineWrite>)
    ensures
        write == if cpu_number == 0 {
            None
        } else {
            Some(
                OnlineWrite {
                    cpu: cpu_number,
                    value: if online {
                        49u8
                    } else {
                        48u8
                    },
                },
            )
        },
{
    if cpu_number == 0 {
        None
    } else if online {
        Some(OnlineWrite { cpu: cpu_number, value: 49 })
    } else {
        Some(OnlineWrite { cpu: cpu_number, value: 48 })
    }
}

} // verus!
