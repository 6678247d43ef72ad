//! The source of power, as the power supplies of the machine show it.

use vstd::prelude::*;
use crate::cpu::{says_online, FileRead};
use crate::text::{contains_bytes, contains_pattern, reads_as_one};

verus! {

/// Where the machine draws its power from.
#[derive(Debug, Clone, Copy, PartialEq, Eq, Structural)]
pub enum PowerState {
    AC,
    Battery,
    Unknown,
}

impl PowerState {
    /// Whether the governor works by its battery settings: it does on
    /// battery, and works by its AC settings on AC power and where the source
    /// of power is unknown.
    pub fn on_battery(&self) -> (battery: bool)
        ensures
            battery == (*self == PowerState::Battery),
    {
        match self {
            PowerState::Battery => true,
            PowerState::AC => false,
            PowerState::Unknown => false,
        }
    }
}

/// One entry of the directory of power supplies: its path, and what came of
/// reading its online file.
#[derive(Debug, Clone, PartialEq, Eq)]
pub struct PowerSupply {
    pub path: Vec<u8>,
    pub online: FileRead,
}

/// The two letters by which the path of an AC adapter is known.
pub open spec fn ac_marker() -> Seq<u8> {
    seq![65u8, 67u8]
}

/// The path is that of an AC adapter: it holds the letters AC.
pub open spec fn is_ac_adapter(path: Seq<u8>) -> bool {
    contains_bytes(path, ac_marker())
}

/// The source of power that an AC adapter shows: AC where its online file
/// says 1, battery where it says anything else, unknown where the file could
/// not be read.
pub open spec fn adapter_state(online: FileRead) -> PowerState {
    match online {
        FileRead::Content(content) => if says_online(content@) {
            PowerState::AC
        } else {
            PowerState::Battery
        },
        FileRead::NotFound => PowerState::Unknown,
        FileRead::Failed => PowerState::Unknown,
    }
}

/// The source of power by the first AC adapter among `supplies`; unknown
/// without one.
pub open spec fn power_state_of(supplies: Seq<PowerSupply>) -> PowerState
    decreases supplies.len(),
{
    if supplies.len() == 0 {
        PowerState::Unknown
    } else if is_ac_adapter(supplies[0].path@) {
        adapter_state(supplies[0].online)
    } else {
        power_state_of(supplies.drop_first())
    }
}

/// Whether the path is that of an AC adapter, whose online file is then worth
/// reading.
pub fn is_ac_path(path: &[u8]) -> (adapter: bool)
    ensures
        adapter == is_ac_adapter(path@),
{
    let marker: [u8; 2] = [65, 67];
    assert(marker@ =~= ac_marker());
    contains_pattern(path, marker.as_slice())
}

/// The source of power by the entries of the directory of power supplies, in
/// the order in which the directory lists them.
pub fn get_power_state(supplies: &Vec<PowerSupply>) -> (state: PowerState)
    ensures
        state == power_state_of(supplies@),
{
    let marker: [u8; 2] = [65, 67];
    assert(marker@ =~= ac_marker());
    let mut i: usize = 0;
    proof {
        assert(supplies@.skip(0) =~= supplies@);
    }
    while i < supplies.len()
        invariant
            i <= supplies.len(),
            marker@ == ac_marker(),
            power_state_of(supplies@) == power_state_of(supplies@.skip(i as int)),
        decreases supplies.len() - i,
    {
        let supply = &supplies[i];
        proof {
            let rest = supplies@.skip(i as int);
            assert(rest[0] == supplies@[i as int]);
            assert(rest.drop_first() =~= supplies@.skip(i + 1));
        }
        if contains_pattern(supply.path.as_slice(), marker.as_slice()) {
            return match &supply.online {
                FileRead::Content(content) => if reads_as_one(content.as_slice()) {
                    PowerState::AC
                } else {
                    PowerState::Battery
                },
                FileRead::NotFound => PowerState::Unknown,
                FileRead::Failed => PowerState::Unknown,
            };
        }
        i += 1;
    }
    PowerState::Unknown
}

} // verus!
