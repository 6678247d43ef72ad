//! Writing the energy-performance hint to the frequency-scaling policies:
//! which directory entries are policies, and what a run of writes amounts to.

use vstd::prelude::*;
use crate::text::{starts_with, starts_with_bytes};

verus! {

/// How the write of the hint to one policy went.
#[derive(Debug, Clone, Copy, PartialEq, Eq, Structural)]
pub enum EppWrite {
    Written,
    /// The write was refused for want of privilege.
    PermissionDenied,
    /// The write failed for another reason.
    Failed,
}

/// A run of writes of the hint did not go through everywhere: the policy
/// that the failure is reported for, and whether any write of the run was
/// refused for want of privilege.
#[derive(Debug, Clone, Copy, PartialEq, Eq, Structural)]
pub struct EppFailed {
    pub policy: usize,
    pub permission_denied: bool,
}

/// The bytes of the word "policy", with which the name of a policy directory
/// begins.
pub open spec fn policy_prefix() -> Seq<u8> {
    seq![112u8, 111u8, 108u8, 105u8, 99u8, 121u8]
}

/// Every write among `outcomes` went through.
pub open spec fn all_written(outcomes: Seq<EppWrite>) -> bool {
    forall|i: int| 0 <= i < outcomes.len() ==> outcomes[i] == EppWrite::Written
}

/// No write among `outcomes` was refused for want of privilege.
pub open spec fn none_denied(outcomes: Seq<EppWrite>) -> bool {
    forall|i: int| 0 <= i < outcomes.len() ==> outcomes[i] != EppWrite::PermissionDenied
}

/// `policy` is the first write among `outcomes` that did not go through.
pub open spec fn first_unwritten(outcomes: Seq<EppWrite>, policy: int) -> bool {
    &&& 0 <= policy < outcomes.len()
    &&& outcomes[policy] != EppWrite::Written
    &&& all_written(outcomes.take(policy))
}

/// `policy` is the first write among `outcomes` that was refused for want of
/// privilege.
pub open spec fn first_denied(outcomes: Seq<EppWrite>, policy: int) -> bool {
    &&& 0 <= policy < outcomes.len()
    &&& outcomes[policy] == EppWrite::PermissionDenied
    &&& none_denied(outcomes.take(policy))
}

/// `failure` is what a run with the outcomes `outcomes` is reported as: where
/// a write was refused for want of privilege, it says so and names the first
/// policy that was refused; otherwise it names the first policy whose write
/// did not go through.
pub open spec fn reports_run(outcomes: Seq<EppWrite>, failure: EppFailed) -> bool {
    if none_denied(outcomes) {
        !failure.permission_denied && first_unwritten(outcomes, failure.policy as int)
    } else {
        failure.permission_denied && first_denied(outcomes, failure.policy as int)
    }
}

/// Whether a directory entry of this name is a frequency-scaling policy.
pub fn is_policy_name(name: &[u8]) -> (policy: bool)
    ensures
        policy == starts_with_bytes(name@, policy_prefix()),
{
    let prefix: [u8; 6] = [112, 111, 108, 105, 99, 121];
    assert(prefix@ =~= policy_prefix());
    starts_with(name, prefix.as_slice())
}

/// What a run of writes of the hint amounts to, where `outcomes[i]` is how the
/// write to the policy with index `i` went. No failure ends the run: every
/// policy is written to, and the failures come back as one error.
///
/// The run succeeds exactly where every write went through, and then gives
/// the number of policies written. Otherwise the error names one policy that
/// failed and says whether any write was refused for want of privilege, as
/// `reports_run` has it.
pub fn set_epp_hint(outcomes: &Vec<EppWrite>) -> (updated: Result<usize, EppFailed>)
    ensures
        match updated {
            Ok(count) => all_written(outcomes@) && count == outcomes@.len(),
            Err(failure) => reports_run(outcomes@, failure),
        },
{
    let mut unwritten: Option<usize> = None;
    let mut denied: Option<usize> = None;
    let mut i: usize = 0;
    while i < outcomes.len()
        invariant
            i <= outcomes.len(),
            match unwritten {
                Some(policy) => policy < i && first_unwritten(outcomes@, policy as int),
                None => forall|k: int| 0 <= k < i ==> outcomes@[k] == EppWrite::Written,
            },
            match denied {
                Some(policy) => policy < i && first_denied(outcomes@, policy as int),
                None => forall|k: int| 0 <= k < i ==> outcomes@[k] != EppWrite::PermissionDenied,
            },
        decreases outcomes.len() - i,
    {
        match outcomes[i] {
            EppWrite::Written => {},
            EppWrite::PermissionDenied => {
                if unwritten.is_none() {
                    unwritten = Some(i);
                }
                if denied.is_none() {
                    denied = Some(i);
                }
            },
            EppWrite::Failed => {
                if unwritten.is_none() {
                    unwritten = Some(i);
                }
            },
        }
        i += 1;
    }
    match denied {
        Some(policy) => {
            assert(outcomes@[policy as int] == EppWrite::PermissionDenied);
            Err(EppFailed { policy, permission_denied: true })
        },
        None => match unwritten {
            Some(policy) => Err(EppFailed { policy, permission_denied: false }),
            None => Ok(outcomes.len()),
        },
    }
}

} // verus!
