//! Errors returned by shutdown requests.

use vstd::prelude::*;

verus! {

/// Why a shutdown request was refused.
///
/// Every kind is recoverable at the caller: the operator can retry, pick a
/// different target, or wait. Heartbeats never fail and so never produce one.
#[derive(Clone, Copy, Debug, PartialEq, Eq, Structural)]
pub enum StatusError {
    /// No group with the requested name exists.
    GroupNotFound,
    /// The requested group exists but holds no computer with the requested name.
    ComputerNotFound,
    /// A single-computer shutdown was requested while the computer is not
    /// in the online state.
    IneligibleState,
    /// A group shutdown was requested while no computer of the group is in
    /// the online state.
    NoEligibleMembers,
}

impl StatusError {
    /// The reason strings shown to an operator.
    pub open spec fn spec_description(self) -> Seq<char> {
        match self {
            StatusError::GroupNotFound => "No group with this name"@,
            StatusError::ComputerNotFound => "No computer with this name in this group"@,
            StatusError::IneligibleState => {
                "Unable to shutdown a computer which is not in the online state"@
            },
            StatusError::NoEligibleMembers => {
                "Unable to shutdown a group where no computer is in the online state"@
            },
        }
    }

    /// A human-readable reason for the failure.
    pub fn description(&self) -> (r: &'static str)
        ensures
            r@ == self.spec_description(),
    {
        match self {
            StatusError::GroupNotFound => "No group with this name",
            StatusError::ComputerNotFound => "No computer with this name in this group",
            StatusError::IneligibleState => {
                "Unable to shutdown a computer which is not in the online state"
            },
            StatusError::NoEligibleMembers => {
                "Unable to shutdown a group where no computer is in the online state"
            },
        }
    }
}

} // verus!
