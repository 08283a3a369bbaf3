//! The agent-facing wire strings and the operator-facing error reasons.

use shutdown_on_lan::errors::StatusError;
use shutdown_on_lan::State;

#[test]
fn wire_names_are_the_fixed_protocol_strings() {
    assert_eq!(State::Online.wire_name(), "online");
    assert_eq!(State::ShutdownRequested.wire_name(), "shutdown_requested");
    assert_eq!(State::ShutdownAccepted.wire_name(), "shutdown_accepted");
}

#[test]
fn from_wire_inverts_wire_name() {
    for st in [
        State::Online,
        State::ShutdownRequested,
        State::ShutdownAccepted,
    ] {
        let name = String::from(st.wire_name());
        assert_eq!(State::from_wire(&name), Some(st));
    }
}

#[test]
fn from_wire_rejects_unknown_strings() {
    assert_eq!(State::from_wire(&String::from("")), None);
    assert_eq!(State::from_wire(&String::from("offline")), None);
    assert_eq!(State::from_wire(&String::from("Online")), None);
    assert_eq!(State::from_wire(&String::from("shutdown")), None);
}

#[test]
fn error_descriptions_name_the_reason() {
    assert_eq!(
        StatusError::GroupNotFound.description(),
        "No group with this name"
    );
    assert_eq!(
        StatusError::ComputerNotFound.description(),
        "No computer with this name in this group"
    );
    assert_eq!(
        StatusError::IneligibleState.description(),
        "Unable to shutdown a computer which is not in the online state"
    );
    assert_eq!(
        StatusError::NoEligibleMembers.description(),
        "Unable to shutdown a group where no computer is in the online state"
    );
}
