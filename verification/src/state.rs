//! The per-machine command state and its wire representation.

use vstd::prelude::*;

verus! {

/// Number of seconds an agent sleeps between two heartbeats.
pub const PONG_SLEEP_SECONDS: u64 = 4;

/// A machine that has not heartbeated for this many seconds is evicted by the
/// staleness sweep. The threshold is a fixed multiple of the heartbeat
/// interval, never an unrelated absolute value.
pub const CLEANUP_THRESHOLD_SECONDS: u64 = 4 * PONG_SLEEP_SECONDS;

/// Command state of one machine.
///
/// The state only ever moves forward along
/// `Online -> ShutdownRequested -> ShutdownAccepted`; it never reverts except
/// by the machine being evicted and recreated fresh as `Online`.
#[derive(Clone, Copy, Debug, PartialEq, Eq, Structural)]
pub enum State {
    Online,
    ShutdownRequested,
    ShutdownAccepted,
}

impl State {
    /// Position of a state along the one-way lifecycle: `Online` first,
    /// `ShutdownAccepted` last.
    pub open spec fn rank(self) -> int {
        match self {
            State::Online => 0,
            State::ShutdownRequested => 1,
            State::ShutdownAccepted => 2,
        }
    }

    /// Whether `self` comes no later than `other` along the one-way
    /// lifecycle.
    pub open spec fn spec_le(self, other: State) -> bool {
        self.rank() <= other.rank()
    }

    /// The fixed three-value string enumeration that agents parse.
    pub open spec fn spec_wire_name(self) -> Seq<char> {
        match self {
            State::Online => "online"@,
            State::ShutdownRequested => "shutdown_requested"@,
            State::ShutdownAccepted => "shutdown_accepted"@,
        }
    }

    /// Wire representation of this state, one of `"online"`,
    /// `"shutdown_requested"` and `"shutdown_accepted"`. This mapping is the
    /// agent-facing protocol and must be preserved exactly.
    pub fn wire_name(&self) -> (r: &'static str)
        ensures
            r@ == self.spec_wire_name(),
    {
        match self {
            State::Online => "online",
            State::ShutdownRequested => "shutdown_requested",
            State::ShutdownAccepted => "shutdown_accepted",
        }
    }

    /// Parses a wire string back into a state: the inverse of [`Self::wire_name`].
    /// Returns `None` exactly on strings that name no state.
    pub fn from_wire(s: &String) -> (r: Option<State>)
        ensures
            match r {
                Some(st) => s@ == st.spec_wire_name(),
                None => forall|st: State| s@ != st.spec_wire_name(),
            },
    {
        let online: String = "online".to_owned();
        let requested: String = "shutdown_requested".to_owned();
        let accepted: String = "shutdown_accepted".to_owned();
        if *s == online {
            Some(State::Online)
        } else if *s == requested {
            Some(State::ShutdownRequested)
        } else if *s == accepted {
            Some(State::ShutdownAccepted)
        } else {
            proof {
                assert forall|st: State| s@ != st.spec_wire_name() by {
                    match st {
                        State::Online => {},
                        State::ShutdownRequested => {},
                        State::ShutdownAccepted => {},
                    }
                }
            }
            None
        }
    }
}

} // verus!
