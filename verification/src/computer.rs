//! The per-machine lifecycle: command state plus last-heartbeat timestamp.

use vstd::prelude::*;

use crate::errors::StatusError;
use crate::state::State;

verus! {

/// One machine's entry in the registry: its command state and the timestamp,
/// in seconds, of its last heartbeat.
///
/// Timestamps are plain seconds on a monotonic clock supplied by the caller;
/// the registry never reads a clock itself.
#[derive(Clone, Copy, Debug, PartialEq, Eq, Structural)]
pub struct ComputerStatus {
    pub state: State,
    pub last_pong_date: u64,
}

impl ComputerStatus {
    /// The entry a first heartbeat at time `now` creates: online, just seen.
    pub open spec fn spec_fresh(now: u64) -> ComputerStatus {
        ComputerStatus { state: State::Online, last_pong_date: now }
    }

    /// The entry after a shutdown request is accepted for it: state moves to
    /// `ShutdownRequested`, the timestamp is untouched.
    pub open spec fn spec_requested(self) -> ComputerStatus {
        ComputerStatus { state: State::ShutdownRequested, last_pong_date: self.last_pong_date }
    }

    /// The entry after a heartbeat at time `now`, paired with the state
    /// reported to the agent. A pending `ShutdownRequested` flips to
    /// `ShutdownAccepted` as a side effect of being observed, but the state
    /// reported on that triggering heartbeat is still `ShutdownRequested`,
    /// since that is the actionable signal.
    pub open spec fn spec_heartbeat(self, now: u64) -> (ComputerStatus, State) {
        if self.state is ShutdownRequested {
            (ComputerStatus { state: State::ShutdownAccepted, last_pong_date: now },
            State::ShutdownRequested)
        } else {
            (ComputerStatus { state: self.state, last_pong_date: now }, self.state)
        }
    }

    /// Whether the machine has not heartbeated for at least `threshold`
    /// seconds at time `now` and is due for eviction.
    pub open spec fn spec_is_stale(self, now: u64, threshold: u64) -> bool {
        now >= self.last_pong_date + threshold
    }

    /// A machine enters the registry online, at the moment of its first
    /// heartbeat.
    pub fn new(now: u64) -> (r: ComputerStatus)
        ensures
            r == ComputerStatus::spec_fresh(now),
    {
        ComputerStatus { state: State::Online, last_pong_date: now }
    }

    /// Records a heartbeat at time `now`. Never fails; the state is untouched.
    pub fn update_pong_date(&mut self, now: u64)
        ensures
            final(self).state == old(self).state,
            final(self).last_pong_date == now,
    {
        self.last_pong_date = now;
    }

    /// A machine is eligible for shutdown exactly while it is online.
    pub fn may_request_shutdown(&self) -> (r: bool)
        ensures
            r == (self.state is Online),
    {
        self.state == State::Online
    }

    /// Requests the machine's shutdown: succeeds exactly when the machine is
    /// online, moving it to `ShutdownRequested`; otherwise fails with
    /// `IneligibleState` and changes nothing.
    pub fn request_shutdown(&mut self) -> (r: Result<(), StatusError>)
        ensures
            old(self).state is Online ==> r == Ok::<(), StatusError>(())
                && *final(self) == old(self).spec_requested(),
            !(old(self).state is Online) ==> r == Err::<(), StatusError>(
                StatusError::IneligibleState,
            ) && *final(self) == *old(self),
    {
        if self.may_request_shutdown() {
            self.state = State::ShutdownRequested;
            Ok(())
        } else {
            Err(StatusError::IneligibleState)
        }
    }

    /// Whether a requested shutdown is still awaiting the agent's
    /// acknowledging heartbeat.
    pub fn should_shutdown(&self) -> (r: bool)
        ensures
            r == (self.state is ShutdownRequested),
    {
        self.state == State::ShutdownRequested
    }

    /// Marks the pending shutdown as delivered, once the agent has observed
    /// it through a heartbeat.
    pub fn accept_shutdown(&mut self)
        ensures
            final(self).state == State::ShutdownAccepted,
            final(self).last_pong_date == old(self).last_pong_date,
    {
        self.state = State::ShutdownAccepted;
    }

    /// Whether the machine is due for eviction at time `now` with the given
    /// staleness threshold in seconds.
    pub fn is_stale(&self, now: u64, threshold: u64) -> (r: bool)
        ensures
            r == self.spec_is_stale(now, threshold),
    {
        now >= self.last_pong_date && now - self.last_pong_date >= threshold
    }
}

} // verus!
