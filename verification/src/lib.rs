//! In-memory registry for remotely powering off a fleet of machines.
//!
//! Machines are organized into named groups. Each machine's agent reports
//! liveness through periodic heartbeats; the registry answers every heartbeat
//! with the machine's current command state, and an operator can request the
//! shutdown of a single machine or of a whole group. A periodic sweep evicts
//! machines that have stopped heartbeating, and removes groups left empty.

pub mod state;
pub mod errors;
pub mod computer;
mod assoc;
pub mod group;
pub mod infrastructure;
pub mod laws;

pub use state::State;
pub use state::PONG_SLEEP_SECONDS;
pub use state::CLEANUP_THRESHOLD_SECONDS;
