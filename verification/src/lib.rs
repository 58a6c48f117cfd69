//! Battery time-remaining estimation: sample windows, trend statistics,
//! the client/daemon request protocol, command-line parsing and the
//! format-string renderer, each with its contract.

pub mod text;
pub mod sample;
pub mod format;
pub mod trend;
pub mod estimate;
pub mod protocol;
pub mod args;
pub mod poller;
