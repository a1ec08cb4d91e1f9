//! A replicated command log for a Raft-style consensus node.
//!
//! The log orders client commands, takes the entries that a leader
//! replicates under a clock-based consistency check, and hands committed
//! entries to a state machine, telling those who submitted a command how it
//! ended.
//!
//! - [`clock`] and [`entry`]: clocks, entries, completions and resolutions.
//! - [`log_view`]: the mathematical model of the log.
//! - [`command_log`]: the log itself.
//! - [`laws`]: what holds of every log, proved over the model.
//! - [`configuration`]: cluster membership and the commands that change it.
//! - [`voter`]: whether this node may accept writes.
//! - [`raft_process`]: the entry point for client writes and replication
//!   streams.
//! - [`advance_kern`]: the background applier.

pub mod clock;
pub mod entry;
pub mod log_view;
pub mod command_log;
pub mod laws;
pub mod configuration;
pub mod voter;
pub mod raft_process;
pub mod advance_kern;
