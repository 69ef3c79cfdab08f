//! Dependency-ordered supervision of a set of local child processes.
//!
//! The crate holds the decision logic of the orchestrator: the validated
//! dependency graph of programs, the state machine that turns lifecycle
//! events into start and stop commands, the per-child worker and stop
//! sequences, and the text that sinks and probes work on. Spawning,
//! waiting, timers and sockets are left to the caller, which performs the
//! actions that the state machines hand out and feeds back what happened.

pub mod config;
pub mod execution;
pub mod executionlist;
pub mod executor;
pub mod graph;
pub mod liveness;
pub mod options;
pub mod order;
pub mod output;
pub mod process;
pub mod readysignals;
pub mod stop;
pub mod text;
pub mod topology;
pub mod worker;
