//! Library for a mindfulness-bell daemon: the orchestrator state machine that
//! decides when the bell rings, the line-delimited control protocol spoken over
//! the local control endpoint, the persisted-statistics streak rule, and the
//! configuration rules. Process plumbing (sockets, timers, audio output,
//! session-lock notifications) lives in the binary that drives this library.

pub mod audio;
pub mod config;
pub mod daemon;
pub mod ipc;
pub mod lock;
pub mod stats;
pub mod text;
