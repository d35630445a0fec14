//! Process monitor: the decisions of a utility that watches for named
//! processes and, when one of them starts, closes or starts other programs.
//!
//! Operating-system work (reading the process table, spawning commands,
//! files, the clock loop) is done by the caller; this library holds the
//! command-line grammar, the configuration model, the log-line format and
//! routing, and the edge-triggered detection state machine.

pub mod cli;
pub mod config;
pub mod logger;
pub mod process;
pub mod monitor;
