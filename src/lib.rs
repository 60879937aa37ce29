//! Core of a download supervisor: a per-task state machine, a bounded
//! admission scheduler over a task registry, the downloader's stdout
//! parser, the argument vectors handed to the external binaries, the
//! integrity verdict, and the persistence projection with crash recovery.
//!
//! Everything here is pure: the caller performs process spawning,
//! signalling, file removal and event emission as the returned values say.
use vstd::prelude::*;

pub mod status;
pub mod text;
pub mod parser;
pub mod process;
pub mod task;
pub mod registry;
pub mod download;
pub mod persistence;
pub mod laws;

verus! {

} // verus!
