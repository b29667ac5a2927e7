//! A webhook-triggered automation executor's core: a registry of executable
//! "hooks" indexed by id, name and subscribed status-event kind, a collector
//! that walks a directory snapshot and validates hook definitions, and the
//! pure parts of a job executor (environment construction and outcome
//! classification).
//!
//! Everything that touches the operating system (directory walking, process
//! spawning, the parent environment) is handed in as plain values, so the
//! logic in this crate is verified for every possible outcome of those
//! interactions.

pub mod errors;
pub mod fs;
pub mod hooks;
pub mod jobs;
pub mod providers;
pub mod text;
