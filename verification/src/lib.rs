//! Host-telemetry core: pure, verified logic for building point-in-time
//! views of a host (process table, listening TCP ports, host facts) and for
//! the two-stage process-termination protocol. All OS and network access
//! stays with the caller; this crate turns the raw text and values such
//! calls produce into structured, fully specified results.
pub mod feeds;
pub mod host;
pub mod models;
pub mod num;
pub mod ports;
pub mod procs;
pub mod terminate;
pub mod text;
