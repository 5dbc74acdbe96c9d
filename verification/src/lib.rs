//! Embedded record store for a desktop shell that launches an external
//! coding agent: each launch is recorded as a `Run`, its streamed output as
//! `RunLog` lines. The store keeps a persisted schema version, migrates
//! older layouts forward, and answers the recency and session queries the
//! shell issues. Everything here is verified; the host process around it
//! does the disk, process and event plumbing.

pub mod errors;
pub mod laws;
pub mod model;
pub mod records;
pub mod store;
pub mod watch;
