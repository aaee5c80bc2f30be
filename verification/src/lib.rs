//! Transfer and path-containment engine for a self-hosted cloud drive.
//!
//! The library covers the three parts of the backend that carry real
//! invariants: resolving client-supplied paths into locations confined to a
//! storage root, accepting large files through resumable chunked upload
//! sessions, and tracking remote-fetch tasks through their state machine.
//! Network and filesystem work stays outside; the library computes every
//! decision from plain values and states what it did in its contracts.

pub mod accounts;
pub mod clock;
pub mod config;
mod errors;
pub mod paths;
pub mod preview;
pub mod download;
pub mod listing;
pub mod records;
pub mod upload;

pub use errors::TransferError;
