//! Verified core of a local music cache: song identity encoded in file
//! names, idempotent materialization of remote artifacts, and
//! reconciliation of embedded tags, file names and sidecar lyrics into
//! one song record.
//!
//! The cache is a single flat directory; the directory listing is the
//! index. Filesystem, network and tag I/O stay with the caller, which
//! hands plain values in and carries decided actions out. Concurrent
//! commands on one id are not protected against each other: existence
//! at check time does not guarantee existence at use time.
pub mod cover;
pub mod fetch;
pub mod orchestrator;
pub mod path_codec;
pub mod record;
pub mod scanner;
pub mod store;
pub mod strutil;
