//! Capture and restore of the four Windows filesystem timestamps
//! (creation, last-write, metadata-change, last-access) for every entry
//! under a directory tree, through a versioned, tab-separated text stream.
//!
//! This crate holds the verified core: the serialization protocol (encode
//! and decode of the text stream), and the pure decision parts of the
//! handle-access discipline and the timestamp accessor. The operating
//! system calls themselves, directory traversal and the command line live
//! in the unverified binary around this library.

pub mod access;
pub mod decimal;
pub mod laws;
pub mod protocol;
pub mod record;
pub mod text;
