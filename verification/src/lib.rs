//! Crash-safe persistence and recovery of an interpreter's execution
//! snapshot.
//!
//! The crate defines the on-disk checkpoint record with its embedded
//! integrity checksum, the companion export record, and the read-side
//! recovery logic that picks the freshest valid snapshot out of two
//! alternating buffer slots. File I/O and the interpreter's own value
//! codec are the caller's business; everything here works on plain bytes.

pub mod checksum;
pub mod error;
pub mod record;
pub mod recovery;
pub mod wire;
