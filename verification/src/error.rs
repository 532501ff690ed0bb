//! The error taxonomy of the recovery path.

use vstd::prelude::*;

verus! {

/// Why a byte sequence failed to parse as a record.
#[derive(Debug, Clone, PartialEq, Eq)]
pub enum DecodeFault {
    /// The bytes end before the record does.
    Truncated,
    /// The record does not start with the expected magic tag.
    BadMagic,
    /// The buffer-index byte is neither 0 nor 1.
    BadBufferFlag,
    /// The payload length prefix is not in its canonical form.
    BadLength,
}

/// Everything that can go wrong while recovering a checkpoint. A failure
/// of a single buffer slot is handled locally by the recovery manager;
/// only `BothCheckpointsFailed` reaches the caller.
#[derive(Debug, PartialEq, Eq)]
pub enum CheckpointError {
    /// Reading a slot's file failed; carries the caller's description of
    /// the underlying I/O error.
    IOError(String),
    /// The slot's bytes do not form a checkpoint record.
    DecodeError(DecodeFault),
    /// The record is well formed but its stored checksum does not match
    /// its contents; carries the slot's path.
    InvalidChecksum(String),
    /// The record was intact but its payload did not yield a usable
    /// interpreter state; produced by the caller's state codec, never by
    /// this crate.
    StateDecodeError(String),
    /// Both buffer slots failed; carries both causes, in slot order.
    BothCheckpointsFailed(Box<CheckpointError>, Box<CheckpointError>),
}

} // verus!
