//! The dual-buffer recovery manager: given the contents of the two buffer
//! slots, produce exactly one usable checkpoint or a definitive failure
//! carrying both causes.
//!
//! The write side (not implemented here) must alternate slots: each new
//! checkpoint goes to the slot not holding the last known-good one, and a
//! slot is only reused once the other holds a complete, flushed record.
//! Under that discipline at least one slot always survives a torn write,
//! and recovery below finds it.

use vstd::prelude::*;

verus! {

use vstd::string::StringExecFns;
use crate::error::CheckpointError;
use crate::record::{
    spec_decode_checkpoint, CheckpointModel, JammedCheckpoint,
};

/// An ordered pair of buffer file locations, suffixed `0` and `1`:
/// created once per persistence directory and immutable afterwards. Slot 0
/// is the first in every fixed ordering this crate uses.
#[derive(Debug, Clone)]
pub struct JamPaths(pub String, pub String);

/// The fully materialized in-memory checkpoint. The serialized state is
/// carried through untouched: turning it into live interpreter values is
/// the caller's state codec's business.
#[derive(Debug, Clone)]
pub struct Checkpoint {
    /// Magic bytes of the record this checkpoint came from.
    pub magic_bytes: u64,
    /// Version of the checkpoint format.
    pub version: u32,
    /// The buffer slot this checkpoint was saved to, either 0 or 1.
    pub buff_index: bool,
    /// Hash identifying the kernel image that produced this state.
    pub ker_hash: Vec<u8>,
    /// Number of state transitions applied up to this snapshot.
    pub event_num: u64,
    /// Serialized interpreter state and cold state, as stored on disk.
    pub ker_state: Vec<u8>,
}

impl Checkpoint {
    /// The checkpoint carries exactly the fields of the record `m`.
    pub open spec fn matches_record(self, m: CheckpointModel) -> bool {
        &&& self.magic_bytes == m.magic_bytes
        &&& self.version == m.version
        &&& self.buff_index == m.buff_index
        &&& self.ker_hash@ == m.ker_hash
        &&& self.event_num == m.event_num
        &&& self.ker_state@ == m.jam
    }

    /// Materializes the in-memory checkpoint from a validated record,
    /// handing the payload on for the caller's state codec.
    pub fn load(jam: JammedCheckpoint) -> (r: Self)
        ensures
            r.matches_record(jam@),
    {
        Checkpoint {
            magic_bytes: jam.magic_bytes,
            version: jam.version,
            buff_index: jam.buff_index,
            ker_hash: jam.ker_hash,
            event_num: jam.event_num,
            ker_state: jam.jam,
        }
    }
}

/// Picks the snapshot to recover from the two slots' outcomes: with both
/// usable, the one with the strictly greater event number (slot 0 on a
/// tie, the first in the fixed slot order); with one usable, that one;
/// with neither, a composite failure keeping both causes in slot order.
pub fn select_checkpoint(
    slot_0: Result<JammedCheckpoint, CheckpointError>,
    slot_1: Result<JammedCheckpoint, CheckpointError>,
) -> (r: Result<JammedCheckpoint, CheckpointError>)
    ensures
        slot_0 is Ok && slot_1 is Ok ==> r == (if slot_0.unwrap().event_num
            >= slot_1.unwrap().event_num {
            slot_0
        } else {
            slot_1
        }),
        slot_0 is Ok && slot_1 is Err ==> r == slot_0,
        slot_0 is Err && slot_1 is Ok ==> r == slot_1,
        slot_0 is Err && slot_1 is Err ==> (slot_0 matches Err(a) && slot_1 matches Err(b)
            && r matches Err(e) && e matches CheckpointError::BothCheckpointsFailed(e0, e1) && *e0
            == a && *e1 == b),
{
    match (slot_0, slot_1) {
        (Ok(a), Ok(b)) => if a.event_num >= b.event_num {
            Ok(a)
        } else {
            Ok(b)
        },
        (Ok(a), Err(_)) => Ok(a),
        (Err(_), Ok(b)) => Ok(b),
        (Err(e0), Err(e1)) => Err(
            CheckpointError::BothCheckpointsFailed(Box::new(e0), Box::new(e1)),
        ),
    }
}

/// The usable record in one slot's file contents, if any: the bytes were
/// read, they parse as a checkpoint record, and its checksum holds.
pub open spec fn slot_model(input: Result<Vec<u8>, String>) -> Option<CheckpointModel> {
    match input {
        Ok(bytes) => match spec_decode_checkpoint(bytes@) {
            Some(m) => if m.valid() {
                Some(m)
            } else {
                None
            },
            None => None,
        },
        Err(_) => None,
    }
}

/// The error a failed slot contributes: the caller's I/O description, a
/// structural decode fault, or a checksum mismatch naming the slot's path.
pub open spec fn slot_fault(
    input: Result<Vec<u8>, String>,
    path: Seq<char>,
    e: CheckpointError,
) -> bool {
    match input {
        Err(msg) => e matches CheckpointError::IOError(s) && s@ == msg@,
        Ok(bytes) => match spec_decode_checkpoint(bytes@) {
            None => e matches CheckpointError::DecodeError(_),
            Some(m) => !m.valid() && (e matches CheckpointError::InvalidChecksum(p) && p@ == path),
        },
    }
}

impl JamPaths {
    /// The two well-known buffer files under `dir`, in slot order.
    pub fn new(dir: &str) -> (r: Self)
        ensures
            r.0@ == dir@ + "/0.chkjam"@,
            r.1@ == dir@ + "/1.chkjam"@,
    {
        let p0 = dir.to_owned().concat("/0.chkjam");
        let p1 = dir.to_owned().concat("/1.chkjam");
        JamPaths(p0, p1)
    }

    /// Parses one slot's bytes and checks the embedded checksum; a record
    /// failing either is unusable and reported with the slot's path.
    pub fn decode_jam(jam: &[u8], jam_path: &str) -> (r: Result<JammedCheckpoint, CheckpointError>)
        ensures
            match r {
                Ok(c) => spec_decode_checkpoint(jam@) == Some(c@) && c@.valid(),
                Err(e) => match e {
                    CheckpointError::DecodeError(_) => spec_decode_checkpoint(jam@) is None,
                    CheckpointError::InvalidChecksum(p) => {
                        &&& spec_decode_checkpoint(jam@) matches Some(m)
                        &&& !m.valid()
                        &&& p@ == jam_path@
                    },
                    _ => false,
                },
            },
    {
        match JammedCheckpoint::decode(jam) {
            Ok(c) => if c.validate() {
                Ok(c)
            } else {
                Err(CheckpointError::InvalidChecksum(jam_path.to_owned()))
            },
            Err(f) => Err(CheckpointError::DecodeError(f)),
        }
    }

    /// Recovers the freshest valid snapshot from the two slots' file
    /// contents. `slot_0` and `slot_1` carry each file's bytes, or the
    /// caller's description of why reading it failed. Exactly one slot
    /// failing is tolerated; only both failing is an error, and it keeps
    /// both causes.
    pub fn load_checkpoint(
        &self,
        slot_0: Result<Vec<u8>, String>,
        slot_1: Result<Vec<u8>, String>,
    ) -> (r: Result<Checkpoint, CheckpointError>)
        ensures
            ({
                let s0 = slot_model(slot_0);
                let s1 = slot_model(slot_1);
                &&& (s0 is Some && s1 is Some ==> (s0 matches Some(m0) && s1 matches Some(m1)
                    && r is Ok && r.unwrap().matches_record(
                    if m0.event_num >= m1.event_num {
                        m0
                    } else {
                        m1
                    },
                )))
                &&& (s0 is Some && s1 is None ==> (s0 matches Some(m0) && r is Ok
                    && r.unwrap().matches_record(m0)))
                &&& (s0 is None && s1 is Some ==> (s1 matches Some(m1) && r is Ok
                    && r.unwrap().matches_record(m1)))
                &&& (s0 is None && s1 is None ==> (r matches Err(e) && e matches
                    CheckpointError::BothCheckpointsFailed(e0, e1) && slot_fault(
                    slot_0,
                    self.0@,
                    *e0,
                ) && slot_fault(slot_1, self.1@, *e1)))
            }),
    {
        let r0 = match &slot_0 {
            Ok(bytes) => Self::decode_jam(bytes.as_slice(), self.0.as_str()),
            Err(msg) => Err(CheckpointError::IOError(msg.clone())),
        };
        let r1 = match &slot_1 {
            Ok(bytes) => Self::decode_jam(bytes.as_slice(), self.1.as_str()),
            Err(msg) => Err(CheckpointError::IOError(msg.clone())),
        };
        match select_checkpoint(r0, r1) {
            Ok(c) => Ok(Checkpoint::load(c)),
            Err(e) => Err(e),
        }
    }
}

} // verus!
