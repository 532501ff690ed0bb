//! The two on-disk record formats: the double-buffered checkpoint record
//! with its embedded checksum, and the export record that carries bare
//! interpreter state.
//!
//! Layout of a checkpoint record, all integers little-endian:
//! magic (8 bytes) | version (4) | buffer index (1) | kernel hash (32) |
//! checksum (32) | event number (8) | payload length (varint) | payload.
//!
//! Layout of an export record: magic (8) | version (4) | kernel hash (32) |
//! event number (8) | payload length (varint) | payload. No buffer index
//! and no checksum: exports are single-shot artifacts outside the
//! crash-recovery path.
//!
//! Decoding parses a leading record and ignores trailing bytes; it rejects
//! truncated or malformed input with a structured error.

use vstd::prelude::*;

verus! {

use vstd::bytes::*;
use vstd::slice::*;
use crate::checksum::{checksum_of, compute_checksum};
use crate::error::DecodeFault;
use crate::wire::{
    bytes_eq, copy_range, lemma_common_prefix_subrange, lemma_prefix_index, lemma_varint_len,
    lemma_varint_unique, read_u32_at, read_u64_at, read_varint, spec_varint, write_varint,
};

/// Magic tag of a checkpoint record: the ASCII bytes `CHKJAM`, read as a
/// little-endian integer.
pub const CHECKPOINT_MAGIC: u64 = 0x4D41_4A4B_4843;

/// Magic tag of an export record: the ASCII bytes `EXPJAM`, read as a
/// little-endian integer.
pub const EXPORT_MAGIC: u64 = 0x4D41_4A50_5845;

/// The single byte that stores the buffer index.
pub open spec fn bool_byte(b: bool) -> u8 {
    if b {
        1u8
    } else {
        0u8
    }
}

/// A checkpoint record as mathematics: the on-disk fields, with byte
/// strings as sequences.
#[verifier::ext_equal]
pub struct CheckpointModel {
    pub magic_bytes: u64,
    pub version: u32,
    pub buff_index: bool,
    pub ker_hash: Seq<u8>,
    pub checksum: Seq<u8>,
    pub event_num: u64,
    pub jam: Seq<u8>,
}

impl CheckpointModel {
    /// Structural validity: the right magic tag, full-width digests, and a
    /// payload whose length the format can carry.
    pub open spec fn wf(self) -> bool {
        &&& self.magic_bytes == CHECKPOINT_MAGIC
        &&& self.ker_hash.len() == 32
        &&& self.checksum.len() == 32
        &&& self.jam.len() <= u64::MAX
    }

    /// Integrity: the stored checksum is the digest of the record's own
    /// event number and payload.
    pub open spec fn valid(self) -> bool {
        self.checksum == checksum_of(self.event_num, self.jam)
    }
}

/// The bytes of a checkpoint record.
pub open spec fn spec_encode_checkpoint(m: CheckpointModel) -> Seq<u8> {
    spec_u64_to_le_bytes(m.magic_bytes) + spec_u32_to_le_bytes(m.version) + seq![
        bool_byte(m.buff_index),
    ] + m.ker_hash + m.checksum + spec_u64_to_le_bytes(m.event_num) + spec_varint(
        m.jam.len() as u64,
    ) + m.jam
}

/// `bytes` begins with the encoding of the well-formed record `m`.
pub open spec fn is_checkpoint_encoding(bytes: Seq<u8>, m: CheckpointModel) -> bool {
    m.wf() && spec_encode_checkpoint(m).is_prefix_of(bytes)
}

/// The record a byte string begins with, if any. By
/// `lemma_checkpoint_encoding_unique` there is at most one.
pub open spec fn spec_decode_checkpoint(bytes: Seq<u8>) -> Option<CheckpointModel> {
    if exists|m: CheckpointModel| is_checkpoint_encoding(bytes, m) {
        Some(choose|m: CheckpointModel| is_checkpoint_encoding(bytes, m))
    } else {
        None
    }
}

/// Where each field lies inside an encoded checkpoint record.
pub proof fn lemma_checkpoint_parts(m: CheckpointModel)
    requires
        m.ker_hash.len() == 32,
        m.checksum.len() == 32,
    ensures
        ({
            let e = spec_encode_checkpoint(m);
            let vl = spec_varint(m.jam.len() as u64).len() as int;
            &&& e.len() == 85 + vl + m.jam.len()
            &&& e.subrange(0, 8) == spec_u64_to_le_bytes(m.magic_bytes)
            &&& e.subrange(8, 12) == spec_u32_to_le_bytes(m.version)
            &&& e[12] == bool_byte(m.buff_index)
            &&& e.subrange(13, 45) == m.ker_hash
            &&& e.subrange(45, 77) == m.checksum
            &&& e.subrange(77, 85) == spec_u64_to_le_bytes(m.event_num)
            &&& e.subrange(85, 85 + vl) == spec_varint(m.jam.len() as u64)
            &&& e.subrange(85 + vl, e.len() as int) == m.jam
        }),
{
    lemma_auto_spec_u32_to_from_le_bytes();
    lemma_auto_spec_u64_to_from_le_bytes();
    lemma_varint_len(m.jam.len() as u64);
    let e = spec_encode_checkpoint(m);
    let vl = spec_varint(m.jam.len() as u64).len() as int;
    assert(e.subrange(0, 8) =~= spec_u64_to_le_bytes(m.magic_bytes));
    assert(e.subrange(8, 12) =~= spec_u32_to_le_bytes(m.version));
    assert(e.subrange(13, 45) =~= m.ker_hash);
    assert(e.subrange(45, 77) =~= m.checksum);
    assert(e.subrange(77, 85) =~= spec_u64_to_le_bytes(m.event_num));
    assert(e.subrange(85, 85 + vl) =~= spec_varint(m.jam.len() as u64));
    assert(e.subrange(85 + vl, e.len() as int) =~= m.jam);
}

/// A byte string begins with at most one well-formed checkpoint record.
pub proof fn lemma_checkpoint_encoding_unique(
    bytes: Seq<u8>,
    m1: CheckpointModel,
    m2: CheckpointModel,
)
    requires
        is_checkpoint_encoding(bytes, m1),
        is_checkpoint_encoding(bytes, m2),
    ensures
        m1 == m2,
{
    lemma_auto_spec_u32_to_from_le_bytes();
    lemma_auto_spec_u64_to_from_le_bytes();
    lemma_checkpoint_parts(m1);
    lemma_checkpoint_parts(m2);
    let e1 = spec_encode_checkpoint(m1);
    let e2 = spec_encode_checkpoint(m2);
    let l1 = m1.jam.len() as u64;
    let l2 = m2.jam.len() as u64;
    let vl1 = spec_varint(l1).len() as int;
    let vl2 = spec_varint(l2).len() as int;
    lemma_prefix_index(e1, bytes);
    lemma_prefix_index(e2, bytes);
    lemma_common_prefix_subrange(bytes, e1, e2, 0, 8);
    assert(m1.magic_bytes == m2.magic_bytes);
    lemma_common_prefix_subrange(bytes, e1, e2, 8, 12);
    assert(m1.version == m2.version);
    assert(e1[12] == bytes[12]);
    assert(e2[12] == bytes[12]);
    assert(m1.buff_index == m2.buff_index);
    lemma_common_prefix_subrange(bytes, e1, e2, 13, 45);
    assert(m1.ker_hash == m2.ker_hash);
    lemma_common_prefix_subrange(bytes, e1, e2, 45, 77);
    assert(m1.checksum == m2.checksum);
    lemma_common_prefix_subrange(bytes, e1, e2, 77, 85);
    assert(m1.event_num == m2.event_num);
    let rest = bytes.skip(85);
    assert(spec_varint(l1) =~= rest.subrange(0, vl1)) by {
        assert forall|k: int| 0 <= k < vl1 implies spec_varint(l1)[k] == rest.subrange(0, vl1)[k] by {
            assert(spec_varint(l1)[k] == e1.subrange(85, 85 + vl1)[k]);
            assert(e1[85 + k] == bytes[85 + k]);
        }
    }
    assert(spec_varint(l1).is_prefix_of(rest));
    assert(spec_varint(l2) =~= rest.subrange(0, vl2)) by {
        assert forall|k: int| 0 <= k < vl2 implies spec_varint(l2)[k] == rest.subrange(0, vl2)[k] by {
            assert(spec_varint(l2)[k] == e2.subrange(85, 85 + vl2)[k]);
            assert(e2[85 + k] == bytes[85 + k]);
        }
    }
    assert(spec_varint(l2).is_prefix_of(rest));
    lemma_varint_unique(rest, l1, l2);
    assert(m1.jam.len() == m2.jam.len());
    assert(e1.len() == e2.len());
    lemma_common_prefix_subrange(bytes, e1, e2, 85 + vl1, e1.len() as int);
    assert(m1.jam == m2.jam);
    assert(m1 =~= m2);
}

/// Decoding the encoding of a well-formed record gives the record back.
pub proof fn lemma_checkpoint_round_trip(m: CheckpointModel)
    requires
        m.wf(),
    ensures
        spec_decode_checkpoint(spec_encode_checkpoint(m)) == Some(m),
{
    let bytes = spec_encode_checkpoint(m);
    assert(bytes =~= bytes.subrange(0, bytes.len() as int));
    assert(is_checkpoint_encoding(bytes, m));
    let w = choose|x: CheckpointModel| is_checkpoint_encoding(bytes, x);
    assert(is_checkpoint_encoding(bytes, w));
    lemma_checkpoint_encoding_unique(bytes, w, m);
}

/// The on-disk checkpoint record: metadata, integrity checksum, and the
/// serialized payload encoding interpreter state and cold state together.
#[derive(Debug, Clone, PartialEq)]
pub struct JammedCheckpoint {
    /// Magic bytes identifying the checkpoint format.
    pub magic_bytes: u64,
    /// Version of the checkpoint format, carried for future dispatch.
    pub version: u32,
    /// The buffer slot this checkpoint was saved to, either 0 or 1.
    pub buff_index: bool,
    /// Hash identifying the kernel image that produced this state.
    pub ker_hash: Vec<u8>,
    /// Digest of the event number and the payload.
    pub checksum: Vec<u8>,
    /// Number of state transitions applied up to this snapshot.
    pub event_num: u64,
    /// Serialized interpreter state and cold state, opaque to this crate.
    pub jam: Vec<u8>,
}

impl View for JammedCheckpoint {
    type V = CheckpointModel;

    open spec fn view(&self) -> CheckpointModel {
        CheckpointModel {
            magic_bytes: self.magic_bytes,
            version: self.version,
            buff_index: self.buff_index,
            ker_hash: self.ker_hash@,
            checksum: self.checksum@,
            event_num: self.event_num,
            jam: self.jam@,
        }
    }
}

impl JammedCheckpoint {
    /// Builds a record for the given slot, computing its checksum from the
    /// event number and payload.
    pub fn new(
        version: u32,
        buff_index: bool,
        ker_hash: Vec<u8>,
        event_num: u64,
        jam: Vec<u8>,
    ) -> (r: Self)
        requires
            ker_hash@.len() == 32,
        ensures
            r@ == (CheckpointModel {
                magic_bytes: CHECKPOINT_MAGIC,
                version: version,
                buff_index: buff_index,
                ker_hash: ker_hash@,
                checksum: checksum_of(event_num, jam@),
                event_num: event_num,
                jam: jam@,
            }),
            r@.wf(),
            r@.valid(),
    {
        let checksum = compute_checksum(event_num, &jam);
        let r = JammedCheckpoint { magic_bytes: CHECKPOINT_MAGIC, version, buff_index, ker_hash, checksum, event_num, jam };
        proof {
            assert(r.jam.len() == r.jam@.len());
        }
        r
    }

    /// Recomputes the digest of the record's own event number and payload
    /// and compares it with the stored checksum.
    pub fn validate(&self) -> (r: bool)
        ensures
            r == self@.valid(),
    {
        let expect = compute_checksum(self.event_num, &self.jam);
        bytes_eq(&self.checksum, &expect)
    }

    /// Serializes the record.
    pub fn encode(&self) -> (r: Vec<u8>)
        ensures
            r@ == spec_encode_checkpoint(self@),
    {
        let mut out = u64_to_le_bytes(self.magic_bytes);
        let mut part = u32_to_le_bytes(self.version);
        out.append(&mut part);
        out.push(if self.buff_index { 1 } else { 0 });
        let mut hash = slice_to_vec(self.ker_hash.as_slice());
        out.append(&mut hash);
        let mut ck = slice_to_vec(self.checksum.as_slice());
        out.append(&mut ck);
        let mut ev = u64_to_le_bytes(self.event_num);
        out.append(&mut ev);
        let mut lp = write_varint(self.jam.len() as u64);
        out.append(&mut lp);
        let mut payload = slice_to_vec(self.jam.as_slice());
        out.append(&mut payload);
        proof {
            assert(out@ =~= spec_encode_checkpoint(self@));
        }
        out
    }

    /// Parses the checkpoint record that `bytes` begins with. Succeeds
    /// exactly when such a record exists; trailing bytes are ignored.
    pub fn decode(bytes: &[u8]) -> (r: Result<Self, DecodeFault>)
        ensures
            match r {
                Ok(c) => spec_decode_checkpoint(bytes@) == Some(c@),
                Err(f) => {
                    &&& spec_decode_checkpoint(bytes@) is None
                    &&& (f == DecodeFault::BadMagic ==> bytes@.len() >= 8 && bytes@.subrange(0, 8)
                        != spec_u64_to_le_bytes(CHECKPOINT_MAGIC))
                    &&& (f == DecodeFault::BadBufferFlag ==> bytes@.len() >= 13 && bytes@[12] > 1)
                },
            },
    {
        proof {
            lemma_auto_spec_u32_to_from_le_bytes();
            lemma_auto_spec_u64_to_from_le_bytes();
        }
        let n = bytes.len();
        if n < 86 {
            proof {
                if exists|m: CheckpointModel| is_checkpoint_encoding(bytes@, m) {
                    let m = choose|m: CheckpointModel| is_checkpoint_encoding(bytes@, m);
                    lemma_checkpoint_parts(m);
                    lemma_varint_len(m.jam.len() as u64);
                    assert(false);
                }
            }
            return Err(DecodeFault::Truncated);
        }
        let magic = read_u64_at(bytes, 0);
        if magic != CHECKPOINT_MAGIC {
            proof {
                if exists|m: CheckpointModel| is_checkpoint_encoding(bytes@, m) {
                    let m = choose|m: CheckpointModel| is_checkpoint_encoding(bytes@, m);
                    lemma_checkpoint_parts(m);
                    lemma_prefix_index(spec_encode_checkpoint(m), bytes@);
                    assert(spec_u64_to_le_bytes(m.magic_bytes) =~= bytes@.subrange(0, 8));
                    assert(false);
                }
            }
            return Err(DecodeFault::BadMagic);
        }
        let version = read_u32_at(bytes, 8);
        let flag = *slice_index_get(bytes, 12);
        if flag > 1 {
            proof {
                if exists|m: CheckpointModel| is_checkpoint_encoding(bytes@, m) {
                    let m = choose|m: CheckpointModel| is_checkpoint_encoding(bytes@, m);
                    lemma_checkpoint_parts(m);
                    lemma_prefix_index(spec_encode_checkpoint(m), bytes@);
                    assert(spec_encode_checkpoint(m)[12] == bytes@[12]);
                    assert(false);
                }
            }
            return Err(DecodeFault::BadBufferFlag);
        }
        let ker_hash = copy_range(bytes, 13, 45);
        let checksum = copy_range(bytes, 45, 77);
        let event_num = read_u64_at(bytes, 77);
        match read_varint(bytes, 85) {
            None => {
                proof {
                    if exists|m: CheckpointModel| is_checkpoint_encoding(bytes@, m) {
                        let m = choose|m: CheckpointModel| is_checkpoint_encoding(bytes@, m);
                        let l = m.jam.len() as u64;
                        lemma_checkpoint_parts(m);
                        lemma_varint_len(l);
                        lemma_prefix_index(spec_encode_checkpoint(m), bytes@);
                        let e = spec_encode_checkpoint(m);
                        let vl = spec_varint(l).len() as int;
                        let rest = bytes@.skip(85);
                        assert(spec_varint(l) =~= rest.subrange(0, vl)) by {
                            assert forall|k: int| 0 <= k < vl implies spec_varint(l)[k]
                                == rest.subrange(0, vl)[k] by {
                                assert(spec_varint(l)[k] == e.subrange(85, 85 + vl)[k]);
                                assert(e[85 + k] == bytes@[85 + k]);
                            }
                        }
                        assert(spec_varint(l).is_prefix_of(rest));
                        assert(false);
                    }
                }
                Err(DecodeFault::BadLength)
            },
            Some((jlen, vlen)) => {
                let start = 85 + vlen;
                if jlen > (n - start) as u64 {
                    proof {
                        if exists|m: CheckpointModel| is_checkpoint_encoding(bytes@, m) {
                            let m = choose|m: CheckpointModel| is_checkpoint_encoding(bytes@, m);
                            let l = m.jam.len() as u64;
                            lemma_checkpoint_parts(m);
                            lemma_varint_len(l);
                            lemma_prefix_index(spec_encode_checkpoint(m), bytes@);
                            let e = spec_encode_checkpoint(m);
                            let vl = spec_varint(l).len() as int;
                            let rest = bytes@.skip(85);
                            assert(spec_varint(l) =~= rest.subrange(0, vl)) by {
                                assert forall|k: int| 0 <= k < vl implies spec_varint(l)[k]
                                    == rest.subrange(0, vl)[k] by {
                                    assert(spec_varint(l)[k] == e.subrange(85, 85 + vl)[k]);
                                    assert(e[85 + k] == bytes@[85 + k]);
                                }
                            }
                            assert(spec_varint(l).is_prefix_of(rest));
                            assert(spec_varint(jlen) =~= rest.subrange(0, vlen as int)) by {
                                assert forall|k: int| 0 <= k < vlen implies spec_varint(jlen)[k]
                                    == rest.subrange(0, vlen as int)[k] by {
                                    assert(spec_varint(jlen)[k] == bytes@.subrange(
                                        85,
                                        85 + vlen,
                                    )[k]);
                                }
                            }
                            assert(spec_varint(jlen).is_prefix_of(rest));
                            lemma_varint_unique(rest, l, jlen);
                            assert(e.len() <= bytes@.len());
                            assert(false);
                        }
                    }
                    return Err(DecodeFault::Truncated);
                }
                let jlen_us = jlen as usize;
                let jam = copy_range(bytes, start, start + jlen_us);
                let c = JammedCheckpoint {
                    magic_bytes: magic,
                    version,
                    buff_index: flag == 1,
                    ker_hash,
                    checksum,
                    event_num,
                    jam,
                };
                proof {
                    let mm = c@;
                    let e = spec_encode_checkpoint(mm);
                    lemma_checkpoint_parts(mm);
                    let vl = spec_varint(mm.jam.len() as u64).len() as int;
                    assert(mm.jam.len() as u64 == jlen);
                    assert(spec_varint(mm.jam.len() as u64) == spec_varint(jlen));
                    assert(vl == vlen);
                    assert(bool_byte(mm.buff_index) == flag);
                    assert(e.len() <= bytes@.len());
                    assert(e =~= bytes@.subrange(0, e.len() as int)) by {
                        assert forall|k: int| 0 <= k < e.len() implies e[k] == bytes@[k] by {
                            if k < 8 {
                                assert(e[k] == e.subrange(0, 8)[k]);
                                assert(bytes@[k] == bytes@.subrange(0, 8)[k]);
                            } else if k < 12 {
                                assert(e[k] == e.subrange(8, 12)[k - 8]);
                                assert(bytes@[k] == bytes@.subrange(8, 12)[k - 8]);
                            } else if k == 12 {
                                assert(e[12] == bool_byte(mm.buff_index));
                            } else if k < 45 {
                                assert(e[k] == e.subrange(13, 45)[k - 13]);
                                assert(bytes@[k] == bytes@.subrange(13, 45)[k - 13]);
                            } else if k < 77 {
                                assert(e[k] == e.subrange(45, 77)[k - 45]);
                                assert(bytes@[k] == bytes@.subrange(45, 77)[k - 45]);
                            } else if k < 85 {
                                assert(e[k] == e.subrange(77, 85)[k - 77]);
                                assert(bytes@[k] == bytes@.subrange(77, 85)[k - 77]);
                            } else if k < 85 + vl {
                                assert(e[k] == e.subrange(85, 85 + vl)[k - 85]);
                                assert(bytes@[k] == bytes@.subrange(85, 85 + vlen)[k - 85]);
                            } else {
                                assert(e[k] == e.subrange(85 + vl, e.len() as int)[k - 85 - vl]);
                                assert(bytes@[k] == bytes@.subrange(
                                    start as int,
                                    start + jlen_us,
                                )[k - 85 - vl]);
                            }
                        }
                    }
                    assert(e.is_prefix_of(bytes@));
                    assert(is_checkpoint_encoding(bytes@, mm));
                    let w = choose|m: CheckpointModel| is_checkpoint_encoding(bytes@, m);
                    assert(is_checkpoint_encoding(bytes@, w));
                    lemma_checkpoint_encoding_unique(bytes@, w, mm);
                }
                Ok(c)
            },
        }
    }
}

/// An export record as mathematics.
#[verifier::ext_equal]
pub struct ExportModel {
    pub magic_bytes: u64,
    pub version: u32,
    pub ker_hash: Seq<u8>,
    pub event_num: u64,
    pub jam: Seq<u8>,
}

impl ExportModel {
    /// Structural validity of an export record.
    pub open spec fn wf(self) -> bool {
        &&& self.magic_bytes == EXPORT_MAGIC
        &&& self.ker_hash.len() == 32
        &&& self.jam.len() <= u64::MAX
    }
}

/// The bytes of an export record.
pub open spec fn spec_encode_export(m: ExportModel) -> Seq<u8> {
    spec_u64_to_le_bytes(m.magic_bytes) + spec_u32_to_le_bytes(m.version) + m.ker_hash
        + spec_u64_to_le_bytes(m.event_num) + spec_varint(m.jam.len() as u64) + m.jam
}

/// `bytes` begins with the encoding of the well-formed export record `m`.
pub open spec fn is_export_encoding(bytes: Seq<u8>, m: ExportModel) -> bool {
    m.wf() && spec_encode_export(m).is_prefix_of(bytes)
}

/// The export record a byte string begins with, if any. By
/// `lemma_export_encoding_unique` there is at most one.
pub open spec fn spec_decode_export(bytes: Seq<u8>) -> Option<ExportModel> {
    if exists|m: ExportModel| is_export_encoding(bytes, m) {
        Some(choose|m: ExportModel| is_export_encoding(bytes, m))
    } else {
        None
    }
}

/// Where each field lies inside an encoded export record.
pub proof fn lemma_export_parts(m: ExportModel)
    requires
        m.ker_hash.len() == 32,
    ensures
        ({
            let e = spec_encode_export(m);
            let vl = spec_varint(m.jam.len() as u64).len() as int;
            &&& e.len() == 52 + vl + m.jam.len()
            &&& e.subrange(0, 8) == spec_u64_to_le_bytes(m.magic_bytes)
            &&& e.subrange(8, 12) == spec_u32_to_le_bytes(m.version)
            &&& e.subrange(12, 44) == m.ker_hash
            &&& e.subrange(44, 52) == spec_u64_to_le_bytes(m.event_num)
            &&& e.subrange(52, 52 + vl) == spec_varint(m.jam.len() as u64)
            &&& e.subrange(52 + vl, e.len() as int) == m.jam
        }),
{
    lemma_auto_spec_u32_to_from_le_bytes();
    lemma_auto_spec_u64_to_from_le_bytes();
    lemma_varint_len(m.jam.len() as u64);
    let e = spec_encode_export(m);
    let vl = spec_varint(m.jam.len() as u64).len() as int;
    assert(e.subrange(0, 8) =~= spec_u64_to_le_bytes(m.magic_bytes));
    assert(e.subrange(8, 12) =~= spec_u32_to_le_bytes(m.version));
    assert(e.subrange(12, 44) =~= m.ker_hash);
    assert(e.subrange(44, 52) =~= spec_u64_to_le_bytes(m.event_num));
    assert(e.subrange(52, 52 + vl) =~= spec_varint(m.jam.len() as u64));
    assert(e.subrange(52 + vl, e.len() as int) =~= m.jam);
}

/// A byte string begins with at most one well-formed export record.
pub proof fn lemma_export_encoding_unique(bytes: Seq<u8>, m1: ExportModel, m2: ExportModel)
    requires
        is_export_encoding(bytes, m1),
        is_export_encoding(bytes, m2),
    ensures
        m1 == m2,
{
    lemma_auto_spec_u32_to_from_le_bytes();
    lemma_auto_spec_u64_to_from_le_bytes();
    lemma_export_parts(m1);
    lemma_export_parts(m2);
    let e1 = spec_encode_export(m1);
    let e2 = spec_encode_export(m2);
    let l1 = m1.jam.len() as u64;
    let l2 = m2.jam.len() as u64;
    let vl1 = spec_varint(l1).len() as int;
    let vl2 = spec_varint(l2).len() as int;
    lemma_prefix_index(e1, bytes);
    lemma_prefix_index(e2, bytes);
    lemma_common_prefix_subrange(bytes, e1, e2, 0, 8);
    assert(m1.magic_bytes == m2.magic_bytes);
    lemma_common_prefix_subrange(bytes, e1, e2, 8, 12);
    assert(m1.version == m2.version);
    lemma_common_prefix_subrange(bytes, e1, e2, 12, 44);
    assert(m1.ker_hash == m2.ker_hash);
    lemma_common_prefix_subrange(bytes, e1, e2, 44, 52);
    assert(m1.event_num == m2.event_num);
    let rest = bytes.skip(52);
    assert(spec_varint(l1) =~= rest.subrange(0, vl1)) by {
        assert forall|k: int| 0 <= k < vl1 implies spec_varint(l1)[k] == rest.subrange(0, vl1)[k] by {
            assert(spec_varint(l1)[k] == e1.subrange(52, 52 + vl1)[k]);
            assert(e1[52 + k] == bytes[52 + k]);
        }
    }
    assert(spec_varint(l1).is_prefix_of(rest));
    assert(spec_varint(l2) =~= rest.subrange(0, vl2)) by {
        assert forall|k: int| 0 <= k < vl2 implies spec_varint(l2)[k] == rest.subrange(0, vl2)[k] by {
            assert(spec_varint(l2)[k] == e2.subrange(52, 52 + vl2)[k]);
            assert(e2[52 + k] == bytes[52 + k]);
        }
    }
    assert(spec_varint(l2).is_prefix_of(rest));
    lemma_varint_unique(rest, l1, l2);
    assert(m1.jam.len() == m2.jam.len());
    assert(e1.len() == e2.len());
    lemma_common_prefix_subrange(bytes, e1, e2, 52 + vl1, e1.len() as int);
    assert(m1.jam == m2.jam);
    assert(m1 =~= m2);
}

/// Decoding the encoding of a well-formed export record gives it back.
pub proof fn lemma_export_round_trip(m: ExportModel)
    requires
        m.wf(),
    ensures
        spec_decode_export(spec_encode_export(m)) == Some(m),
{
    let bytes = spec_encode_export(m);
    assert(bytes =~= bytes.subrange(0, bytes.len() as int));
    assert(is_export_encoding(bytes, m));
    let w = choose|x: ExportModel| is_export_encoding(bytes, x);
    assert(is_export_encoding(bytes, w));
    lemma_export_encoding_unique(bytes, w, m);
}

/// No byte string is both a checkpoint record and an export record: the
/// two magic tags differ, so the recovery path can never mistake an
/// export for a checkpoint.
pub proof fn lemma_formats_distinct(bytes: Seq<u8>)
    ensures
        !(spec_decode_checkpoint(bytes) is Some && spec_decode_export(bytes) is Some),
{
    lemma_auto_spec_u64_to_from_le_bytes();
    if spec_decode_checkpoint(bytes) is Some && spec_decode_export(bytes) is Some {
        let m1 = choose|m: CheckpointModel| is_checkpoint_encoding(bytes, m);
        assert(is_checkpoint_encoding(bytes, m1));
        let m2 = choose|m: ExportModel| is_export_encoding(bytes, m);
        assert(is_export_encoding(bytes, m2));
        lemma_checkpoint_parts(m1);
        lemma_export_parts(m2);
        lemma_common_prefix_subrange(
            bytes,
            spec_encode_checkpoint(m1),
            spec_encode_export(m2),
            0,
            8,
        );
        assert(m1.magic_bytes == m2.magic_bytes);
        assert(false);
    }
}

/// A record for exporting bare kernel state, without the cold state, the
/// buffer index or a checksum.
#[derive(Debug, Clone, PartialEq)]
pub struct ExportedState {
    /// Magic bytes identifying the export format.
    pub magic_bytes: u64,
    /// Version of the export format, carried for future dispatch.
    pub version: u32,
    /// Hash identifying the kernel image that produced this state.
    pub ker_hash: Vec<u8>,
    /// Number of state transitions applied up to this snapshot.
    pub event_num: u64,
    /// Serialized interpreter state, opaque to this crate.
    pub jam: Vec<u8>,
}

impl View for ExportedState {
    type V = ExportModel;

    open spec fn view(&self) -> ExportModel {
        ExportModel {
            magic_bytes: self.magic_bytes,
            version: self.version,
            ker_hash: self.ker_hash@,
            event_num: self.event_num,
            jam: self.jam@,
        }
    }
}

impl ExportedState {
    /// Builds an export record around an already serialized kernel state.
    pub fn new(version: u32, ker_hash: Vec<u8>, event_num: u64, jam: Vec<u8>) -> (r: Self)
        requires
            ker_hash@.len() == 32,
        ensures
            r@ == (ExportModel {
                magic_bytes: EXPORT_MAGIC,
                version: version,
                ker_hash: ker_hash@,
                event_num: event_num,
                jam: jam@,
            }),
            r@.wf(),
    {
        let r = ExportedState { magic_bytes: EXPORT_MAGIC, version, ker_hash, event_num, jam };
        proof {
            assert(r.jam.len() == r.jam@.len());
        }
        r
    }

    /// Serializes the record.
    pub fn encode(&self) -> (r: Vec<u8>)
        ensures
            r@ == spec_encode_export(self@),
    {
        let mut out = u64_to_le_bytes(self.magic_bytes);
        let mut part = u32_to_le_bytes(self.version);
        out.append(&mut part);
        let mut hash = slice_to_vec(self.ker_hash.as_slice());
        out.append(&mut hash);
        let mut ev = u64_to_le_bytes(self.event_num);
        out.append(&mut ev);
        let mut lp = write_varint(self.jam.len() as u64);
        out.append(&mut lp);
        let mut payload = slice_to_vec(self.jam.as_slice());
        out.append(&mut payload);
        proof {
            assert(out@ =~= spec_encode_export(self@));
        }
        out
    }

    /// Parses the export record that `bytes` begins with. Succeeds exactly
    /// when such a record exists; trailing bytes are ignored.
    pub fn decode(bytes: &[u8]) -> (r: Result<Self, DecodeFault>)
        ensures
            match r {
                Ok(c) => spec_decode_export(bytes@) == Some(c@),
                Err(f) => {
                    &&& spec_decode_export(bytes@) is None
                    &&& (f == DecodeFault::BadMagic ==> bytes@.len() >= 8 && bytes@.subrange(0, 8)
                        != spec_u64_to_le_bytes(EXPORT_MAGIC))
                },
            },
    {
        proof {
            lemma_auto_spec_u32_to_from_le_bytes();
            lemma_auto_spec_u64_to_from_le_bytes();
        }
        let n = bytes.len();
        if n < 53 {
            proof {
                if exists|m: ExportModel| is_export_encoding(bytes@, m) {
                    let m = choose|m: ExportModel| is_export_encoding(bytes@, m);
                    lemma_export_parts(m);
                    lemma_varint_len(m.jam.len() as u64);
                    assert(false);
                }
            }
            return Err(DecodeFault::Truncated);
        }
        let magic = read_u64_at(bytes, 0);
        if magic != EXPORT_MAGIC {
            proof {
                if exists|m: ExportModel| is_export_encoding(bytes@, m) {
                    let m = choose|m: ExportModel| is_export_encoding(bytes@, m);
                    lemma_export_parts(m);
                    lemma_prefix_index(spec_encode_export(m), bytes@);
                    assert(spec_u64_to_le_bytes(m.magic_bytes) =~= bytes@.subrange(0, 8));
                    assert(false);
                }
            }
            return Err(DecodeFault::BadMagic);
        }
        let version = read_u32_at(bytes, 8);
        let ker_hash = copy_range(bytes, 12, 44);
        let event_num = read_u64_at(bytes, 44);
        match read_varint(bytes, 52) {
            None => {
                proof {
                    if exists|m: ExportModel| is_export_encoding(bytes@, m) {
                        let m = choose|m: ExportModel| is_export_encoding(bytes@, m);
                        let l = m.jam.len() as u64;
                        lemma_export_parts(m);
                        lemma_varint_len(l);
                        lemma_prefix_index(spec_encode_export(m), bytes@);
                        let e = spec_encode_export(m);
                        let vl = spec_varint(l).len() as int;
                        let rest = bytes@.skip(52);
                        assert(spec_varint(l) =~= rest.subrange(0, vl)) by {
                            assert forall|k: int| 0 <= k < vl implies spec_varint(l)[k]
                                == rest.subrange(0, vl)[k] by {
                                assert(spec_varint(l)[k] == e.subrange(52, 52 + vl)[k]);
                                assert(e[52 + k] == bytes@[52 + k]);
                            }
                        }
                        assert(spec_varint(l).is_prefix_of(rest));
                        assert(false);
                    }
                }
                Err(DecodeFault::BadLength)
            },
            Some((jlen, vlen)) => {
                let start = 52 + vlen;
                if jlen > (n - start) as u64 {
                    proof {
                        if exists|m: ExportModel| is_export_encoding(bytes@, m) {
                            let m = choose|m: ExportModel| is_export_encoding(bytes@, m);
                            let l = m.jam.len() as u64;
                            lemma_export_parts(m);
                            lemma_varint_len(l);
                            lemma_prefix_index(spec_encode_export(m), bytes@);
                            let e = spec_encode_export(m);
                            let vl = spec_varint(l).len() as int;
                            let rest = bytes@.skip(52);
                            assert(spec_varint(l) =~= rest.subrange(0, vl)) by {
                                assert forall|k: int| 0 <= k < vl implies spec_varint(l)[k]
                                    == rest.subrange(0, vl)[k] by {
                                    assert(spec_varint(l)[k] == e.subrange(52, 52 + vl)[k]);
                                    assert(e[52 + k] == bytes@[52 + k]);
                                }
                            }
                            assert(spec_varint(l).is_prefix_of(rest));
                            assert(spec_varint(jlen) =~= rest.subrange(0, vlen as int)) by {
                                assert forall|k: int| 0 <= k < vlen implies spec_varint(jlen)[k]
                                    == rest.subrange(0, vlen as int)[k] by {
                                    assert(spec_varint(jlen)[k] == bytes@.subrange(
                                        52,
                                        52 + vlen,
                                    )[k]);
                                }
                            }
                            assert(spec_varint(jlen).is_prefix_of(rest));
                            lemma_varint_unique(rest, l, jlen);
                            assert(e.len() <= bytes@.len());
                            assert(false);
                        }
                    }
                    return Err(DecodeFault::Truncated);
                }
                let jlen_us = jlen as usize;
                let jam = copy_range(bytes, start, start + jlen_us);
                let c = ExportedState { magic_bytes: magic, version, ker_hash, event_num, jam };
                proof {
                    let mm = c@;
                    let e = spec_encode_export(mm);
                    lemma_export_parts(mm);
                    let vl = spec_varint(mm.jam.len() as u64).len() as int;
                    assert(mm.jam.len() as u64 == jlen);
                    assert(spec_varint(mm.jam.len() as u64) == spec_varint(jlen));
                    assert(vl == vlen);
                    assert(e.len() <= bytes@.len());
                    assert(e =~= bytes@.subrange(0, e.len() as int)) by {
                        assert forall|k: int| 0 <= k < e.len() implies e[k] == bytes@[k] by {
                            if k < 8 {
                                assert(e[k] == e.subrange(0, 8)[k]);
                                assert(bytes@[k] == bytes@.subrange(0, 8)[k]);
                            } else if k < 12 {
                                assert(e[k] == e.subrange(8, 12)[k - 8]);
                                assert(bytes@[k] == bytes@.subrange(8, 12)[k - 8]);
                            } else if k < 44 {
                                assert(e[k] == e.subrange(12, 44)[k - 12]);
                                assert(bytes@[k] == bytes@.subrange(12, 44)[k - 12]);
                            } else if k < 52 {
                                assert(e[k] == e.subrange(44, 52)[k - 44]);
                                assert(bytes@[k] == bytes@.subrange(44, 52)[k - 44]);
                            } else if k < 52 + vl {
                                assert(e[k] == e.subrange(52, 52 + vl)[k - 52]);
                                assert(bytes@[k] == bytes@.subrange(52, 52 + vlen)[k - 52]);
                            } else {
                                assert(e[k] == e.subrange(52 + vl, e.len() as int)[k - 52 - vl]);
                                assert(bytes@[k] == bytes@.subrange(
                                    start as int,
                                    start + jlen_us,
                                )[k - 52 - vl]);
                            }
                        }
                    }
                    assert(e.is_prefix_of(bytes@));
                    assert(is_export_encoding(bytes@, mm));
                    let w = choose|m: ExportModel| is_export_encoding(bytes@, m);
                    assert(is_export_encoding(bytes@, w));
                    lemma_export_encoding_unique(bytes@, w, mm);
                }
                Ok(c)
            },
        }
    }
}

} // verus!
