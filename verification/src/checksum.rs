//! The integrity digest stored in every checkpoint record.

use vstd::prelude::*;

verus! {

/// The digest over (event number, payload length, payload). Its value is a
/// pure function of these inputs and is not described further here; the
/// contracts of this crate only need that it is one fixed function.
pub uninterp spec fn checksum_of(event_num: u64, jam: Seq<u8>) -> Seq<u8>;

/// Relies on blake3: `Hasher::new`, `Hasher::update`, `Hasher::finalize`
/// and `Hash::as_bytes`. The digest is a deterministic function of the
/// bytes fed to the hasher and is 32 bytes long. The bytes fed are the
/// little-endian 8-byte event number, the little-endian 8-byte payload
/// length, then the payload itself, in that order.
#[verifier::external_body]
pub(crate) fn compute_checksum(event_num: u64, jam: &Vec<u8>) -> (r: Vec<u8>)
    ensures
        r@ == checksum_of(event_num, jam@),
        r@.len() == 32,
{
    let mut hasher = blake3::Hasher::new();
    hasher.update(&event_num.to_le_bytes());
    hasher.update(&(jam.len() as u64).to_le_bytes());
    hasher.update(jam.as_slice());
    hasher.finalize().as_bytes().to_vec()
}

} // verus!
