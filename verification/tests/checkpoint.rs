use chkjam::error::{CheckpointError, DecodeFault};
use chkjam::record::{ExportedState, JammedCheckpoint};

fn sample_hash() -> Vec<u8> {
    vec![0xAB; 32]
}

fn sample_record(event_num: u64, payload: Vec<u8>) -> JammedCheckpoint {
    JammedCheckpoint::new(1, false, sample_hash(), event_num, payload)
}

#[test]
fn checksum_validates_fresh_record() {
    let c = sample_record(42, vec![1, 2, 3, 4, 5]);
    assert!(c.validate());
}

#[test]
fn checksum_validates_empty_payload() {
    let c = sample_record(0, Vec::new());
    assert!(c.validate());
}

#[test]
fn payload_bit_flip_invalidates() {
    let mut c = sample_record(42, vec![1, 2, 3, 4, 5]);
    c.jam[2] ^= 0x01;
    assert!(!c.validate());
}

#[test]
fn event_number_change_invalidates() {
    let mut c = sample_record(42, vec![1, 2, 3, 4, 5]);
    c.event_num += 1;
    assert!(!c.validate());
}

#[test]
fn stored_checksum_bit_flip_invalidates() {
    let mut c = sample_record(42, vec![1, 2, 3, 4, 5]);
    c.checksum[0] ^= 0x80;
    assert!(!c.validate());
}

#[test]
fn checksum_is_deterministic() {
    let a = sample_record(7, vec![9, 9, 9]);
    let b = sample_record(7, vec![9, 9, 9]);
    assert_eq!(a.checksum, b.checksum);
    assert_eq!(a, b);
}

#[test]
fn checksum_is_not_the_payload() {
    // A digest that just handed the payload back would validate here.
    let payload: Vec<u8> = (0u8..32).collect();
    let c = JammedCheckpoint {
        magic_bytes: chkjam::record::CHECKPOINT_MAGIC,
        version: 1,
        buff_index: false,
        ker_hash: sample_hash(),
        checksum: payload.clone(),
        event_num: 5,
        jam: payload,
    };
    assert!(!c.validate());
}

#[test]
fn checksum_matches_external_digest() {
    // The stored checksum is blake3 over the little-endian event number,
    // the little-endian payload length, then the payload.
    let payload = vec![10u8, 20, 30];
    let c = sample_record(99, payload.clone());
    let mut hasher = blake3::Hasher::new();
    hasher.update(&99u64.to_le_bytes());
    hasher.update(&(payload.len() as u64).to_le_bytes());
    hasher.update(&payload);
    let expected = hasher.finalize();
    assert_eq!(c.checksum.as_slice(), expected.as_bytes());
}

#[test]
fn round_trip_checkpoint() {
    let c = sample_record(42, vec![1, 2, 3, 4, 5]);
    let bytes = c.encode();
    let d = JammedCheckpoint::decode(&bytes).expect("decodes");
    assert_eq!(d, c);
}

#[test]
fn round_trip_checkpoint_empty_payload() {
    let c = sample_record(0, Vec::new());
    let d = JammedCheckpoint::decode(&c.encode()).expect("decodes");
    assert_eq!(d, c);
}

#[test]
fn round_trip_checkpoint_large_payload() {
    // Payload long enough to use the wider length-prefix form.
    let c = sample_record(7, vec![0x5A; 70_000]);
    let d = JammedCheckpoint::decode(&c.encode()).expect("decodes");
    assert_eq!(d, c);
}

#[test]
fn round_trip_export() {
    let e = ExportedState::new(3, sample_hash(), 17, vec![8, 8, 8]);
    let bytes = e.encode();
    let d = ExportedState::decode(&bytes).expect("decodes");
    assert_eq!(d, e);
}

#[test]
fn encode_is_deterministic() {
    let a = sample_record(11, vec![4, 4]).encode();
    let b = sample_record(11, vec![4, 4]).encode();
    assert_eq!(a, b);
}

#[test]
fn magic_tags_are_ascii() {
    let c = sample_record(1, vec![]).encode();
    assert_eq!(&c[0..6], b"CHKJAM");
    assert_eq!(&c[6..8], &[0, 0]);
    let e = ExportedState::new(1, sample_hash(), 1, vec![]).encode();
    assert_eq!(&e[0..6], b"EXPJAM");
    assert_eq!(&e[6..8], &[0, 0]);
}

#[test]
fn truncated_bytes_give_decode_error() {
    let bytes = sample_record(42, vec![1, 2, 3, 4, 5]).encode();
    for cut in 0..bytes.len() {
        let r = JammedCheckpoint::decode(&bytes[..cut]);
        assert!(r.is_err(), "truncation at {cut} must fail");
    }
}

#[test]
fn payload_shorter_than_declared_is_truncated() {
    // A full header whose length prefix promises more payload than there is.
    let full = sample_record(42, vec![1, 2, 3, 4, 5]).encode();
    let r = JammedCheckpoint::decode(&full[..full.len() - 2]);
    assert_eq!(r, Err(DecodeFault::Truncated));
}

#[test]
fn bad_magic_is_rejected() {
    let mut bytes = sample_record(42, vec![1]).encode();
    bytes[0] ^= 0xFF;
    assert_eq!(JammedCheckpoint::decode(&bytes), Err(DecodeFault::BadMagic));
}

#[test]
fn bad_buffer_flag_is_rejected() {
    let mut bytes = sample_record(42, vec![1]).encode();
    bytes[12] = 2;
    assert_eq!(
        JammedCheckpoint::decode(&bytes),
        Err(DecodeFault::BadBufferFlag)
    );
}

#[test]
fn non_canonical_length_is_rejected() {
    let c = sample_record(42, vec![1, 2, 3]);
    let mut bytes = c.encode();
    // The payload length 3 must be a single byte; spell it in the wider
    // marker form instead.
    assert_eq!(bytes[85], 3);
    bytes[85] = 251;
    bytes.insert(86, 3);
    bytes.insert(87, 0);
    assert_eq!(JammedCheckpoint::decode(&bytes), Err(DecodeFault::BadLength));
}

#[test]
fn trailing_bytes_are_ignored() {
    let c = sample_record(42, vec![1, 2, 3]);
    let mut bytes = c.encode();
    bytes.extend_from_slice(&[0xDE, 0xAD, 0xBE, 0xEF]);
    assert_eq!(JammedCheckpoint::decode(&bytes).expect("decodes"), c);
}

#[test]
fn export_and_checkpoint_share_payload_but_not_format() {
    let payload = vec![7u8; 40];
    let c = sample_record(5, payload.clone());
    let e = ExportedState::new(1, sample_hash(), 5, payload);
    // Identical logical state gives identical payload bytes.
    assert_eq!(c.jam, e.jam);
    // The recovery-side decoder refuses an export record outright.
    let err = JammedCheckpoint::decode(&e.encode());
    assert_eq!(err, Err(DecodeFault::BadMagic));
    // The export record carries no checksum: only magic, version, hash,
    // event number, length prefix and payload.
    assert_eq!(e.encode().len(), 8 + 4 + 32 + 8 + 1 + 40);
    let err = ExportedState::decode(&c.encode());
    assert_eq!(err.map(|_| ()), Err(DecodeFault::BadMagic));
}

#[test]
fn composite_error_keeps_both_causes() {
    let e0 = CheckpointError::IOError(String::from("slot 0 gone"));
    let e1 = CheckpointError::DecodeError(DecodeFault::Truncated);
    let both = CheckpointError::BothCheckpointsFailed(Box::new(e0), Box::new(e1));
    match both {
        CheckpointError::BothCheckpointsFailed(a, b) => {
            assert_eq!(*a, CheckpointError::IOError(String::from("slot 0 gone")));
            assert_eq!(*b, CheckpointError::DecodeError(DecodeFault::Truncated));
        }
        _ => panic!("wrong variant"),
    }
}
