use chkjam::error::{CheckpointError, DecodeFault};
use chkjam::record::JammedCheckpoint;
use chkjam::recovery::{select_checkpoint, JamPaths};

fn sample_hash() -> Vec<u8> {
    vec![0xCD; 32]
}

fn record(event_num: u64, buff_index: bool, payload: Vec<u8>) -> JammedCheckpoint {
    JammedCheckpoint::new(1, buff_index, sample_hash(), event_num, payload)
}

fn paths() -> JamPaths {
    JamPaths::new("state")
}

#[test]
fn jam_paths_join_directory() {
    let p = paths();
    assert_eq!(p.0, "state/0.chkjam");
    assert_eq!(p.1, "state/1.chkjam");
}

#[test]
fn recovery_picks_greater_event_number() {
    let five = record(5, false, vec![5]).encode();
    let seven = record(7, true, vec![7]).encode();
    let got = paths().load_checkpoint(Ok(five), Ok(seven)).expect("recovers");
    assert_eq!(got.event_num, 7);
    assert_eq!(got.ker_state, vec![7]);
}

#[test]
fn recovery_picks_greater_event_number_other_order() {
    let nine = record(9, false, vec![9]).encode();
    let seven = record(7, true, vec![7]).encode();
    let got = paths().load_checkpoint(Ok(nine), Ok(seven)).expect("recovers");
    assert_eq!(got.event_num, 9);
}

#[test]
fn recovery_tie_takes_slot_zero() {
    let a = record(4, false, vec![0]).encode();
    let b = record(4, true, vec![1]).encode();
    let got = paths().load_checkpoint(Ok(a), Ok(b)).expect("recovers");
    assert_eq!(got.buff_index, false);
    assert_eq!(got.ker_state, vec![0]);
}

#[test]
fn corrupt_slot_zero_falls_back_to_slot_one() {
    let mut bad = record(10, false, vec![1, 2, 3]).encode();
    let last = bad.len() - 1;
    bad[last] ^= 0x40; // checksum no longer matches the payload
    let good = record(3, true, vec![4, 5]).encode();
    let got = paths().load_checkpoint(Ok(bad), Ok(good)).expect("recovers");
    assert_eq!(got.event_num, 3);
    assert_eq!(got.ker_state, vec![4, 5]);
}

#[test]
fn missing_slot_one_still_recovers() {
    let good = record(8, false, vec![6]).encode();
    let got = paths()
        .load_checkpoint(Ok(good), Err(String::from("no such file")))
        .expect("recovers");
    assert_eq!(got.event_num, 8);
}

#[test]
fn both_slots_missing_fail_with_both_causes() {
    let r = paths().load_checkpoint(
        Err(String::from("slot 0 missing")),
        Err(String::from("slot 1 missing")),
    );
    match r {
        Err(CheckpointError::BothCheckpointsFailed(a, b)) => {
            assert_eq!(*a, CheckpointError::IOError(String::from("slot 0 missing")));
            assert_eq!(*b, CheckpointError::IOError(String::from("slot 1 missing")));
        }
        other => panic!("expected composite failure, got {other:?}"),
    }
}

#[test]
fn both_slots_invalid_fail_with_both_causes() {
    let mut bad0 = record(10, false, vec![1, 2, 3]).encode();
    let last0 = bad0.len() - 1;
    bad0[last0] ^= 0x01;
    let mut bad1 = record(11, true, vec![4, 5, 6]).encode();
    let last1 = bad1.len() - 1;
    bad1[last1] ^= 0x01;
    let r = paths().load_checkpoint(Ok(bad0), Ok(bad1));
    match r {
        Err(CheckpointError::BothCheckpointsFailed(a, b)) => {
            assert_eq!(
                *a,
                CheckpointError::InvalidChecksum(String::from("state/0.chkjam"))
            );
            assert_eq!(
                *b,
                CheckpointError::InvalidChecksum(String::from("state/1.chkjam"))
            );
        }
        other => panic!("expected composite failure, got {other:?}"),
    }
}

#[test]
fn unreadable_and_truncated_report_their_own_faults() {
    let good = record(2, false, vec![7]).encode();
    let truncated = good[..40].to_vec();
    let r = paths().load_checkpoint(Err(String::from("permission denied")), Ok(truncated));
    match r {
        Err(CheckpointError::BothCheckpointsFailed(a, b)) => {
            assert_eq!(
                *a,
                CheckpointError::IOError(String::from("permission denied"))
            );
            assert_eq!(*b, CheckpointError::DecodeError(DecodeFault::Truncated));
        }
        other => panic!("expected composite failure, got {other:?}"),
    }
}

#[test]
fn decode_jam_checks_the_checksum() {
    let good = record(2, false, vec![7]).encode();
    assert!(JamPaths::decode_jam(&good, "state/0.chkjam").is_ok());
    let mut bad = good;
    let last = bad.len() - 1;
    bad[last] ^= 0x02;
    assert_eq!(
        JamPaths::decode_jam(&bad, "state/0.chkjam"),
        Err(CheckpointError::InvalidChecksum(String::from(
            "state/0.chkjam"
        )))
    );
}

#[test]
fn select_prefers_ok_over_err() {
    let a = record(1, false, vec![]);
    let picked = select_checkpoint(
        Err(CheckpointError::IOError(String::from("gone"))),
        Ok(a.clone()),
    );
    assert_eq!(picked, Ok(a));
}
