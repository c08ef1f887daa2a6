//! Validators that signed invalid proofs.

use eip8025::hash::{Hash256, PublicKeyBytes};
use eip8025::invalid_proof_tracker::{
    invalid_proof_tracker_db_key, InvalidProofRecord, InvalidProofTracker,
};
use eip8025::ssz::{decode_container, decode_list};
use eip8025::store::{DBColumn, KeyValueStoreOp, StoreError};

/// A key that differs for each seed.
fn test_pubkey(index: usize) -> PublicKeyBytes {
    let mut bytes = [0x80; 48];
    bytes[40..].copy_from_slice(&(index as u64).to_be_bytes());
    PublicKeyBytes(bytes)
}

fn make_record(seed: usize) -> InvalidProofRecord {
    InvalidProofRecord {
        validator_pubkey: test_pubkey(seed),
        request_root: Hash256::repeat_byte(0x01),
        proof_type: 1,
    }
}

/// A store of one column.
struct TestStore {
    value: Option<Vec<u8>>,
}

impl TestStore {
    fn put(&mut self, op: KeyValueStoreOp) {
        match op {
            KeyValueStoreOp::PutKeyValue(DBColumn::InvalidProofTracker, key, value) => {
                assert_eq!(key, vec![0; 32]);
                self.value = Some(value);
            }
            other => panic!("unexpected change {other:?}"),
        }
    }

    fn get(&self) -> Result<Option<Vec<u8>>, StoreError> {
        Ok(self.value.clone())
    }
}

#[test]
fn ban_on_first_invalid_proof() {
    let mut tracker = InvalidProofTracker::default();
    let pk = test_pubkey(42);
    assert!(!tracker.is_banned(&pk));
    let is_new = tracker.record_invalid_proof(make_record(42));
    assert!(is_new);
    assert!(tracker.is_banned(&pk));
}

#[test]
fn duplicate_ban_returns_false() {
    let mut tracker = InvalidProofTracker::default();
    tracker.record_invalid_proof(make_record(42));
    let is_new = tracker.record_invalid_proof(make_record(42));
    assert!(!is_new);
    assert_eq!(tracker.banned_count(), 1);
}

#[test]
fn unban_removes_validator() {
    let mut tracker = InvalidProofTracker::default();
    let pk = test_pubkey(42);
    tracker.record_invalid_proof(make_record(42));
    assert!(tracker.unban(&pk));
    assert!(!tracker.is_banned(&pk));
    assert!(!tracker.unban(&pk));
}

#[test]
fn clear_removes_all() {
    let mut tracker = InvalidProofTracker::default();
    tracker.record_invalid_proof(make_record(1));
    tracker.record_invalid_proof(make_record(2));
    tracker.record_invalid_proof(make_record(3));
    tracker.clear();
    assert_eq!(tracker.banned_count(), 0);
}

#[test]
fn ban_scope_is_all_types() {
    let mut tracker = InvalidProofTracker::default();
    let pk = test_pubkey(42);
    tracker.record_invalid_proof(make_record(42));
    assert!(tracker.is_banned(&pk));
}

#[test]
fn ssz_round_trip() {
    let mut tracker = InvalidProofTracker::default();
    tracker.record_invalid_proof(make_record(10));
    tracker.record_invalid_proof(make_record(20));
    tracker.record_invalid_proof(make_record(5));
    let mut sorted: Vec<Vec<u8>> =
        tracker.banned_validators().iter().map(|pk| pk.0.to_vec()).collect();
    sorted.sort_unstable();
    let bytes = match tracker.persist_to_store().unwrap() {
        KeyValueStoreOp::PutKeyValue(_, _, bytes) => bytes,
        other => panic!("unexpected change {other:?}"),
    };
    let parts = decode_container(&bytes, &vec![None]).unwrap();
    assert_eq!(parts.len(), 1);
    assert_eq!(decode_list(&parts[0]).unwrap(), sorted);
    assert_eq!(sorted, vec![
        test_pubkey(5).0.to_vec(),
        test_pubkey(10).0.to_vec(),
        test_pubkey(20).0.to_vec(),
    ]);
}

#[test]
fn empty_start_fallback() {
    let store = TestStore { value: None };
    let tracker = InvalidProofTracker::load_from_store(store.get());
    assert_eq!(tracker.banned_count(), 0);
    assert!(!tracker.is_banned(&test_pubkey(1)));
}

#[test]
fn persist_and_reload() {
    let mut store = TestStore { value: None };
    let mut tracker = InvalidProofTracker::default();
    tracker.record_invalid_proof(make_record(10));
    tracker.record_invalid_proof(make_record(20));
    tracker.record_invalid_proof(make_record(5));
    store.put(tracker.persist_to_store().unwrap());
    drop(tracker);
    let reloaded = InvalidProofTracker::load_from_store(store.get());
    assert_eq!(reloaded.banned_count(), 3);
    assert!(reloaded.is_banned(&test_pubkey(5)));
    assert!(reloaded.is_banned(&test_pubkey(10)));
    assert!(reloaded.is_banned(&test_pubkey(20)));
    assert!(!reloaded.is_banned(&test_pubkey(99)));
}

#[test]
fn persist_after_unban_survives_reload() {
    let mut store = TestStore { value: None };
    let mut tracker = InvalidProofTracker::default();
    tracker.record_invalid_proof(make_record(10));
    tracker.record_invalid_proof(make_record(20));
    store.put(tracker.persist_to_store().unwrap());
    tracker.unban(&test_pubkey(10));
    store.put(tracker.persist_to_store().unwrap());
    let reloaded = InvalidProofTracker::load_from_store(store.get());
    assert_eq!(reloaded.banned_count(), 1);
    assert!(!reloaded.is_banned(&test_pubkey(10)));
    assert!(reloaded.is_banned(&test_pubkey(20)));
}

#[test]
fn failures_of_the_store_leave_an_empty_tracker() {
    let failed = InvalidProofTracker::load_from_store(Err(StoreError::SszDecodeError));
    assert_eq!(failed.banned_count(), 0);
    let unreadable = InvalidProofTracker::load_from_store(Ok(Some(vec![1, 2, 3])));
    assert_eq!(unreadable.banned_count(), 0);
}

#[test]
fn strings_that_are_no_keys_are_skipped() {
    // A container of one list, of a string of three bytes and of a key.
    let mut bytes = 4u32.to_le_bytes().to_vec();
    bytes.extend(8u32.to_le_bytes());
    bytes.extend(11u32.to_le_bytes());
    bytes.extend([1, 2, 3]);
    bytes.extend(test_pubkey(9).0);
    let tracker = InvalidProofTracker::load_from_store(Ok(Some(bytes)));
    assert_eq!(tracker.banned_validators(), vec![test_pubkey(9)]);
}

#[test]
fn key_of_the_tracker_is_zero() {
    assert_eq!(invalid_proof_tracker_db_key(), Hash256::zero());
}

/// The order of the bans does not show in what is stored.
#[test]
fn stored_bytes_do_not_depend_on_the_order() {
    let mut forward = InvalidProofTracker::default();
    let mut backward = InvalidProofTracker::default();
    for seed in 0..7 {
        forward.record_invalid_proof(make_record(seed));
        backward.record_invalid_proof(make_record(6 - seed));
    }
    assert_eq!(forward.persist_to_store().unwrap(), backward.persist_to_store().unwrap());
}
