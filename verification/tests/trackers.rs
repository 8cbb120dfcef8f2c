use partial_witness::encoding::WitnessEncoder;
use partial_witness::error::DistributionError;
use partial_witness::partial_witness_tracker::{PartialEncodedStateWitnessTracker, StoreOutcome};
use partial_witness::state_witness_tracker::{
    ChunkStateWitnessAck, ChunkStateWitnessTracker, LatencyObservation,
};
use partial_witness::types::{ChunkProductionKey, PartialEncodedStateWitness};

fn key(height: u64) -> ChunkProductionKey {
    ChunkProductionKey { shard_id: 3, epoch_id: vec![7; 32], height_created: height }
}

fn part(height: u64, ord: usize, bytes: &[u8], encoded_length: usize) -> PartialEncodedStateWitness {
    PartialEncodedStateWitness {
        key: key(height),
        part_ord: ord,
        part: bytes.to_vec(),
        encoded_length,
    }
}

fn ack(hash: u8) -> ChunkStateWitnessAck {
    ChunkStateWitnessAck { chunk_hash: vec![hash; 32] }
}

fn is_ignored(outcome: &Result<StoreOutcome, DistributionError>) -> bool {
    matches!(outcome, Ok(StoreOutcome::Ignored))
}

fn is_stored(outcome: &Result<StoreOutcome, DistributionError>) -> bool {
    matches!(outcome, Ok(StoreOutcome::Stored))
}

#[test]
fn ack_after_send_gives_the_round_trip_time() {
    let mut tracker = ChunkStateWitnessTracker::new(1_000);
    tracker.record_witness_sent(vec![1; 32], 4096, 7, 100);
    assert!(tracker.contains(&vec![1; 32]));
    let seen = tracker.on_witness_ack_received(&ack(1), 350);
    assert_eq!(
        seen,
        Some(LatencyObservation { elapsed: 250, witness_size: 4096, num_validators: 7 })
    );
    assert!(!tracker.contains(&vec![1; 32]));
}

#[test]
fn second_ack_observes_nothing() {
    let mut tracker = ChunkStateWitnessTracker::new(1_000);
    tracker.record_witness_sent(vec![1; 32], 10, 2, 100);
    assert!(tracker.on_witness_ack_received(&ack(1), 110).is_some());
    assert_eq!(tracker.on_witness_ack_received(&ack(1), 110), None);
    assert_eq!(tracker.on_witness_ack_received(&ack(1), 120), None);
}

#[test]
fn ack_without_a_send_observes_nothing() {
    let mut tracker = ChunkStateWitnessTracker::new(1_000);
    assert_eq!(tracker.on_witness_ack_received(&ack(9), 5), None);
    tracker.record_witness_sent(vec![1; 32], 10, 2, 100);
    assert_eq!(tracker.on_witness_ack_received(&ack(9), 105), None);
    assert!(tracker.contains(&vec![1; 32]));
}

#[test]
fn send_record_is_evicted_after_the_retention() {
    let mut tracker = ChunkStateWitnessTracker::new(50);
    tracker.record_witness_sent(vec![1; 32], 10, 2, 100);
    tracker.evict_expired(150);
    assert!(tracker.contains(&vec![1; 32]));
    tracker.evict_expired(151);
    assert!(!tracker.contains(&vec![1; 32]));
    assert_eq!(tracker.on_witness_ack_received(&ack(1), 151), None);
}

#[test]
fn late_ack_finds_no_record() {
    let mut tracker = ChunkStateWitnessTracker::new(50);
    tracker.record_witness_sent(vec![1; 32], 10, 2, 100);
    assert_eq!(tracker.on_witness_ack_received(&ack(1), 200), None);
    assert!(!tracker.contains(&vec![1; 32]));
}

#[test]
fn another_send_sweeps_old_records() {
    let mut tracker = ChunkStateWitnessTracker::new(50);
    tracker.record_witness_sent(vec![1; 32], 10, 2, 100);
    tracker.record_witness_sent(vec![2; 32], 10, 2, 140);
    assert!(tracker.contains(&vec![1; 32]));
    tracker.record_witness_sent(vec![3; 32], 10, 2, 160);
    assert!(!tracker.contains(&vec![1; 32]));
    assert!(tracker.contains(&vec![2; 32]));
    assert!(tracker.contains(&vec![3; 32]));
}

#[test]
fn a_new_send_replaces_the_record_of_the_chunk() {
    let mut tracker = ChunkStateWitnessTracker::new(1_000);
    tracker.record_witness_sent(vec![1; 32], 10, 2, 100);
    tracker.record_witness_sent(vec![1; 32], 20, 3, 130);
    assert_eq!(
        tracker.on_witness_ack_received(&ack(1), 150),
        Some(LatencyObservation { elapsed: 20, witness_size: 20, num_validators: 3 })
    );
}

#[test]
fn clock_that_went_back_gives_no_time() {
    let mut tracker = ChunkStateWitnessTracker::new(10);
    tracker.record_witness_sent(vec![1; 32], 10, 2, 100);
    assert_eq!(
        tracker.on_witness_ack_received(&ack(1), 90),
        Some(LatencyObservation { elapsed: 0, witness_size: 10, num_validators: 2 })
    );
    assert_eq!(tracker.retention(), 10);
}

#[test]
fn storing_a_part_twice_is_storing_it_once() {
    let encoder = WitnessEncoder::new(4, 80).unwrap();
    let (parts, len) = encoder.encode(&vec![1, 2, 3, 4, 5, 6]);
    let mut tracker = PartialEncodedStateWitnessTracker::new(5);
    let first = tracker.store_partial_encoded_state_witness(part(10, 1, &parts[1], len), &encoder);
    assert!(is_stored(&first));
    assert_eq!(tracker.parts_received(&key(10)), Some(1));
    let second = tracker.store_partial_encoded_state_witness(part(10, 1, &parts[1], len), &encoder);
    assert!(is_ignored(&second));
    assert_eq!(tracker.parts_received(&key(10)), Some(1));
    assert!(!tracker.is_complete(&key(10)));
}

#[test]
fn witness_is_rebuilt_at_the_threshold() {
    let encoder = WitnessEncoder::new(4, 50).unwrap();
    let bytes: Vec<u8> = (0..50).collect();
    let (parts, len) = encoder.encode(&bytes);
    let mut tracker = PartialEncodedStateWitnessTracker::new(5);
    let first = tracker.store_partial_encoded_state_witness(part(10, 3, &parts[3], len), &encoder);
    assert!(is_stored(&first));
    let second = tracker.store_partial_encoded_state_witness(part(10, 0, &parts[0], len), &encoder);
    match second {
        Ok(StoreOutcome::Reconstructed(rebuilt)) => assert_eq!(rebuilt, bytes),
        other => panic!("expected the witness, got {:?}", other),
    }
    assert!(tracker.is_complete(&key(10)));
    assert_eq!(tracker.parts_received(&key(10)), None);
}

#[test]
fn parts_after_completion_are_ignored() {
    let encoder = WitnessEncoder::new(4, 50).unwrap();
    let (parts, len) = encoder.encode(&vec![5; 20]);
    let mut tracker = PartialEncodedStateWitnessTracker::new(5);
    tracker.store_partial_encoded_state_witness(part(10, 0, &parts[0], len), &encoder).unwrap();
    tracker.store_partial_encoded_state_witness(part(10, 1, &parts[1], len), &encoder).unwrap();
    assert!(tracker.is_complete(&key(10)));
    let late = tracker.store_partial_encoded_state_witness(part(10, 2, &parts[2], len), &encoder);
    assert!(is_ignored(&late));
    assert!(tracker.is_complete(&key(10)));
}

#[test]
fn part_with_ordinal_out_of_range_is_ignored() {
    let encoder = WitnessEncoder::new(4, 50).unwrap();
    let mut tracker = PartialEncodedStateWitnessTracker::new(5);
    let outcome = tracker.store_partial_encoded_state_witness(part(10, 4, &[1, 2], 4), &encoder);
    assert!(is_ignored(&outcome));
    assert_eq!(tracker.parts_received(&key(10)), None);
}

#[test]
fn stale_states_are_evicted_when_the_height_moves_on() {
    let encoder = WitnessEncoder::new(4, 80).unwrap();
    let (parts, len) = encoder.encode(&vec![1; 12]);
    let mut tracker = PartialEncodedStateWitnessTracker::new(5);
    tracker.store_partial_encoded_state_witness(part(10, 0, &parts[0], len), &encoder).unwrap();
    tracker.store_partial_encoded_state_witness(part(15, 0, &parts[0], len), &encoder).unwrap();
    assert_eq!(tracker.parts_received(&key(10)), Some(1));
    tracker.store_partial_encoded_state_witness(part(16, 0, &parts[0], len), &encoder).unwrap();
    assert_eq!(tracker.parts_received(&key(10)), None);
    assert_eq!(tracker.parts_received(&key(15)), Some(1));
    assert_eq!(tracker.parts_received(&key(16)), Some(1));
}

#[test]
fn late_part_for_an_evicted_production_is_ignored() {
    let encoder = WitnessEncoder::new(4, 80).unwrap();
    let (parts, len) = encoder.encode(&vec![1; 12]);
    let mut tracker = PartialEncodedStateWitnessTracker::new(5);
    tracker.store_partial_encoded_state_witness(part(10, 0, &parts[0], len), &encoder).unwrap();
    tracker.store_partial_encoded_state_witness(part(20, 0, &parts[0], len), &encoder).unwrap();
    let late = tracker.store_partial_encoded_state_witness(part(10, 1, &parts[1], len), &encoder);
    assert!(is_ignored(&late));
    assert_eq!(tracker.parts_received(&key(10)), None);
    let edge = tracker.store_partial_encoded_state_witness(part(15, 1, &parts[1], len), &encoder);
    assert!(is_stored(&edge));
}

#[test]
fn parts_that_do_not_fit_fail_once_all_are_in() {
    let encoder = WitnessEncoder::new(3, 40).unwrap();
    assert_eq!(encoder.data_parts(), 1);
    let mut tracker = PartialEncodedStateWitnessTracker::new(5);
    let first = tracker.store_partial_encoded_state_witness(part(10, 0, &[1, 2], 4), &encoder);
    assert!(is_stored(&first));
    let second = tracker.store_partial_encoded_state_witness(part(10, 1, &[1, 2], 4), &encoder);
    assert!(is_stored(&second));
    assert_eq!(tracker.parts_received(&key(10)), Some(2));
    let third = tracker.store_partial_encoded_state_witness(part(10, 2, &[1, 2], 4), &encoder);
    assert!(matches!(third, Err(DistributionError::CodecError)));
    assert!(tracker.is_complete(&key(10)));
}

#[test]
fn decoding_is_tried_again_with_a_later_part() {
    let encoder = WitnessEncoder::new(3, 40).unwrap();
    let (parts, _) = encoder.encode(&vec![9, 9, 9, 9]);
    let mut tracker = PartialEncodedStateWitnessTracker::new(5);
    let first = tracker.store_partial_encoded_state_witness(part(10, 0, &parts[0], 3), &encoder);
    assert!(is_stored(&first));
    let second = tracker.store_partial_encoded_state_witness(part(10, 1, &parts[1], 4), &encoder);
    match second {
        Ok(StoreOutcome::Reconstructed(rebuilt)) => assert_eq!(rebuilt, vec![9, 9, 9, 9]),
        other => panic!("expected the witness, got {:?}", other),
    }
}

#[test]
fn states_of_different_productions_are_kept_apart() {
    let encoder = WitnessEncoder::new(4, 80).unwrap();
    let (parts, len) = encoder.encode(&vec![1; 12]);
    let mut tracker = PartialEncodedStateWitnessTracker::new(5);
    tracker.store_partial_encoded_state_witness(part(10, 0, &parts[0], len), &encoder).unwrap();
    let mut other = part(10, 0, &parts[0], len);
    other.key.shard_id = 4;
    let outcome = tracker.store_partial_encoded_state_witness(other.clone(), &encoder);
    assert!(is_stored(&outcome));
    assert_eq!(tracker.parts_received(&key(10)), Some(1));
    assert_eq!(tracker.parts_received(&other.key), Some(1));
    assert!(other.key.same_as(&other.key.clone()));
    assert!(!other.key.same_as(&key(10)));
}
