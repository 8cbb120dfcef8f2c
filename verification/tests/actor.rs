use near_primitives::hash::CryptoHash;
use near_primitives::stateless_validation::ChunkStateWitness;
use partial_witness::error::DistributionError;
use partial_witness::partial_witness_actor::{
    DistributeStateWitnessRequest, Distribution, PartialWitnessActor,
};
use partial_witness::routing::{forward_state_witness_part, position_of_validator};
use partial_witness::state_witness_tracker::ChunkStateWitnessAck;
use partial_witness::types::{
    ChunkProductionKey, PartValidation, PartialEncodedStateWitness, ShardChunkHeader,
    ValidatorSnapshot,
};
use partial_witness::encoding::WitnessEncoder;
use partial_witness::witness::{compress_witness, decompress_witness, EncodedChunkStateWitness};

const HEIGHT: u64 = 120;
const SHARD: u64 = 2;

fn witness() -> ChunkStateWitness {
    ChunkStateWitness::new_dummy(HEIGHT, SHARD, CryptoHash::default())
}

fn request() -> DistributeStateWitnessRequest {
    let state_witness = witness();
    DistributeStateWitnessRequest {
        epoch_id: state_witness.epoch_id.0.as_bytes().to_vec(),
        chunk_header: ShardChunkHeader {
            shard_id: state_witness.chunk_header.shard_id(),
            height_created: state_witness.chunk_header.height_created(),
            chunk_hash: state_witness.chunk_header.chunk_hash().as_bytes().to_vec(),
        },
        state_witness,
    }
}

fn key() -> ChunkProductionKey {
    let request = request();
    ChunkProductionKey {
        shard_id: request.chunk_header.shard_id,
        epoch_id: request.epoch_id,
        height_created: request.chunk_header.height_created,
    }
}

fn names(count: usize) -> Vec<String> {
    (0..count).map(|i| format!("validator{}.near", i)).collect()
}

fn snapshot(local: Option<&str>, validators: Option<Vec<String>>, producer: Option<&str>) -> ValidatorSnapshot {
    ValidatorSnapshot {
        my_signer: local.map(|name| name.to_string()),
        chunk_validators: validators,
        chunk_producer: producer.map(|name| name.to_string()),
    }
}

fn actor() -> PartialWitnessActor {
    PartialWitnessActor::with_data_percent(5, 1_000, 50).unwrap()
}

/// What the producer `validator2.near` hands out for four validators.
fn distributed() -> Distribution {
    let mut producer = actor();
    let view = snapshot(Some("validator2.near"), Some(names(4)), Some("validator2.near"));
    producer.handle_distribute_state_witness_request(request(), &view, 10).unwrap()
}

fn part_for<'a>(distribution: &'a Distribution, validator: &str) -> &'a PartialEncodedStateWitness {
    &distribution.parts.iter().find(|(name, _)| name == validator).unwrap().1
}

#[test]
fn producer_among_validators_keeps_its_own_part() {
    let mut producer = actor();
    let view = snapshot(Some("validator2.near"), Some(names(4)), Some("validator2.near"));
    let done = producer.handle_distribute_state_witness_request(request(), &view, 10).unwrap();
    let owners: Vec<&str> = done.parts.iter().map(|(name, _)| name.as_str()).collect();
    assert_eq!(owners, vec!["validator0.near", "validator1.near", "validator3.near"]);
    let ordinals: Vec<usize> = done.parts.iter().map(|(_, part)| part.part_ord).collect();
    assert_eq!(ordinals, vec![0, 1, 3]);
    assert_eq!(producer.parts_received(&key()), Some(1));
    let forward = done.forward.unwrap();
    assert_eq!(
        forward.target_chunk_validators,
        vec!["validator0.near", "validator1.near", "validator3.near"]
    );
    assert_eq!(forward.partial_witness.part_ord, 2);
    assert!(done.reconstructed.is_none());
    assert!(producer.awaits_ack(&request().chunk_header.chunk_hash));
}

#[test]
fn forward_of_own_part_leaves_out_the_producer() {
    let mut node = actor();
    let view = snapshot(Some("validator2.near"), Some(names(4)), Some("validator0.near"));
    let done = node.handle_distribute_state_witness_request(request(), &view, 10).unwrap();
    assert_eq!(
        done.forward.unwrap().target_chunk_validators,
        vec!["validator1.near", "validator3.near"]
    );
}

#[test]
fn producer_outside_the_validators_sends_every_part() {
    let mut producer = actor();
    let view = snapshot(Some("producer.near"), Some(names(4)), Some("producer.near"));
    let done = producer.handle_distribute_state_witness_request(request(), &view, 10).unwrap();
    assert_eq!(done.parts.len(), 4);
    for (i, (name, part)) in done.parts.iter().enumerate() {
        assert_eq!(name, &format!("validator{}.near", i));
        assert_eq!(part.part_ord, i);
        assert_eq!(part.encoded_length, done.witness_size);
        assert!(part.key.same_as(&key()));
    }
    assert!(done.forward.is_none());
    assert_eq!(producer.parts_received(&key()), None);
    assert!(done.raw_witness_size > 0);
}

#[test]
fn send_is_recorded_with_the_number_of_recipients() {
    let mut producer = actor();
    let view = snapshot(Some("validator2.near"), Some(names(4)), Some("validator2.near"));
    let done = producer.handle_distribute_state_witness_request(request(), &view, 10).unwrap();
    let ack = ChunkStateWitnessAck { chunk_hash: request().chunk_header.chunk_hash };
    let seen = producer.handle_chunk_state_witness_ack(ack, 25).unwrap();
    assert_eq!(seen.elapsed, 15);
    assert_eq!(seen.num_validators, 3);
    assert_eq!(seen.witness_size, done.witness_size);
}

#[test]
fn ack_for_an_unknown_chunk_is_a_no_op() {
    let mut node = actor();
    let ack = ChunkStateWitnessAck { chunk_hash: vec![4; 32] };
    assert_eq!(node.handle_chunk_state_witness_ack(ack, 25), None);
    assert!(!node.awaits_ack(&vec![4; 32]));
}

#[test]
fn second_ack_for_a_chunk_is_a_no_op() {
    let mut producer = actor();
    let view = snapshot(Some("validator2.near"), Some(names(4)), Some("validator2.near"));
    producer.handle_distribute_state_witness_request(request(), &view, 10).unwrap();
    let hash = request().chunk_header.chunk_hash;
    assert!(producer
        .handle_chunk_state_witness_ack(ChunkStateWitnessAck { chunk_hash: hash.clone() }, 20)
        .is_some());
    assert!(producer
        .handle_chunk_state_witness_ack(ChunkStateWitnessAck { chunk_hash: hash }, 21)
        .is_none());
}

#[test]
fn validator_rebuilds_the_witness_from_a_direct_and_a_forwarded_part() {
    let done = distributed();
    let forwarded = done.forward.as_ref().unwrap().partial_witness.clone();
    let mut validator = actor();
    let view = snapshot(Some("validator0.near"), Some(names(4)), Some("validator2.near"));
    let direct = validator
        .handle_partial_encoded_state_witness(
            part_for(&done, "validator0.near").clone(),
            PartValidation::Valid,
            &view,
        )
        .unwrap();
    assert!(direct.reconstructed.is_none());
    assert_eq!(
        direct.forward.as_ref().unwrap().target_chunk_validators,
        vec!["validator1.near", "validator3.near"]
    );
    assert_eq!(direct.forward.unwrap().partial_witness.part_ord, 0);
    assert_eq!(validator.parts_received(&key()), Some(1));
    let second = validator
        .handle_partial_encoded_state_witness_forward(forwarded.clone(), PartValidation::Valid, &view)
        .unwrap();
    assert!(second.forward.is_none());
    let rebuilt = second.reconstructed.unwrap();
    assert_eq!(rebuilt.witness, witness());
    assert_eq!(rebuilt.raw_size, done.raw_witness_size);
    let again = validator
        .handle_partial_encoded_state_witness_forward(forwarded, PartValidation::Valid, &view)
        .unwrap();
    assert!(again.reconstructed.is_none());
    assert_eq!(validator.parts_received(&key()), None);
}

#[test]
fn duplicate_forward_does_not_count_twice() {
    let done = distributed();
    let forwarded = done.forward.as_ref().unwrap().partial_witness.clone();
    let mut validator = actor();
    let view = snapshot(Some("validator0.near"), Some(names(4)), Some("validator2.near"));
    for _ in 0..2 {
        let taken = validator
            .handle_partial_encoded_state_witness_forward(
                forwarded.clone(),
                PartValidation::Valid,
                &view,
            )
            .unwrap();
        assert!(taken.reconstructed.is_none());
        assert_eq!(validator.parts_received(&key()), Some(1));
    }
}

#[test]
fn forwarded_part_is_never_forwarded_again() {
    let done = distributed();
    let mut validator = actor();
    let view = snapshot(Some("validator1.near"), Some(names(4)), Some("validator2.near"));
    let taken = validator
        .handle_partial_encoded_state_witness_forward(
            part_for(&done, "validator3.near").clone(),
            PartValidation::Valid,
            &view,
        )
        .unwrap();
    assert!(taken.forward.is_none());
}

#[test]
fn single_validator_rebuilds_at_once() {
    let mut producer = actor();
    let view = snapshot(Some("validator0.near"), Some(names(1)), Some("validator0.near"));
    let done = producer.handle_distribute_state_witness_request(request(), &view, 10).unwrap();
    assert!(done.parts.is_empty());
    assert!(done.forward.is_none());
    assert_eq!(done.reconstructed.unwrap().witness, witness());
}

#[test]
fn distribute_without_identity_is_refused() {
    let mut node = actor();
    let view = snapshot(None, Some(names(4)), Some("validator2.near"));
    let refused = node.handle_distribute_state_witness_request(request(), &view, 10);
    assert!(matches!(refused, Err(DistributionError::NotAValidator)));
    assert!(!node.awaits_ack(&request().chunk_header.chunk_hash));
}

#[test]
fn distribute_without_assignment_fails() {
    let mut node = actor();
    let view = snapshot(Some("validator2.near"), None, Some("validator2.near"));
    let failed = node.handle_distribute_state_witness_request(request(), &view, 10);
    assert!(matches!(failed, Err(DistributionError::AssignmentLookupFailed)));
}

#[test]
fn distribute_without_producer_fails_only_where_a_part_is_forwarded() {
    let mut node = actor();
    let view = snapshot(Some("validator2.near"), Some(names(4)), None);
    let failed = node.handle_distribute_state_witness_request(request(), &view, 10);
    assert!(matches!(failed, Err(DistributionError::AssignmentLookupFailed)));
    assert_eq!(node.parts_received(&key()), None);
    let view = snapshot(Some("producer.near"), Some(names(4)), None);
    assert!(node.handle_distribute_state_witness_request(request(), &view, 10).is_ok());
}

#[test]
fn distribute_to_nobody_fails() {
    let mut node = actor();
    let view = snapshot(Some("validator2.near"), Some(Vec::new()), Some("validator2.near"));
    let failed = node.handle_distribute_state_witness_request(request(), &view, 10);
    assert!(matches!(failed, Err(DistributionError::CodecError)));
    let view = snapshot(Some("validator2.near"), Some(names(257)), Some("validator2.near"));
    let failed = node.handle_distribute_state_witness_request(request(), &view, 10);
    assert!(matches!(failed, Err(DistributionError::CodecError)));
}

#[test]
fn part_without_identity_is_refused() {
    let done = distributed();
    let mut node = actor();
    let view = snapshot(None, Some(names(4)), Some("validator2.near"));
    let refused = node.handle_partial_encoded_state_witness(
        part_for(&done, "validator0.near").clone(),
        PartValidation::Valid,
        &view,
    );
    assert!(matches!(refused, Err(DistributionError::NotAValidator)));
    let refused = node.handle_partial_encoded_state_witness_forward(
        part_for(&done, "validator0.near").clone(),
        PartValidation::Valid,
        &view,
    );
    assert!(matches!(refused, Err(DistributionError::NotAValidator)));
}

#[test]
fn rejected_part_is_dropped_silently() {
    let done = distributed();
    let mut node = actor();
    let view = snapshot(Some("validator0.near"), Some(names(4)), Some("validator2.near"));
    let dropped = node
        .handle_partial_encoded_state_witness(
            part_for(&done, "validator0.near").clone(),
            PartValidation::Rejected,
            &view,
        )
        .unwrap();
    assert!(dropped.forward.is_none());
    assert!(dropped.reconstructed.is_none());
    assert_eq!(node.parts_received(&key()), None);
}

#[test]
fn malformed_part_is_an_error() {
    let done = distributed();
    let mut node = actor();
    let view = snapshot(Some("validator0.near"), Some(names(4)), Some("validator2.near"));
    let failed = node.handle_partial_encoded_state_witness(
        part_for(&done, "validator0.near").clone(),
        PartValidation::Malformed,
        &view,
    );
    assert!(matches!(failed, Err(DistributionError::ValidationRejected)));
    assert_eq!(node.parts_received(&key()), None);
}

#[test]
fn part_without_assignment_fails() {
    let done = distributed();
    let mut node = actor();
    let view = snapshot(Some("validator0.near"), None, Some("validator2.near"));
    let failed = node.handle_partial_encoded_state_witness_forward(
        part_for(&done, "validator0.near").clone(),
        PartValidation::Valid,
        &view,
    );
    assert!(matches!(failed, Err(DistributionError::AssignmentLookupFailed)));
    assert_eq!(node.parts_received(&key()), None);
}

#[test]
fn part_is_stored_before_the_forward_fails() {
    let done = distributed();
    let mut node = actor();
    let view = snapshot(Some("validator0.near"), Some(names(4)), None);
    let failed = node.handle_partial_encoded_state_witness(
        part_for(&done, "validator0.near").clone(),
        PartValidation::Valid,
        &view,
    );
    assert!(matches!(failed, Err(DistributionError::AssignmentLookupFailed)));
    assert_eq!(node.parts_received(&key()), Some(1));
    let taken = node
        .handle_partial_encoded_state_witness_forward(
            part_for(&done, "validator1.near").clone(),
            PartValidation::Valid,
            &view,
        )
        .unwrap();
    assert_eq!(taken.reconstructed.unwrap().witness, witness());
    assert!(taken.failure.is_none());
}

#[test]
fn witness_is_handed_on_though_the_forward_fails() {
    let mut producer = actor();
    let view = snapshot(Some("producer.near"), Some(names(1)), Some("producer.near"));
    let done = producer.handle_distribute_state_witness_request(request(), &view, 10).unwrap();
    let mut node = actor();
    let view = snapshot(Some("validator0.near"), Some(names(1)), None);
    let taken = node
        .handle_partial_encoded_state_witness(
            part_for(&done, "validator0.near").clone(),
            PartValidation::Valid,
            &view,
        )
        .unwrap();
    assert_eq!(taken.reconstructed.unwrap().witness, witness());
    assert!(taken.forward.is_none());
    assert_eq!(taken.failure, Some(DistributionError::AssignmentLookupFailed));
}

#[test]
fn parts_go_out_though_storing_the_own_part_fails() {
    let mut producer = actor();
    let view = snapshot(Some("validator0.near"), Some(names(2)), Some("validator0.near"));
    let bogus =
        PartialEncodedStateWitness { key: key(), part_ord: 1, part: vec![1, 2, 3], encoded_length: 1_000 };
    let kept = producer
        .handle_partial_encoded_state_witness_forward(bogus, PartValidation::Valid, &view)
        .unwrap();
    assert!(kept.reconstructed.is_none());
    assert_eq!(producer.parts_received(&key()), Some(1));
    let done = producer.handle_distribute_state_witness_request(request(), &view, 10).unwrap();
    assert_eq!(done.failure, Some(DistributionError::CodecError));
    assert!(done.reconstructed.is_none());
    let owners: Vec<&str> = done.parts.iter().map(|(name, _)| name.as_str()).collect();
    assert_eq!(owners, vec!["validator1.near"]);
    assert_eq!(done.forward.unwrap().target_chunk_validators, vec!["validator1.near"]);
    assert!(producer.awaits_ack(&request().chunk_header.chunk_hash));
}

#[test]
fn any_two_of_four_generated_parts_rebuild_the_witness() {
    let mut node = actor();
    let encoded = EncodedChunkStateWitness { bytes: vec![1, 2, 3, 4, 5, 6, 7, 8, 9, 10], raw_size: 10 };
    let batch = node.generate_state_witness_parts(&key(), &encoded, &names(4)).unwrap();
    assert_eq!(batch.len(), 4);
    let encoder = WitnessEncoder::new(4, 50).unwrap();
    for i in 0..4 {
        assert_eq!(batch[i].1.part.len(), 5);
        for j in (i + 1)..4 {
            let mut parts: Vec<Option<Vec<u8>>> = vec![None, None, None, None];
            parts[i] = Some(batch[i].1.part.clone());
            parts[j] = Some(batch[j].1.part.clone());
            assert_eq!(encoder.decode(&parts, batch[0].1.encoded_length), Ok(encoded.bytes.clone()));
        }
    }
}

#[test]
fn newest_height_follows_the_parts() {
    let done = distributed();
    let mut node = actor();
    assert_eq!(node.newest_height(), 0);
    let view = snapshot(Some("validator0.near"), Some(names(4)), Some("validator2.near"));
    node.handle_partial_encoded_state_witness_forward(
        part_for(&done, "validator1.near").clone(),
        PartValidation::Valid,
        &view,
    )
    .unwrap();
    assert_eq!(node.newest_height(), HEIGHT);
}

#[test]
fn rebuilt_bytes_that_are_no_witness_are_an_error() {
    let mut node = actor();
    let view = snapshot(Some("validator0.near"), Some(names(1)), Some("validator0.near"));
    let garbage =
        PartialEncodedStateWitness { key: key(), part_ord: 0, part: vec![1, 2, 3], encoded_length: 3 };
    let failed =
        node.handle_partial_encoded_state_witness_forward(garbage, PartValidation::Valid, &view);
    assert!(matches!(failed, Err(DistributionError::SerializationError)));
}

#[test]
fn parts_that_do_not_fit_are_an_error_once_all_are_in() {
    let mut node = PartialWitnessActor::with_data_percent(5, 1_000, 99).unwrap();
    let view = snapshot(Some("validator0.near"), Some(names(2)), Some("validator1.near"));
    let first =
        PartialEncodedStateWitness { key: key(), part_ord: 0, part: vec![1, 2], encoded_length: 9 };
    let second =
        PartialEncodedStateWitness { key: key(), part_ord: 1, part: vec![1, 2], encoded_length: 9 };
    assert!(node
        .handle_partial_encoded_state_witness_forward(first, PartValidation::Valid, &view)
        .is_ok());
    let failed =
        node.handle_partial_encoded_state_witness_forward(second, PartValidation::Valid, &view);
    assert!(matches!(failed, Err(DistributionError::CodecError)));
}

#[test]
fn compression_round_trips() {
    let state_witness = witness();
    let encoded = compress_witness(&state_witness).unwrap();
    assert!(!encoded.bytes.is_empty());
    assert!(encoded.raw_size > 0);
    let found = decompress_witness(&encoded.bytes).unwrap();
    assert_eq!(found.witness, state_witness);
    assert_eq!(found.raw_size, encoded.raw_size);
    assert!(matches!(
        decompress_witness(&vec![0, 1, 2, 3]),
        Err(DistributionError::SerializationError)
    ));
}

#[test]
fn generated_parts_pair_validators_with_ordinals() {
    let mut node = PartialWitnessActor::new(5, 1_000);
    let encoded = compress_witness(&witness()).unwrap();
    let batch = node.generate_state_witness_parts(&key(), &encoded, &names(10)).unwrap();
    assert_eq!(batch.len(), 10);
    let length = batch[0].1.part.len();
    assert_eq!(length, (encoded.bytes.len() - 1) / 8 + 1);
    for (i, (name, part)) in batch.iter().enumerate() {
        assert_eq!(name, &format!("validator{}.near", i));
        assert_eq!(part.part_ord, i);
        assert_eq!(part.part.len(), length);
        assert_eq!(part.encoded_length, encoded.bytes.len());
    }
    let data: Vec<u8> = batch.iter().take(8).flat_map(|(_, part)| part.part.clone()).collect();
    assert_eq!(&data[..encoded.bytes.len()], &encoded.bytes[..]);
}

#[test]
fn forward_targets_leave_out_self_and_producer() {
    let part = PartialEncodedStateWitness { key: key(), part_ord: 1, part: vec![1], encoded_length: 1 };
    let request = forward_state_witness_part(
        part.clone(),
        &"validator1.near".to_string(),
        &"validator3.near".to_string(),
        &names(5),
    )
    .unwrap();
    assert_eq!(
        request.target_chunk_validators,
        vec!["validator0.near", "validator2.near", "validator4.near"]
    );
    assert_eq!(request.partial_witness.part, vec![1]);
    let nobody = forward_state_witness_part(
        part,
        &"validator0.near".to_string(),
        &"validator1.near".to_string(),
        &names(2),
    );
    assert!(nobody.is_none());
}

#[test]
fn position_is_the_first_occurrence() {
    let mut validators = names(3);
    validators.push("validator1.near".to_string());
    assert_eq!(position_of_validator(&validators, &"validator1.near".to_string()), Some(1));
    assert_eq!(position_of_validator(&validators, &"nobody.near".to_string()), None);
}

#[test]
fn unacknowledged_send_is_forgotten_after_the_retention() {
    let mut producer = actor();
    let view = snapshot(Some("validator2.near"), Some(names(4)), Some("validator2.near"));
    producer.handle_distribute_state_witness_request(request(), &view, 10).unwrap();
    let hash = request().chunk_header.chunk_hash;
    assert!(producer.awaits_ack(&hash));
    let other = ChunkStateWitnessAck { chunk_hash: vec![9; 32] };
    assert_eq!(producer.handle_chunk_state_witness_ack(other, 1_011), None);
    assert!(!producer.awaits_ack(&hash));
    let late = ChunkStateWitnessAck { chunk_hash: hash };
    assert_eq!(producer.handle_chunk_state_witness_ack(late, 1_012), None);
}

#[test]
fn parts_of_an_old_height_are_forgotten() {
    let done = distributed();
    let mut validator = actor();
    let view = snapshot(Some("validator0.near"), Some(names(4)), Some("validator2.near"));
    validator
        .handle_partial_encoded_state_witness_forward(
            part_for(&done, "validator1.near").clone(),
            PartValidation::Valid,
            &view,
        )
        .unwrap();
    assert_eq!(validator.parts_received(&key()), Some(1));
    let mut newer = part_for(&done, "validator1.near").clone();
    newer.key.height_created = HEIGHT + 6;
    validator
        .handle_partial_encoded_state_witness_forward(newer.clone(), PartValidation::Valid, &view)
        .unwrap();
    assert_eq!(validator.parts_received(&key()), None);
    assert_eq!(validator.parts_received(&newer.key), Some(1));
    let late = validator
        .handle_partial_encoded_state_witness_forward(
            part_for(&done, "validator3.near").clone(),
            PartValidation::Valid,
            &view,
        )
        .unwrap();
    assert!(late.reconstructed.is_none());
    assert_eq!(validator.parts_received(&key()), None);
}

#[test]
fn distributing_the_same_chunk_again_stores_nothing_new() {
    let mut producer = actor();
    let view = snapshot(Some("validator2.near"), Some(names(4)), Some("validator2.near"));
    producer.handle_distribute_state_witness_request(request(), &view, 10).unwrap();
    let again = producer.handle_distribute_state_witness_request(request(), &view, 11).unwrap();
    assert_eq!(again.parts.len(), 3);
    assert_eq!(producer.parts_received(&key()), Some(1));
}

#[test]
fn share_of_data_parts_must_leave_parity() {
    assert!(PartialWitnessActor::with_data_percent(5, 1_000, 100).is_none());
    assert!(PartialWitnessActor::with_data_percent(5, 1_000, 99).is_some());
}

#[test]
fn compression_depends_on_the_witness_alone() {
    let first = compress_witness(&witness()).unwrap();
    let second = compress_witness(&witness()).unwrap();
    assert_eq!(first.bytes, second.bytes);
    assert_eq!(first.raw_size, second.raw_size);
    let other =
        compress_witness(&ChunkStateWitness::new_dummy(HEIGHT + 1, SHARD, CryptoHash::default()))
            .unwrap();
    assert_ne!(first.bytes, other.bytes);
    assert_eq!(first.raw_size, other.raw_size);
}
