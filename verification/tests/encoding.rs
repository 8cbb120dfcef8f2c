use partial_witness::encoding::{WitnessEncoder, WitnessEncoderCache};
use partial_witness::error::DistributionError;

fn sample(len: usize) -> Vec<u8> {
    (0..len).map(|i| (i * 7 + 3) as u8).collect()
}

fn all_of(parts: &[Vec<u8>]) -> Vec<Option<Vec<u8>>> {
    parts.iter().map(|part| Some(part.clone())).collect()
}

/// Every way of keeping exactly `keep` of `total` places.
fn subsets(total: usize, keep: usize) -> Vec<Vec<bool>> {
    let mut out = Vec::new();
    for mask in 0u32..(1u32 << total) {
        if mask.count_ones() as usize == keep {
            out.push((0..total).map(|i| mask & (1 << i) != 0).collect());
        }
    }
    out
}

#[test]
fn data_parts_follow_the_share() {
    assert_eq!(WitnessEncoder::new(10, 80).unwrap().data_parts(), 8);
    assert_eq!(WitnessEncoder::new(4, 50).unwrap().data_parts(), 2);
    assert_eq!(WitnessEncoder::new(4, 80).unwrap().data_parts(), 3);
    assert_eq!(WitnessEncoder::new(5, 80).unwrap().data_parts(), 4);
    assert_eq!(WitnessEncoder::new(256, 80).unwrap().data_parts(), 204);
    assert_eq!(WitnessEncoder::new(10, 80).unwrap().total_parts(), 10);
}

#[test]
fn at_least_one_data_part() {
    assert_eq!(WitnessEncoder::new(1, 80).unwrap().data_parts(), 1);
    assert_eq!(WitnessEncoder::new(3, 0).unwrap().data_parts(), 1);
    assert_eq!(WitnessEncoder::new(2, 10).unwrap().data_parts(), 1);
}

#[test]
fn no_encoder_outside_the_codec_limits() {
    assert!(WitnessEncoder::new(0, 80).is_none());
    assert!(WitnessEncoder::new(257, 80).is_none());
    assert!(WitnessEncoder::new(256, 80).is_some());
    assert!(WitnessEncoder::new(4, 100).is_none());
    assert!(WitnessEncoder::new(4, 99).is_some());
}

#[test]
fn encode_splits_and_pads_the_data() {
    let encoder = WitnessEncoder::new(5, 80).unwrap();
    let bytes: Vec<u8> = vec![1, 2, 3, 4, 5, 6, 7, 8, 9, 10];
    let (parts, encoded_length) = encoder.encode(&bytes);
    assert_eq!(encoded_length, 10);
    assert_eq!(parts.len(), 5);
    assert_eq!(parts[0], vec![1, 2, 3]);
    assert_eq!(parts[1], vec![4, 5, 6]);
    assert_eq!(parts[2], vec![7, 8, 9]);
    assert_eq!(parts[3], vec![10, 0, 0]);
    assert_eq!(parts[4].len(), 3);
}

#[test]
fn encode_computes_parity() {
    let encoder = WitnessEncoder::new(4, 50).unwrap();
    let bytes: Vec<u8> = vec![9, 8, 7, 6, 5, 4];
    let (parts, _) = encoder.encode(&bytes);
    assert_eq!(parts[0], vec![9, 8, 7]);
    assert_eq!(parts[1], vec![6, 5, 4]);
    assert_ne!(parts[2], vec![0, 0, 0]);
    assert_ne!(parts[3], vec![0, 0, 0]);
    assert_ne!(parts[2], parts[3]);
}

#[test]
fn single_part_is_the_whole_witness() {
    let encoder = WitnessEncoder::new(1, 80).unwrap();
    let bytes = sample(17);
    let (parts, encoded_length) = encoder.encode(&bytes);
    assert_eq!(parts, vec![bytes.clone()]);
    assert_eq!(encoded_length, 17);
    assert_eq!(encoder.decode(&all_of(&parts), 17), Ok(bytes));
}

#[test]
fn empty_witness_round_trips() {
    let encoder = WitnessEncoder::new(4, 50).unwrap();
    let (parts, encoded_length) = encoder.encode(&Vec::new());
    assert_eq!(encoded_length, 0);
    assert_eq!(parts.len(), 4);
    assert_eq!(parts[0].len(), 1);
    let kept = vec![None, Some(parts[1].clone()), None, Some(parts[3].clone())];
    assert_eq!(encoder.decode(&kept, 0), Ok(Vec::new()));
    let single = WitnessEncoder::new(1, 80).unwrap();
    let (parts, encoded_length) = single.encode(&Vec::new());
    assert_eq!(single.decode(&all_of(&parts), encoded_length), Ok(Vec::new()));
}

#[test]
fn decode_round_trips_from_every_threshold_subset() {
    for (total, percent, len) in [(4usize, 50u8, 10usize), (5, 80, 23), (6, 50, 1), (3, 40, 64)] {
        let encoder = WitnessEncoder::new(total, percent).unwrap();
        let bytes = sample(len);
        let (parts, encoded_length) = encoder.encode(&bytes);
        for keep in subsets(total, encoder.data_parts()) {
            let kept: Vec<Option<Vec<u8>>> = parts
                .iter()
                .zip(keep.iter())
                .map(|(part, keep)| if *keep { Some(part.clone()) } else { None })
                .collect();
            assert_eq!(encoder.decode(&kept, encoded_length), Ok(bytes.clone()));
        }
    }
}

#[test]
fn decode_round_trips_from_all_parts() {
    let encoder = WitnessEncoder::new(7, 80).unwrap();
    let bytes = sample(100);
    let (parts, encoded_length) = encoder.encode(&bytes);
    assert_eq!(encoder.decode(&all_of(&parts), encoded_length), Ok(bytes));
}

#[test]
fn decode_round_trips_from_parity_and_one_data_part() {
    let encoder = WitnessEncoder::new(4, 50).unwrap();
    let bytes = sample(9);
    let (parts, encoded_length) = encoder.encode(&bytes);
    let kept = vec![None, None, Some(parts[2].clone()), Some(parts[3].clone())];
    assert_eq!(encoder.decode(&kept, encoded_length), Ok(bytes));
}

#[test]
fn decode_fails_below_the_threshold() {
    let encoder = WitnessEncoder::new(4, 50).unwrap();
    let (parts, encoded_length) = encoder.encode(&sample(10));
    let kept = vec![None, Some(parts[1].clone()), None, None];
    assert_eq!(encoder.decode(&kept, encoded_length), Err(DistributionError::CodecError));
    assert_eq!(
        encoder.decode(&vec![None, None, None, None], encoded_length),
        Err(DistributionError::CodecError)
    );
}

#[test]
fn decode_fails_on_wrong_shard_size() {
    let encoder = WitnessEncoder::new(4, 50).unwrap();
    let (parts, encoded_length) = encoder.encode(&sample(10));
    let mut short = parts[1].clone();
    short.pop();
    let kept = vec![Some(parts[0].clone()), Some(short), None, None];
    assert_eq!(encoder.decode(&kept, encoded_length), Err(DistributionError::CodecError));
    assert_eq!(
        encoder.decode(&all_of(&parts), encoded_length + 5),
        Err(DistributionError::CodecError)
    );
}

#[test]
fn decode_fails_on_wrong_number_of_places() {
    let encoder = WitnessEncoder::new(4, 50).unwrap();
    let (parts, encoded_length) = encoder.encode(&sample(10));
    let kept = vec![Some(parts[0].clone()), Some(parts[1].clone()), None];
    assert_eq!(encoder.decode(&kept, encoded_length), Err(DistributionError::CodecError));
}

#[test]
fn cache_hands_out_an_encoder_per_count() {
    let mut cache = WitnessEncoderCache::new();
    assert_eq!(cache.data_percent(), 80);
    assert_eq!(cache.entry(10).unwrap().data_parts(), 8);
    assert_eq!(cache.entry(5).unwrap().total_parts(), 5);
    assert_eq!(cache.entry(10).unwrap().total_parts(), 10);
    assert!(cache.entry(0).is_none());
    assert!(cache.entry(300).is_none());
}

#[test]
fn cache_takes_a_share_that_leaves_parity() {
    assert!(WitnessEncoderCache::with_data_percent(100).is_none());
    let mut cache = WitnessEncoderCache::with_data_percent(50).unwrap();
    assert_eq!(cache.entry(4).unwrap().data_parts(), 2);
}
