//! Who gets which part: pairing the parts with their owners, and choosing the validators
//! that a part is forwarded to.

use crate::bytes::copy_bytes;
use crate::encoding::{encoded_parts, encodes, WitnessEncoder};
use crate::reed_solomon::MAX_SHARDS;
use crate::types::{
    batch_view, request_view, ChunkProductionKey, ChunkProductionKeyView, ForwardRequest,
    ForwardRequestView, PartialEncodedStateWitness, PartialEncodedStateWitnessView,
};
use itertools::Itertools;
use vstd::prelude::*;

verus! {

/// The rule by which a part is forwarded to a validator: to every validator but this node
/// and the producer of the chunk.
pub open spec fn targeted(local: Seq<char>, chunk_producer: Seq<char>) -> spec_fn(
    Seq<char>,
) -> bool {
    |validator: Seq<char>| validator != local && validator != chunk_producer
}

/// The validators that a part is forwarded to, in the order of the assignment.
pub open spec fn forward_targets(
    chunk_validators: Seq<Seq<char>>,
    local: Seq<char>,
    chunk_producer: Seq<char>,
) -> Seq<Seq<char>> {
    chunk_validators.filter(targeted(local, chunk_producer))
}

/// The request to forward `part`; none where nobody is left to forward to.
pub open spec fn forward_request(
    chunk_validators: Seq<Seq<char>>,
    local: Seq<char>,
    chunk_producer: Seq<char>,
    part: PartialEncodedStateWitnessView,
) -> Option<ForwardRequestView> {
    if forward_targets(chunk_validators, local, chunk_producer).len() == 0 {
        None
    } else {
        Some(
            ForwardRequestView {
                target_chunk_validators: forward_targets(chunk_validators, local, chunk_producer),
                partial_witness: part,
            },
        )
    }
}

/// The parts of the encoded witness `bytes`, each with the validator that owns it: the
/// part with ordinal `i` belongs to the validator at place `i` of the assignment.
pub open spec fn generated_parts(
    key: ChunkProductionKeyView,
    chunk_validators: Seq<Seq<char>>,
    data_parts: nat,
    bytes: Seq<u8>,
) -> Seq<(Seq<char>, PartialEncodedStateWitnessView)> {
    Seq::new(
        chunk_validators.len(),
        |i: int|
            (
                chunk_validators[i],
                PartialEncodedStateWitnessView {
                    key,
                    part_ord: i as usize,
                    part: encoded_parts(chunk_validators.len(), data_parts, bytes)[i],
                    encoded_length: bytes.len() as usize,
                },
            ),
    )
}

/// No part is forwarded to this node or to the producer of the chunk, and every
/// validator that a part is forwarded to is one of the assignment.
pub proof fn forward_targets_exclude_self_and_producer(
    chunk_validators: Seq<Seq<char>>,
    local: Seq<char>,
    chunk_producer: Seq<char>,
)
    ensures
        !forward_targets(chunk_validators, local, chunk_producer).contains(local),
        !forward_targets(chunk_validators, local, chunk_producer).contains(chunk_producer),
        forall|validator: Seq<char>|
            forward_targets(chunk_validators, local, chunk_producer).contains(validator)
                ==> chunk_validators.contains(validator),
        forall|validator: Seq<char>|
            chunk_validators.contains(validator) && validator != local && validator
                != chunk_producer ==> forward_targets(
                chunk_validators,
                local,
                chunk_producer,
            ).contains(validator),
{
    let rule = targeted(local, chunk_producer);
    let targets = forward_targets(chunk_validators, local, chunk_producer);
    lemma_filter_members(chunk_validators, rule);
    assert forall|validator: Seq<char>| targets.contains(validator) implies rule(validator) by {
        let i = choose|i: int| 0 <= i < targets.len() && targets[i] == validator;
        assert(targets[i] == validator);
    }
}

/// What is kept by a filter is what satisfies the rule among what was there.
proof fn lemma_filter_members(items: Seq<Seq<char>>, rule: spec_fn(Seq<char>) -> bool)
    ensures
        forall|i: int| 0 <= i < items.filter(rule).len() ==> rule(#[trigger] items.filter(rule)[i]),
        forall|i: int|
            0 <= i < items.filter(rule).len() ==> items.contains(#[trigger] items.filter(rule)[i]),
        forall|item: Seq<char>|
            items.contains(item) && rule(item) ==> items.filter(rule).contains(item),
    decreases items.len(),
{
    reveal(Seq::filter);
    let kept = items.filter(rule);
    if items.len() > 0 {
        let front = items.drop_last();
        lemma_filter_members(front, rule);
        assert forall|i: int| 0 <= i < kept.len() implies rule(#[trigger] kept[i])
            && items.contains(kept[i]) by {
            if i < front.filter(rule).len() {
                assert(kept[i] == front.filter(rule)[i]);
                let j = choose|j: int| 0 <= j < front.len() && front[j] == front.filter(rule)[i];
                assert(items[j] == kept[i]);
            } else {
                assert(kept[i] == items.last());
                assert(items[items.len() - 1] == kept[i]);
            }
        }
        assert forall|item: Seq<char>| items.contains(item) && rule(item) implies kept.contains(
            item,
        ) by {
            let j = choose|j: int| 0 <= j < items.len() && items[j] == item;
            if j < front.len() {
                assert(front[j] == item);
                assert(front.filter(rule).contains(item));
                let k = choose|k: int|
                    0 <= k < front.filter(rule).len() && front.filter(rule)[k] == item;
                assert(kept[k] == item);
            } else {
                assert(kept[kept.len() - 1] == item);
            }
        }
    }
}

/// `Itertools::zip_eq`, collected with `Itertools::collect_vec`: pairs the items of two
/// lists of equal length, place by place.
#[verifier::external_body]
fn zip_eq_collect(chunk_validators: Vec<String>, parts: Vec<Vec<u8>>) -> (pairs: Vec<
    (String, Vec<u8>),
>)
    requires
        chunk_validators.len() == parts.len(),
    ensures
        pairs.len() == chunk_validators.len(),
        forall|i: int|
            0 <= i < pairs.len() ==> (#[trigger] pairs[i]).0 == chunk_validators[i] && pairs[i].1
                == parts[i],
{
    chunk_validators.into_iter().zip_eq(parts).collect_vec()
}

/// A copy of the list of validators.
fn copy_validators(chunk_validators: &Vec<String>) -> (copy: Vec<String>)
    ensures
        copy.len() == chunk_validators.len(),
        forall|i: int| 0 <= i < copy.len() ==> (#[trigger] copy[i])@ == chunk_validators[i]@,
{
    let mut copy: Vec<String> = Vec::new();
    let mut i: usize = 0;
    while i < chunk_validators.len()
        invariant
            i <= chunk_validators.len(),
            copy.len() == i,
            forall|p: int| 0 <= p < i ==> (#[trigger] copy[p])@ == chunk_validators[p]@,
        decreases chunk_validators.len() - i,
    {
        copy.push(chunk_validators[i].clone());
        i += 1;
    }
    copy
}

/// Place of the first occurrence of `who` among the validators.
pub fn position_of_validator(chunk_validators: &Vec<String>, who: &String) -> (at: Option<usize>)
    ensures
        match at {
            Some(i) => chunk_validators.deep_view().index_of_first(who@) == Some(i as int),
            None => chunk_validators.deep_view().index_of_first(who@) is None,
        },
{
    let ghost names = chunk_validators.deep_view();
    proof {
        names.index_of_first_ensures(who@);
    }
    let mut i: usize = 0;
    while i < chunk_validators.len()
        invariant
            i <= chunk_validators.len(),
            names == chunk_validators.deep_view(),
            forall|p: int| 0 <= p < i ==> (#[trigger] names[p]) != who@,
        decreases chunk_validators.len() - i,
    {
        if chunk_validators[i] == *who {
            proof {
                names.index_of_first_ensures(who@);
                assert(names[i as int] == who@);
                assert(names.contains(who@));
                let first = names.index_of_first(who@)->0;
                if first < i {
                    assert(names[first] != who@);
                } else if i < first {
                    assert(names[i as int] != who@);
                }
            }
            return Some(i);
        }
        i += 1;
    }
    proof {
        names.index_of_first_ensures(who@);
        if names.contains(who@) {
            let at = choose|at: int| 0 <= at < names.len() && names[at] == who@;
            assert(names[at] != who@);
        }
    }
    None
}

/// The request to forward the part to all validators of the chunk but this node and
/// the producer of the chunk; none where nobody is left to forward to.
pub fn forward_state_witness_part(
    partial_witness: PartialEncodedStateWitness,
    local: &String,
    chunk_producer: &String,
    chunk_validators: &Vec<String>,
) -> (r: Option<ForwardRequest>)
    ensures
        request_view(r) == forward_request(
            chunk_validators.deep_view(),
            local@,
            chunk_producer@,
            partial_witness@,
        ),
        r is Some ==> !r->0.target_chunk_validators.deep_view().contains(local@)
            && !r->0.target_chunk_validators.deep_view().contains(chunk_producer@),
{
    let ghost names = chunk_validators.deep_view();
    let ghost rule = targeted(local@, chunk_producer@);
    let mut targets: Vec<String> = Vec::new();
    let mut i: usize = 0;
    proof {
        reveal(Seq::filter);
        assert(names.subrange(0, 0) =~= Seq::empty());
        assert(targets.deep_view() =~= names.subrange(0, 0).filter(rule));
    }
    while i < chunk_validators.len()
        invariant
            i <= chunk_validators.len(),
            names == chunk_validators.deep_view(),
            rule == targeted(local@, chunk_producer@),
            targets.deep_view() == names.subrange(0, i as int).filter(rule),
        decreases chunk_validators.len() - i,
    {
        let ghost kept = targets.deep_view();
        proof {
            reveal(Seq::filter);
            assert(names.subrange(0, i + 1).drop_last() =~= names.subrange(0, i as int));
            assert(names.subrange(0, i + 1).last() == chunk_validators[i as int]@);
        }
        if chunk_validators[i] != *local && chunk_validators[i] != *chunk_producer {
            targets.push(chunk_validators[i].clone());
            assert(targets.deep_view() =~= kept.push(chunk_validators[i as int]@));
        }
        i += 1;
    }
    proof {
        assert(names.subrange(0, chunk_validators.len() as int) =~= names);
        forward_targets_exclude_self_and_producer(names, local@, chunk_producer@);
    }
    if targets.len() == 0 {
        None
    } else {
        Some(ForwardRequest { target_chunk_validators: targets, partial_witness })
    }
}

/// Encodes the witness and pairs each part with the validator that owns it.
pub(crate) fn encode_for_validators(
    encoder: &WitnessEncoder,
    key: &ChunkProductionKey,
    witness_bytes: &Vec<u8>,
    chunk_validators: &Vec<String>,
) -> (batch: Vec<(String, PartialEncodedStateWitness)>)
    requires
        encoder.spec_total_parts() == chunk_validators.len(),
        witness_bytes.len() + MAX_SHARDS <= usize::MAX,
    ensures
        batch_view(batch@) == generated_parts(
            key@,
            chunk_validators.deep_view(),
            encoder.spec_data_parts() as nat,
            witness_bytes@,
        ),
        encodes(
            chunk_validators.len() as nat,
            encoder.spec_data_parts() as nat,
            witness_bytes@,
            encoded_parts(
                chunk_validators.len() as nat,
                encoder.spec_data_parts() as nat,
                witness_bytes@,
            ),
        ),
{
    let (parts, encoded_length) = encoder.encode(witness_bytes);
    let ghost encoded = parts.deep_view();
    let pairs = zip_eq_collect(copy_validators(chunk_validators), parts);
    let mut batch: Vec<(String, PartialEncodedStateWitness)> = Vec::new();
    let mut i: usize = 0;
    while i < pairs.len()
        invariant
            i <= pairs.len(),
            batch.len() == i,
            pairs.len() == chunk_validators.len(),
            encoded.len() == pairs.len(),
            encoded_length == witness_bytes.len(),
            forall|p: int|
                0 <= p < pairs.len() ==> (#[trigger] pairs[p]).0@ == chunk_validators[p]@
                    && pairs[p].1@ == encoded[p],
            forall|p: int|
                0 <= p < i ==> (#[trigger] batch[p]).0@ == chunk_validators[p]@ && batch[p].1@
                    == (PartialEncodedStateWitnessView {
                    key: key@,
                    part_ord: p as usize,
                    part: encoded[p],
                    encoded_length,
                }),
        decreases pairs.len() - i,
    {
        let partial_witness = PartialEncodedStateWitness {
            key: key.clone(),
            part_ord: i,
            part: copy_bytes(&pairs[i].1),
            encoded_length,
        };
        batch.push((pairs[i].0.clone(), partial_witness));
        i += 1;
    }
    assert(batch_view(batch@) =~= generated_parts(
        key@,
        chunk_validators.deep_view(),
        encoder.spec_data_parts() as nat,
        witness_bytes@,
    ));
    batch
}

} // verus!
