//! The values that the protocol passes around: who produced which chunk, and the parts of
//! its witness.

use crate::bytes::{bytes_equal, copy_bytes};
use vstd::prelude::*;

verus! {

/// What identifies the production of one chunk, and so one witness: only one chunk can be
/// produced for a shard at a height of an epoch.
#[derive(Debug)]
pub struct ChunkProductionKey {
    /// The shard that the chunk belongs to.
    pub shard_id: u64,
    /// Identifier of the epoch, as bytes.
    pub epoch_id: Vec<u8>,
    /// The height of the block at which the chunk was created.
    pub height_created: u64,
}

/// A production key as a mathematical value.
pub ghost struct ChunkProductionKeyView {
    pub shard_id: u64,
    pub epoch_id: Seq<u8>,
    pub height_created: u64,
}

impl View for ChunkProductionKey {
    type V = ChunkProductionKeyView;

    open spec fn view(&self) -> ChunkProductionKeyView {
        ChunkProductionKeyView {
            shard_id: self.shard_id,
            epoch_id: self.epoch_id@,
            height_created: self.height_created,
        }
    }
}

impl ChunkProductionKey {
    /// Whether both keys name the same production.
    pub fn same_as(&self, other: &ChunkProductionKey) -> (same: bool)
        ensures
            same == (self@ == other@),
    {
        self.shard_id == other.shard_id && self.height_created == other.height_created
            && bytes_equal(&self.epoch_id, &other.epoch_id)
    }
}

impl Clone for ChunkProductionKey {
    fn clone(&self) -> (copy: ChunkProductionKey)
        ensures
            copy@ == self@,
    {
        ChunkProductionKey {
            shard_id: self.shard_id,
            epoch_id: copy_bytes(&self.epoch_id),
            height_created: self.height_created,
        }
    }
}

/// One erasure-coded part of an encoded witness, with what a receiver needs to place it:
/// the production it belongs to, its ordinal among the parts, and the length of the
/// encoded witness.
#[derive(Debug)]
pub struct PartialEncodedStateWitness {
    /// The production that the witness belongs to.
    pub key: ChunkProductionKey,
    /// Place of the part among the parts, counted from 0; the validator at this place of
    /// the assignment owns the part.
    pub part_ord: usize,
    /// The bytes of the part.
    pub part: Vec<u8>,
    /// Length in bytes of the encoded witness that the parts were made from.
    pub encoded_length: usize,
}

/// A part as a mathematical value.
pub ghost struct PartialEncodedStateWitnessView {
    pub key: ChunkProductionKeyView,
    pub part_ord: usize,
    pub part: Seq<u8>,
    pub encoded_length: usize,
}

impl View for PartialEncodedStateWitness {
    type V = PartialEncodedStateWitnessView;

    open spec fn view(&self) -> PartialEncodedStateWitnessView {
        PartialEncodedStateWitnessView {
            key: self.key@,
            part_ord: self.part_ord,
            part: self.part@,
            encoded_length: self.encoded_length,
        }
    }
}

impl Clone for PartialEncodedStateWitness {
    fn clone(&self) -> (copy: PartialEncodedStateWitness)
        ensures
            copy@ == self@,
    {
        PartialEncodedStateWitness {
            key: self.key.clone(),
            part_ord: self.part_ord,
            part: copy_bytes(&self.part),
            encoded_length: self.encoded_length,
        }
    }
}

/// What the protocol reads of a chunk's header.
#[derive(Debug)]
pub struct ShardChunkHeader {
    /// The shard that the chunk belongs to.
    pub shard_id: u64,
    /// The height of the block at which the chunk was created.
    pub height_created: u64,
    /// Hash of the chunk, as bytes.
    pub chunk_hash: Vec<u8>,
}

/// What the node knows when a message comes in: who it is, and what the assignment of
/// validators says for the production that the message is about. Each is read anew for
/// every message and used for that message alone.
#[derive(Debug)]
pub struct ValidatorSnapshot {
    /// The validator identity of this node; none while it is no validator.
    pub my_signer: Option<String>,
    /// The validators assigned to the chunk, in the order that gives each its part; none
    /// where the assignment is not known.
    pub chunk_validators: Option<Vec<String>>,
    /// The producer of the chunk; none where it is not known.
    pub chunk_producer: Option<String>,
}

/// A snapshot as a mathematical value.
pub ghost struct ValidatorSnapshotView {
    pub my_signer: Option<Seq<char>>,
    pub chunk_validators: Option<Seq<Seq<char>>>,
    pub chunk_producer: Option<Seq<char>>,
}

impl View for ValidatorSnapshot {
    type V = ValidatorSnapshotView;

    open spec fn view(&self) -> ValidatorSnapshotView {
        ValidatorSnapshotView {
            my_signer: self.my_signer.deep_view(),
            chunk_validators: self.chunk_validators.deep_view(),
            chunk_producer: self.chunk_producer.deep_view(),
        }
    }
}

/// What the validator of parts said of a part.
#[derive(Clone, Copy, Debug, PartialEq, Eq, Structural)]
pub enum PartValidation {
    /// The part is authentic and of use to this node.
    Valid,
    /// The part is well formed but not to be taken in.
    Rejected,
    /// The part is malformed.
    Malformed,
}

/// A request to forward a part to other validators.
#[derive(Debug)]
pub struct ForwardRequest {
    /// The validators to forward to.
    pub target_chunk_validators: Vec<String>,
    /// The part, as it was received.
    pub partial_witness: PartialEncodedStateWitness,
}

/// A forward request as a mathematical value.
pub ghost struct ForwardRequestView {
    pub target_chunk_validators: Seq<Seq<char>>,
    pub partial_witness: PartialEncodedStateWitnessView,
}

impl View for ForwardRequest {
    type V = ForwardRequestView;

    open spec fn view(&self) -> ForwardRequestView {
        ForwardRequestView {
            target_chunk_validators: self.target_chunk_validators.deep_view(),
            partial_witness: self.partial_witness@,
        }
    }
}

/// The parts of a batch with the validators that they go to, as mathematical values.
pub open spec fn batch_view(batch: Seq<(String, PartialEncodedStateWitness)>) -> Seq<
    (Seq<char>, PartialEncodedStateWitnessView),
> {
    Seq::new(batch.len(), |i: int| (batch[i].0@, batch[i].1@))
}

/// A forward request, where there is one, as a mathematical value.
pub open spec fn request_view(request: Option<ForwardRequest>) -> Option<ForwardRequestView> {
    match request {
        Some(request) => Some(request@),
        None => None,
    }
}

} // verus!
