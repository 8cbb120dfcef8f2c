//! The component that distributes witnesses: it answers each message with what is to be
//! sent, forwarded and handed on, and keeps the two trackers and the encoders.
//!
//! The actor does no input or output itself. Its caller reads the node's identity and the
//! validator assignment before each message, and afterwards sends what the actor
//! returned: parts to their owners, a part to its forward targets, a rebuilt witness to
//! validation, a round-trip time to telemetry.

use crate::encoding::{
    encoded_parts, encodes, num_data_parts, WitnessEncoderCache, DEFAULT_DATA_PERCENT,
    MAX_DATA_PERCENT,
};
use crate::error::DistributionError;
use crate::partial_witness_tracker::{
    completes, store_step, well_formed, PartialEncodedStateWitnessTracker, ReconstructionState,
    StoreOutcome, StoreResult, TrackerState,
};
use crate::reed_solomon::{count_present, MAX_SHARDS};
use crate::routing::{
    encode_for_validators, forward_request, forward_state_witness_part, generated_parts,
    position_of_validator,
};
use crate::state_witness_tracker::{
    after_ack, after_send, ChunkStateWitnessAck, ChunkStateWitnessTracker, LatencyObservation,
    SendRecord,
};
use crate::types::{
    batch_view, request_view, ChunkProductionKey, ChunkProductionKeyView, ForwardRequest,
    ForwardRequestView, PartValidation, PartialEncodedStateWitness,
    PartialEncodedStateWitnessView, ShardChunkHeader, ValidatorSnapshot, ValidatorSnapshotView,
};
use crate::witness::{
    compress_witness, decompress_witness, decompressed, packed, EncodedChunkStateWitness,
    ReconstructedWitness,
};
use vstd::prelude::*;

verus! {

/// A request to distribute the witness of a chunk to the validators assigned to it.
pub struct DistributeStateWitnessRequest {
    /// Identifier of the epoch of the chunk, as bytes.
    pub epoch_id: Vec<u8>,
    /// The header of the chunk.
    pub chunk_header: ShardChunkHeader,
    /// The witness.
    pub state_witness: near_primitives::stateless_validation::ChunkStateWitness,
}

/// The production that a request is about.
pub open spec fn request_key(request: DistributeStateWitnessRequest) -> ChunkProductionKeyView {
    ChunkProductionKeyView {
        shard_id: request.chunk_header.shard_id,
        epoch_id: request.epoch_id@,
        height_created: request.chunk_header.height_created,
    }
}

/// What is to be done after a witness was distributed.
pub struct Distribution {
    /// The parts to send, each to the validator that owns it. This node's own part is not
    /// among them.
    pub parts: Vec<(String, PartialEncodedStateWitness)>,
    /// Where this node is among the validators: the request to forward its own part.
    pub forward: Option<ForwardRequest>,
    /// Where this node's own part was enough to rebuild the witness: the witness, to be
    /// handed to validation.
    pub reconstructed: Option<ReconstructedWitness>,
    /// What went wrong when this node stored its own part, if anything did. The parts
    /// and the forward go out all the same.
    pub failure: Option<DistributionError>,
    /// Size in bytes of the encoded witness.
    pub witness_size: usize,
    /// Size in bytes of the serialized witness before compression.
    pub raw_witness_size: usize,
}

/// A distribution as a mathematical value.
pub ghost struct DistributionView {
    pub parts: Seq<(Seq<char>, PartialEncodedStateWitnessView)>,
    pub forward: Option<ForwardRequestView>,
    pub reconstructed: Option<(near_primitives::stateless_validation::ChunkStateWitness, usize)>,
    pub failure: Option<DistributionError>,
    pub witness_size: usize,
    pub raw_witness_size: usize,
}

/// What is to be done after a part came in.
pub struct Reception {
    /// The request to forward the part to the other validators, where there is any.
    pub forward: Option<ForwardRequest>,
    /// Where the part completed a witness: the witness, to be handed to validation.
    pub reconstructed: Option<ReconstructedWitness>,
    /// What kept the part from being forwarded, where a witness is handed on all the
    /// same.
    pub failure: Option<DistributionError>,
}

/// A reception as a mathematical value.
pub ghost struct ReceptionView {
    pub forward: Option<ForwardRequestView>,
    pub reconstructed: Option<(near_primitives::stateless_validation::ChunkStateWitness, usize)>,
    pub failure: Option<DistributionError>,
}

/// A rebuilt witness, where there is one, as a pair.
pub open spec fn witness_view(found: Option<ReconstructedWitness>) -> Option<
    (near_primitives::stateless_validation::ChunkStateWitness, usize),
> {
    match found {
        Some(found) => Some((found.witness, found.raw_size)),
        None => None,
    }
}

impl View for Distribution {
    type V = DistributionView;

    open spec fn view(&self) -> DistributionView {
        DistributionView {
            parts: batch_view(self.parts@),
            forward: request_view(self.forward),
            reconstructed: witness_view(self.reconstructed),
            failure: self.failure,
            witness_size: self.witness_size,
            raw_witness_size: self.raw_witness_size,
        }
    }
}

impl View for Reception {
    type V = ReceptionView;

    open spec fn view(&self) -> ReceptionView {
        ReceptionView {
            forward: request_view(self.forward),
            reconstructed: witness_view(self.reconstructed),
            failure: self.failure,
        }
    }
}

/// Everything that the actor holds.
pub ghost struct ActorState {
    /// The witnesses that are being collected.
    pub witnesses: TrackerState,
    /// The witnesses that were sent and not yet acknowledged.
    pub sends: Map<Seq<u8>, SendRecord>,
    /// Time for which a send is remembered.
    pub send_retention: u64,
    /// Share of the parts, in hundredths, that carry data.
    pub data_percent: u8,
    /// The numbers of validators for which an encoder is kept.
    pub encoders: Set<nat>,
}

/// The actor with other witnesses collected.
pub open spec fn with_witnesses(state: ActorState, witnesses: TrackerState) -> ActorState {
    ActorState {
        witnesses,
        sends: state.sends,
        send_retention: state.send_retention,
        data_percent: state.data_percent,
        encoders: state.encoders,
    }
}

/// The actor with other sends remembered.
pub open spec fn with_sends(state: ActorState, sends: Map<Seq<u8>, SendRecord>) -> ActorState {
    ActorState {
        witnesses: state.witnesses,
        sends,
        send_retention: state.send_retention,
        data_percent: state.data_percent,
        encoders: state.encoders,
    }
}

/// The actor with an encoder kept for `total_parts` validators.
pub open spec fn with_encoder(state: ActorState, total_parts: nat) -> ActorState {
    ActorState {
        witnesses: state.witnesses,
        sends: state.sends,
        send_retention: state.send_retention,
        data_percent: state.data_percent,
        encoders: state.encoders.insert(total_parts),
    }
}

/// Whether a witness of `encoded_length` bytes can be encoded for `total_parts`
/// validators: a codec exists for 1 to 256 parts, and the padded witness must fit in
/// memory.
pub open spec fn encodable_for(total_parts: nat, encoded_length: nat) -> bool {
    1 <= total_parts <= MAX_SHARDS && encoded_length + MAX_SHARDS <= usize::MAX
}

/// What storing a part hands on to validation: the witness where one was rebuilt and
/// unpacks; an error where the parts do not fit together or the rebuilt bytes do not
/// unpack.
pub open spec fn delivery(result: StoreResult) -> Result<
    Option<(near_primitives::stateless_validation::ChunkStateWitness, usize)>,
    DistributionError,
> {
    match result {
        StoreResult::Ignored => Ok(None),
        StoreResult::Stored => Ok(None),
        StoreResult::Reconstructed(bytes) => match decompressed(bytes) {
            Ok(found) => Ok(Some(found)),
            Err(e) => Err(e),
        },
        StoreResult::Failed => Err(DistributionError::CodecError),
    }
}

/// The witness that storing a part hands on, if any.
pub open spec fn handed_on(result: StoreResult) -> Option<
    (near_primitives::stateless_validation::ChunkStateWitness, usize),
> {
    match delivery(result) {
        Ok(found) => found,
        Err(_) => None,
    }
}

/// What went wrong in storing a part, if anything did.
pub open spec fn store_failure(result: StoreResult) -> Option<DistributionError> {
    match delivery(result) {
        Ok(_) => None,
        Err(e) => Some(e),
    }
}

/// Number of parts that suffice to rebuild a witness that is encoded for `total_parts`
/// validators.
pub open spec fn threshold(state: ActorState, total_parts: nat) -> usize {
    num_data_parts(total_parts, state.data_percent as nat) as usize
}

/// The actor and its answer after the encoded witness `bytes` of the production `key`
/// was distributed at `now`.
///
/// Nothing changes and the answer is an error without an identity, without the
/// assignment, where the witness cannot be encoded for the number of validators, or where
/// this node is among the validators and the producer of the chunk is not known.
/// Otherwise each validator's part is generated. Where this node is not among the
/// validators, all parts are sent. Where it is, its own part leaves the batch, with the
/// last part taking its place, is stored here and is forwarded to the others; the parts
/// and the forward go out whatever storing comes to. The send is recorded with the number
/// of parts that are sent.
pub open spec fn send_step(
    state: ActorState,
    key: ChunkProductionKeyView,
    chunk_hash: Seq<u8>,
    bytes: Seq<u8>,
    raw_size: usize,
    snapshot: ValidatorSnapshotView,
    now: u64,
) -> (ActorState, Result<DistributionView, DistributionError>) {
    if snapshot.my_signer is None {
        (state, Err(DistributionError::NotAValidator))
    } else if snapshot.chunk_validators is None {
        (state, Err(DistributionError::AssignmentLookupFailed))
    } else if !encodable_for(snapshot.chunk_validators->0.len(), bytes.len()) {
        (state, Err(DistributionError::CodecError))
    } else if snapshot.chunk_validators->0.index_of_first(snapshot.my_signer->0) is Some
        && snapshot.chunk_producer is None {
        (state, Err(DistributionError::AssignmentLookupFailed))
    } else {
        let local = snapshot.my_signer->0;
        let validators = snapshot.chunk_validators->0;
        let ready = with_encoder(state, validators.len());
        let all = generated_parts(
            key,
            validators,
            num_data_parts(validators.len(), state.data_percent as nat),
            bytes,
        );
        match validators.index_of_first(local) {
            None => (
                with_sends(
                    ready,
                    after_send(
                        state.sends,
                        chunk_hash,
                        bytes.len() as usize,
                        all.len() as usize,
                        now,
                        state.send_retention,
                    ),
                ),
                Ok(
                    DistributionView {
                        parts: all,
                        forward: None,
                        reconstructed: None,
                        failure: None,
                        witness_size: bytes.len() as usize,
                        raw_witness_size: raw_size,
                    },
                ),
            ),
            Some(own) => {
                let others = all.update(own, all.last()).drop_last();
                let stored = store_step(
                    state.witnesses,
                    all[own].1,
                    validators.len() as usize,
                    threshold(state, validators.len()),
                );
                (
                    with_sends(
                        with_witnesses(ready, stored.0),
                        after_send(
                            state.sends,
                            chunk_hash,
                            bytes.len() as usize,
                            others.len() as usize,
                            now,
                            state.send_retention,
                        ),
                    ),
                    Ok(
                        DistributionView {
                            parts: others,
                            forward: forward_request(
                                validators,
                                local,
                                snapshot.chunk_producer->0,
                                all[own].1,
                            ),
                            reconstructed: handed_on(stored.1),
                            failure: store_failure(stored.1),
                            witness_size: bytes.len() as usize,
                            raw_witness_size: raw_size,
                        },
                    ),
                )
            },
        }
    }
}

/// The actor and its answer to a request to distribute a witness, given what compressing
/// the witness comes to: `SerializationError`, with nothing changed, where the witness
/// cannot be compressed; otherwise what [`send_step`] gives for the compressed bytes.
/// Without an identity the witness is not looked at.
pub open spec fn distribute_step(
    state: ActorState,
    key: ChunkProductionKeyView,
    chunk_hash: Seq<u8>,
    compressed: Option<(Seq<u8>, usize)>,
    snapshot: ValidatorSnapshotView,
    now: u64,
) -> (ActorState, Result<DistributionView, DistributionError>) {
    if snapshot.my_signer is None {
        (state, Err(DistributionError::NotAValidator))
    } else {
        match compressed {
            None => (state, Err(DistributionError::SerializationError)),
            Some(found) => send_step(state, key, chunk_hash, found.0, found.1, snapshot, now),
        }
    }
}

/// Whether a part that came in reaches the tracker: the node has an identity, the part
/// is valid, the assignment is known and a codec exists for the number of validators.
pub open spec fn reaches_tracker(
    validation: PartValidation,
    snapshot: ValidatorSnapshotView,
) -> bool {
    &&& snapshot.my_signer is Some
    &&& validation == PartValidation::Valid
    &&& snapshot.chunk_validators is Some
    &&& 1 <= snapshot.chunk_validators->0.len() <= MAX_SHARDS
}

/// The actor and its answer after a part came in.
///
/// Nothing happens without an identity, for a part that the validator of parts did not
/// accept, without the assignment, or where no codec exists for the number of validators.
/// Otherwise the part is stored. Where storing fails, that is the answer. Where
/// `forwarding`, the part is then forwarded to the other validators; for that the
/// producer of the chunk must be known. Where it is not, the answer is
/// `AssignmentLookupFailed`, unless the part completed a witness: the witness is handed
/// on, and the failure goes with it.
pub open spec fn receive_step(
    state: ActorState,
    part: PartialEncodedStateWitnessView,
    validation: PartValidation,
    snapshot: ValidatorSnapshotView,
    forwarding: bool,
) -> (ActorState, Result<ReceptionView, DistributionError>) {
    if snapshot.my_signer is None {
        (state, Err(DistributionError::NotAValidator))
    } else if validation == PartValidation::Malformed {
        (state, Err(DistributionError::ValidationRejected))
    } else if validation == PartValidation::Rejected {
        (state, Ok(ReceptionView { forward: None, reconstructed: None, failure: None }))
    } else if snapshot.chunk_validators is None {
        (state, Err(DistributionError::AssignmentLookupFailed))
    } else if !(1 <= snapshot.chunk_validators->0.len() <= MAX_SHARDS) {
        (state, Err(DistributionError::CodecError))
    } else {
        let validators = snapshot.chunk_validators->0;
        let stored = store_step(
            state.witnesses,
            part,
            validators.len() as usize,
            threshold(state, validators.len()),
        );
        let after = with_witnesses(with_encoder(state, validators.len()), stored.0);
        match delivery(stored.1) {
            Err(e) => (after, Err(e)),
            Ok(reconstructed) => if forwarding && snapshot.chunk_producer is None {
                if reconstructed is None {
                    (after, Err(DistributionError::AssignmentLookupFailed))
                } else {
                    (
                        after,
                        Ok(
                            ReceptionView {
                                forward: None,
                                reconstructed,
                                failure: Some(DistributionError::AssignmentLookupFailed),
                            },
                        ),
                    )
                }
            } else {
                (
                    after,
                    Ok(
                        ReceptionView {
                            forward: if forwarding {
                                forward_request(
                                    validators,
                                    snapshot.my_signer->0,
                                    snapshot.chunk_producer->0,
                                    part,
                                )
                            } else {
                                None
                            },
                            reconstructed,
                            failure: None,
                        },
                    ),
                )
            },
        }
    }
}

/// Where this node is one of the validators of a chunk, its own part is not sent over the
/// network. The distribution goes out exactly when the producer of the chunk is known and
/// the witness can be encoded for the validators. Then the batch holds the parts of all
/// other ordinals and no part of the own ordinal, and no part for this node where no
/// validator is assigned twice; the own part is given to the tracker; and it is forwarded
/// to the remaining validators. All this holds whatever storing the own part comes to.
pub proof fn own_part_is_delivered_locally(
    state: ActorState,
    key: ChunkProductionKeyView,
    chunk_hash: Seq<u8>,
    bytes: Seq<u8>,
    raw_size: usize,
    snapshot: ValidatorSnapshotView,
    now: u64,
)
    requires
        snapshot.my_signer is Some,
        snapshot.chunk_validators is Some,
        snapshot.chunk_validators->0.contains(snapshot.my_signer->0),
    ensures
        ({
            let local = snapshot.my_signer->0;
            let validators = snapshot.chunk_validators->0;
            let all = generated_parts(
                key,
                validators,
                num_data_parts(validators.len(), state.data_percent as nat),
                bytes,
            );
            let own = validators.index_of_first(local)->0;
            let stored = store_step(
                state.witnesses,
                all[own].1,
                validators.len() as usize,
                threshold(state, validators.len()),
            );
            let after = send_step(state, key, chunk_hash, bytes, raw_size, snapshot, now);
            &&& 0 <= own < validators.len()
            &&& all[own].0 == local
            &&& after.1 is Ok <==> snapshot.chunk_producer is Some && encodable_for(
                validators.len(),
                bytes.len(),
            )
            &&& after.1 is Ok ==> {
                &&& all[own].1.part_ord == own
                &&& after.0.witnesses == stored.0
                &&& after.1->Ok_0.parts.len() == validators.len() - 1
                &&& forall|i: int|
                    0 <= i < after.1->Ok_0.parts.len() ==> (
                    #[trigger] after.1->Ok_0.parts[i]).1.part_ord != own
                &&& validators.no_duplicates() ==> forall|i: int|
                    0 <= i < after.1->Ok_0.parts.len() ==> (#[trigger] after.1->Ok_0.parts[i]).0
                        != local
                &&& forall|j: int|
                    0 <= j < validators.len() && j != own ==> after.1->Ok_0.parts.contains(
                        #[trigger] all[j],
                    )
                &&& after.1->Ok_0.forward == forward_request(
                    validators,
                    local,
                    snapshot.chunk_producer->0,
                    all[own].1,
                )
            }
        }),
{
    let local = snapshot.my_signer->0;
    let validators = snapshot.chunk_validators->0;
    let all = generated_parts(
        key,
        validators,
        num_data_parts(validators.len(), state.data_percent as nat),
        bytes,
    );
    validators.index_of_first_ensures(local);
    let own = validators.index_of_first(local)->0;
    let others = all.update(own, all.last()).drop_last();
    let last = all.len() - 1;
    if encodable_for(validators.len(), bytes.len()) {
        assert forall|i: int| 0 <= i < others.len() implies (#[trigger] others[i]).1.part_ord
            != own by {
            let from = if i == own {
                last
            } else {
                i
            };
            assert(others[i] == all[from]);
        }
        if validators.no_duplicates() {
            assert forall|i: int| 0 <= i < others.len() implies (#[trigger] others[i]).0
                != local by {
                let from = if i == own {
                    last
                } else {
                    i
                };
                assert(others[i] == all[from]);
                assert(validators[from] != validators[own]);
            }
        }
        assert forall|j: int| 0 <= j < validators.len() && j != own implies others.contains(
            #[trigger] all[j],
        ) by {
            let to = if j == last {
                own
            } else {
                j
            };
            assert(others[to] == all[j]);
        }
    }
}

/// Whether the answer to a distribution is the one called for.
pub open spec fn distribution_matches(
    returned: Result<Distribution, DistributionError>,
    expected: Result<DistributionView, DistributionError>,
) -> bool {
    match returned {
        Ok(distribution) => expected == Ok::<DistributionView, DistributionError>(distribution@),
        Err(e) => expected == Err::<DistributionView, DistributionError>(e),
    }
}

/// Whether the answer to a part is the one called for.
pub open spec fn reception_matches(
    returned: Result<Reception, DistributionError>,
    expected: Result<ReceptionView, DistributionError>,
) -> bool {
    match returned {
        Ok(reception) => expected == Ok::<ReceptionView, DistributionError>(reception@),
        Err(e) => expected == Err::<ReceptionView, DistributionError>(e),
    }
}

/// Distributes witnesses to validators, takes in the parts that other producers send,
/// and measures how long witnesses take to be acknowledged.
pub struct PartialWitnessActor {
    partial_witness_tracker: PartialEncodedStateWitnessTracker,
    state_witness_tracker: ChunkStateWitnessTracker,
    encoders: WitnessEncoderCache,
}

impl View for PartialWitnessActor {
    type V = ActorState;

    closed spec fn view(&self) -> ActorState {
        ActorState {
            witnesses: self.partial_witness_tracker@,
            sends: self.state_witness_tracker@,
            send_retention: self.state_witness_tracker.spec_retention(),
            data_percent: self.encoders.spec_data_percent(),
            encoders: self.encoders.cached(),
        }
    }
}

/// The actor that holds nothing yet.
pub open spec fn initial_state(
    witness_retention: u64,
    send_retention: u64,
    data_percent: u8,
) -> ActorState {
    ActorState {
        witnesses: TrackerState {
            states: Map::<ChunkProductionKeyView, ReconstructionState>::empty(),
            newest_height: 0,
            retention: witness_retention,
        },
        sends: Map::<Seq<u8>, SendRecord>::empty(),
        send_retention,
        data_percent,
        encoders: Set::<nat>::empty(),
    }
}

impl PartialWitnessActor {
    /// An actor that holds nothing. It keeps the parts of a witness while its height is
    /// no more than `witness_retention` behind the newest, remembers a send for
    /// `send_retention`, and gives the default share of the parts to data.
    pub fn new(witness_retention: u64, send_retention: u64) -> (actor: PartialWitnessActor)
        ensures
            actor@ == initial_state(witness_retention, send_retention, DEFAULT_DATA_PERCENT),
            well_formed(actor@.witnesses),
    {
        PartialWitnessActor {
            partial_witness_tracker: PartialEncodedStateWitnessTracker::new(witness_retention),
            state_witness_tracker: ChunkStateWitnessTracker::new(send_retention),
            encoders: WitnessEncoderCache::new(),
        }
    }

    /// As [`PartialWitnessActor::new`], with the share `data_percent`, in hundredths, of
    /// the parts given to data; none where that share leaves no room for parity.
    pub fn with_data_percent(
        witness_retention: u64,
        send_retention: u64,
        data_percent: u8,
    ) -> (r: Option<PartialWitnessActor>)
        ensures
            r is Some <==> data_percent <= MAX_DATA_PERCENT,
            r is Some ==> r->0@ == initial_state(witness_retention, send_retention, data_percent),
            r is Some ==> well_formed(r->0@.witnesses),
    {
        match WitnessEncoderCache::with_data_percent(data_percent) {
            None => None,
            Some(encoders) => Some(
                PartialWitnessActor {
                    partial_witness_tracker: PartialEncodedStateWitnessTracker::new(
                        witness_retention,
                    ),
                    state_witness_tracker: ChunkStateWitnessTracker::new(send_retention),
                    encoders,
                },
            ),
        }
    }

    /// Number of parts kept for the production `key`, where its witness is still being
    /// collected.
    pub fn parts_received(&self, key: &ChunkProductionKey) -> (r: Option<usize>)
        ensures
            r == if self@.witnesses.states.dom().contains(key@)
                && !self@.witnesses.states[key@].complete {
                Some(count_present(self@.witnesses.states[key@].parts) as usize)
            } else {
                None
            },
    {
        self.partial_witness_tracker.parts_received(key)
    }

    /// Whether a send is remembered for the chunk `chunk_hash`.
    pub fn awaits_ack(&self, chunk_hash: &Vec<u8>) -> (r: bool)
        ensures
            r == self@.sends.dom().contains(chunk_hash@),
    {
        self.state_witness_tracker.contains(chunk_hash)
    }

    /// The greatest height of any part that was taken in. The witnesses that the actor
    /// collects are well formed at all times.
    pub fn newest_height(&self) -> (height: u64)
        ensures
            height == self@.witnesses.newest_height,
            well_formed(self@.witnesses),
    {
        self.partial_witness_tracker.newest_height()
    }

    /// Stores a part of a witness that was encoded for `total_parts` validators, and
    /// unpacks the witness where the part completed it.
    fn store_and_deliver(
        &mut self,
        partial_witness: PartialEncodedStateWitness,
        total_parts: usize,
    ) -> (r: Result<Option<ReconstructedWitness>, DistributionError>)
        requires
            1 <= total_parts <= MAX_SHARDS,
        ensures
            final(self)@ == with_witnesses(
                with_encoder(old(self)@, total_parts as nat),
                store_step(
                    old(self)@.witnesses,
                    partial_witness@,
                    total_parts,
                    threshold(old(self)@, total_parts as nat),
                ).0,
            ),
            match r {
                Ok(found) => delivery(
                    store_step(
                        old(self)@.witnesses,
                        partial_witness@,
                        total_parts,
                        threshold(old(self)@, total_parts as nat),
                    ).1,
                ) == Ok::<_, DistributionError>(witness_view(found)),
                Err(e) => delivery(
                    store_step(
                        old(self)@.witnesses,
                        partial_witness@,
                        total_parts,
                        threshold(old(self)@, total_parts as nat),
                    ).1,
                ) == Err::<
                    Option<(near_primitives::stateless_validation::ChunkStateWitness, usize)>,
                    _,
                >(e),
            },
            well_formed(final(self)@.witnesses),
            forall|bytes: Seq<u8>| #[trigger]
                completes(
                    old(self)@.witnesses,
                    partial_witness@,
                    total_parts,
                    threshold(old(self)@, total_parts as nat),
                    bytes,
                ) ==> store_step(
                    old(self)@.witnesses,
                    partial_witness@,
                    total_parts,
                    threshold(old(self)@, total_parts as nat),
                ).1 == StoreResult::Reconstructed(bytes),
    {
        let encoder = match self.encoders.entry(total_parts) {
            Some(encoder) => encoder,
            None => {
                return Err(DistributionError::CodecError);
            },
        };
        let outcome = self.partial_witness_tracker.store_partial_encoded_state_witness(
            partial_witness,
            encoder,
        );
        match outcome {
            Ok(StoreOutcome::Reconstructed(bytes)) => match decompress_witness(&bytes) {
                Ok(found) => Ok(Some(found)),
                Err(e) => Err(e),
            },
            Ok(_) => Ok(None),
            Err(e) => Err(e),
        }
    }

    /// Encodes the witness for the validators of the chunk and pairs each part with the
    /// validator that owns it; the parts have the length that the size of the witness
    /// calls for. An encoder for the number of validators is kept from then on. Fails
    /// with `CodecError`, and changes nothing, where there is no validator, where there
    /// are more than 256, or where the padded witness would not fit in memory.
    pub fn generate_state_witness_parts(
        &mut self,
        key: &ChunkProductionKey,
        witness_bytes: &EncodedChunkStateWitness,
        chunk_validators: &Vec<String>,
    ) -> (r: Result<Vec<(String, PartialEncodedStateWitness)>, DistributionError>)
        ensures
            match r {
                Ok(batch) => {
                    &&& encodable_for(
                        chunk_validators.len() as nat,
                        witness_bytes.bytes.len() as nat,
                    )
                    &&& final(self)@ == with_encoder(old(self)@, chunk_validators.len() as nat)
                    &&& batch_view(batch@) == generated_parts(
                        key@,
                        chunk_validators.deep_view(),
                        num_data_parts(
                            chunk_validators.len() as nat,
                            old(self)@.data_percent as nat,
                        ),
                        witness_bytes.bytes@,
                    )
                    &&& encodes(
                        chunk_validators.len() as nat,
                        num_data_parts(
                            chunk_validators.len() as nat,
                            old(self)@.data_percent as nat,
                        ),
                        witness_bytes.bytes@,
                        encoded_parts(
                            chunk_validators.len() as nat,
                            num_data_parts(
                                chunk_validators.len() as nat,
                                old(self)@.data_percent as nat,
                            ),
                            witness_bytes.bytes@,
                        ),
                    )
                },
                Err(e) => {
                    &&& e == DistributionError::CodecError
                    &&& final(self)@ == old(self)@
                    &&& !encodable_for(
                        chunk_validators.len() as nat,
                        witness_bytes.bytes.len() as nat,
                    )
                },
            },
            well_formed(old(self)@.witnesses) ==> well_formed(final(self)@.witnesses),
    {
        if witness_bytes.bytes.len() > usize::MAX - MAX_SHARDS {
            return Err(DistributionError::CodecError);
        }
        match self.encoders.entry(chunk_validators.len()) {
            None => Err(DistributionError::CodecError),
            Some(encoder) => Ok(
                encode_for_validators(encoder, key, &witness_bytes.bytes, chunk_validators),
            ),
        }
    }

    /// Breaks the encoded witness into parts and says what is to be sent to whom; see
    /// [`send_step`].
    pub fn send_state_witness_parts(
        &mut self,
        key: ChunkProductionKey,
        chunk_hash: Vec<u8>,
        witness_bytes: EncodedChunkStateWitness,
        snapshot: &ValidatorSnapshot,
        now: u64,
    ) -> (r: Result<Distribution, DistributionError>)
        ensures
            final(self)@ == send_step(
                old(self)@,
                key@,
                chunk_hash@,
                witness_bytes.bytes@,
                witness_bytes.raw_size,
                snapshot@,
                now,
            ).0,
            distribution_matches(
                r,
                send_step(
                    old(self)@,
                    key@,
                    chunk_hash@,
                    witness_bytes.bytes@,
                    witness_bytes.raw_size,
                    snapshot@,
                    now,
                ).1,
            ),
            well_formed(final(self)@.witnesses),
    {
        // Reading the height tells that the witnesses are well formed on every path.
        let _ = self.newest_height();
        let local = match &snapshot.my_signer {
            Some(local) => local,
            None => {
                return Err(DistributionError::NotAValidator);
            },
        };
        let chunk_validators = match &snapshot.chunk_validators {
            Some(chunk_validators) => chunk_validators,
            None => {
                return Err(DistributionError::AssignmentLookupFailed);
            },
        };
        let total_parts = chunk_validators.len();
        let witness_size = witness_bytes.bytes.len();
        let raw_witness_size = witness_bytes.raw_size;
        if total_parts < 1 || total_parts > MAX_SHARDS || witness_size > usize::MAX - MAX_SHARDS {
            return Err(DistributionError::CodecError);
        }
        let own = position_of_validator(chunk_validators, local);
        if own.is_some() && snapshot.chunk_producer.is_none() {
            return Err(DistributionError::AssignmentLookupFailed);
        }
        let mut parts = match self.generate_state_witness_parts(
            &key,
            &witness_bytes,
            chunk_validators,
        ) {
            Ok(parts) => parts,
            Err(e) => {
                return Err(e);
            },
        };
        let ghost all = batch_view(parts@);
        proof {
            chunk_validators.deep_view().index_of_first_ensures(local@);
            assert(all.len() == chunk_validators.len());
            assert(parts.len() == chunk_validators.len());
        }
        match (own, &snapshot.chunk_producer) {
            (Some(own), Some(chunk_producer)) => {
                let (_, partial_witness) = parts.swap_remove(own);
                assert(batch_view(parts@) =~= all.update(own as int, all.last()).drop_last());
                let forward = forward_state_witness_part(
                    partial_witness.clone(),
                    local,
                    chunk_producer,
                    chunk_validators,
                );
                let (reconstructed, failure) = match self.store_and_deliver(
                    partial_witness,
                    total_parts,
                ) {
                    Ok(reconstructed) => (reconstructed, None),
                    Err(e) => (None, Some(e)),
                };
                assert(old(self)@.encoders.insert(total_parts as nat).insert(total_parts as nat)
                    =~= old(self)@.encoders.insert(total_parts as nat));
                self.state_witness_tracker.record_witness_sent(
                    chunk_hash,
                    witness_size,
                    parts.len(),
                    now,
                );
                Ok(
                    Distribution {
                        parts,
                        forward,
                        reconstructed,
                        failure,
                        witness_size,
                        raw_witness_size,
                    },
                )
            },
            _ => {
                self.state_witness_tracker.record_witness_sent(
                    chunk_hash,
                    witness_size,
                    parts.len(),
                    now,
                );
                Ok(
                    Distribution {
                        parts,
                        forward: None,
                        reconstructed: None,
                        failure: None,
                        witness_size,
                        raw_witness_size,
                    },
                )
            },
        }
    }

    /// Handles a request to distribute a witness: compresses it and distributes the
    /// result; see [`distribute_step`].
    ///
    /// Without an identity the request fails with `NotAValidator`. Where the witness
    /// cannot be compressed, it fails with `SerializationError`. In both cases nothing
    /// changes. Otherwise the actor and the answer are those that [`send_step`] gives for
    /// the compressed witness.
    pub fn handle_distribute_state_witness_request(
        &mut self,
        msg: DistributeStateWitnessRequest,
        snapshot: &ValidatorSnapshot,
        now: u64,
    ) -> (r: Result<Distribution, DistributionError>)
        ensures
            final(self)@ == distribute_step(
                old(self)@,
                request_key(msg),
                msg.chunk_header.chunk_hash@,
                packed(msg.state_witness),
                snapshot@,
                now,
            ).0,
            distribution_matches(
                r,
                distribute_step(
                    old(self)@,
                    request_key(msg),
                    msg.chunk_header.chunk_hash@,
                    packed(msg.state_witness),
                    snapshot@,
                    now,
                ).1,
            ),
            well_formed(final(self)@.witnesses),
    {
        let _ = self.newest_height();
        let DistributeStateWitnessRequest { epoch_id, chunk_header, state_witness } = msg;
        if snapshot.my_signer.is_none() {
            return Err(DistributionError::NotAValidator);
        }
        let witness_bytes = match compress_witness(&state_witness) {
            Ok(witness_bytes) => witness_bytes,
            Err(e) => {
                return Err(e);
            },
        };
        let ShardChunkHeader { shard_id, height_created, chunk_hash } = chunk_header;
        let key = ChunkProductionKey { shard_id, epoch_id, height_created };
        self.send_state_witness_parts(key, chunk_hash, witness_bytes, snapshot, now)
    }

    /// Takes in a part, and forwards it where `forwarding`.
    fn receive(
        &mut self,
        partial_witness: PartialEncodedStateWitness,
        validation: PartValidation,
        snapshot: &ValidatorSnapshot,
        forwarding: bool,
    ) -> (r: Result<Reception, DistributionError>)
        ensures
            final(self)@ == receive_step(
                old(self)@,
                partial_witness@,
                validation,
                snapshot@,
                forwarding,
            ).0,
            reception_matches(
                r,
                receive_step(old(self)@, partial_witness@, validation, snapshot@, forwarding).1,
            ),
            well_formed(final(self)@.witnesses),
            forall|bytes: Seq<u8>|
                reaches_tracker(validation, snapshot@) && #[trigger] completes(
                    old(self)@.witnesses,
                    partial_witness@,
                    snapshot@.chunk_validators->0.len() as usize,
                    threshold(old(self)@, snapshot@.chunk_validators->0.len()),
                    bytes,
                ) ==> store_step(
                    old(self)@.witnesses,
                    partial_witness@,
                    snapshot@.chunk_validators->0.len() as usize,
                    threshold(old(self)@, snapshot@.chunk_validators->0.len()),
                ).1 == StoreResult::Reconstructed(bytes),
    {
        let _ = self.newest_height();
        let local = match &snapshot.my_signer {
            Some(local) => local,
            None => {
                return Err(DistributionError::NotAValidator);
            },
        };
        match validation {
            PartValidation::Malformed => {
                return Err(DistributionError::ValidationRejected);
            },
            PartValidation::Rejected => {
                return Ok(Reception { forward: None, reconstructed: None, failure: None });
            },
            PartValidation::Valid => {},
        }
        let chunk_validators = match &snapshot.chunk_validators {
            Some(chunk_validators) => chunk_validators,
            None => {
                return Err(DistributionError::AssignmentLookupFailed);
            },
        };
        let total_parts = chunk_validators.len();
        if total_parts < 1 || total_parts > MAX_SHARDS {
            return Err(DistributionError::CodecError);
        }
        let forward = if forwarding {
            match &snapshot.chunk_producer {
                Some(chunk_producer) => forward_state_witness_part(
                    partial_witness.clone(),
                    local,
                    chunk_producer,
                    chunk_validators,
                ),
                None => None,
            }
        } else {
            None
        };
        let reconstructed = match self.store_and_deliver(partial_witness, total_parts) {
            Ok(reconstructed) => reconstructed,
            Err(e) => {
                return Err(e);
            },
        };
        if forwarding && snapshot.chunk_producer.is_none() {
            if reconstructed.is_none() {
                return Err(DistributionError::AssignmentLookupFailed);
            }
            return Ok(
                Reception {
                    forward: None,
                    reconstructed,
                    failure: Some(DistributionError::AssignmentLookupFailed),
                },
            );
        }
        Ok(Reception { forward, reconstructed, failure: None })
    }

    /// Handles a part that the producer of a chunk sent to this node as its owner: the
    /// part is stored and forwarded to the other validators; see [`receive_step`].
    /// Whenever the part reaches the tracker and with it enough parts of one encoding are
    /// at hand, the bytes that were encoded are rebuilt.
    pub fn handle_partial_encoded_state_witness(
        &mut self,
        partial_witness: PartialEncodedStateWitness,
        validation: PartValidation,
        snapshot: &ValidatorSnapshot,
    ) -> (r: Result<Reception, DistributionError>)
        ensures
            final(self)@ == receive_step(
                old(self)@,
                partial_witness@,
                validation,
                snapshot@,
                true,
            ).0,
            reception_matches(
                r,
                receive_step(old(self)@, partial_witness@, validation, snapshot@, true).1,
            ),
            well_formed(final(self)@.witnesses),
            forall|bytes: Seq<u8>|
                reaches_tracker(validation, snapshot@) && #[trigger] completes(
                    old(self)@.witnesses,
                    partial_witness@,
                    snapshot@.chunk_validators->0.len() as usize,
                    threshold(old(self)@, snapshot@.chunk_validators->0.len()),
                    bytes,
                ) ==> store_step(
                    old(self)@.witnesses,
                    partial_witness@,
                    snapshot@.chunk_validators->0.len() as usize,
                    threshold(old(self)@, snapshot@.chunk_validators->0.len()),
                ).1 == StoreResult::Reconstructed(bytes),
    {
        self.receive(partial_witness, validation, snapshot, true)
    }

    /// Handles a part that its owner forwarded to this node: the part is stored and
    /// never forwarded again; see [`receive_step`]. Whenever the part reaches the tracker
    /// and with it enough parts of one encoding are at hand, the bytes that were encoded
    /// are rebuilt.
    pub fn handle_partial_encoded_state_witness_forward(
        &mut self,
        partial_witness: PartialEncodedStateWitness,
        validation: PartValidation,
        snapshot: &ValidatorSnapshot,
    ) -> (r: Result<Reception, DistributionError>)
        ensures
            final(self)@ == receive_step(
                old(self)@,
                partial_witness@,
                validation,
                snapshot@,
                false,
            ).0,
            reception_matches(
                r,
                receive_step(old(self)@, partial_witness@, validation, snapshot@, false).1,
            ),
            r is Ok ==> r->Ok_0.forward is None && r->Ok_0.failure is None,
            well_formed(final(self)@.witnesses),
            forall|bytes: Seq<u8>|
                reaches_tracker(validation, snapshot@) && #[trigger] completes(
                    old(self)@.witnesses,
                    partial_witness@,
                    snapshot@.chunk_validators->0.len() as usize,
                    threshold(old(self)@, snapshot@.chunk_validators->0.len()),
                    bytes,
                ) ==> store_step(
                    old(self)@.witnesses,
                    partial_witness@,
                    snapshot@.chunk_validators->0.len() as usize,
                    threshold(old(self)@, snapshot@.chunk_validators->0.len()),
                ).1 == StoreResult::Reconstructed(bytes),
    {
        self.receive(partial_witness, validation, snapshot, false)
    }

    /// Handles the acknowledgement of a witness that came in at `now`: where the send is
    /// still remembered, it is forgotten and the round-trip time is returned. This never
    /// fails.
    pub fn handle_chunk_state_witness_ack(
        &mut self,
        witness_ack: ChunkStateWitnessAck,
        now: u64,
    ) -> (r: Option<LatencyObservation>)
        ensures
            final(self)@ == with_sends(
                old(self)@,
                after_ack(
                    old(self)@.sends,
                    witness_ack.chunk_hash@,
                    now,
                    old(self)@.send_retention,
                ).0,
            ),
            r == after_ack(
                old(self)@.sends,
                witness_ack.chunk_hash@,
                now,
                old(self)@.send_retention,
            ).1,
            well_formed(final(self)@.witnesses),
    {
        let _ = self.newest_height();
        self.state_witness_tracker.on_witness_ack_received(&witness_ack, now)
    }
}

} // verus!
