//! Matching acknowledgements to the witnesses that were sent, to measure round-trip time.

use crate::assoc::{
    as_map, distinct_keys, has_key, lemma_as_map_at, lemma_as_map_empty, lemma_as_map_key,
    lemma_as_map_push, lemma_as_map_swap_remove, lemma_as_map_update, lemma_retained_all,
    lemma_retained_remove_dropped, retained,
};
use crate::bytes::bytes_equal;
use vstd::prelude::*;

verus! {

/// What is remembered of a witness that was sent.
#[derive(Clone, Copy, Debug, PartialEq, Eq, Structural)]
pub struct SendRecord {
    /// Reading of the clock when the witness was sent.
    pub sent_timestamp: u64,
    /// Size of the encoded witness in bytes.
    pub witness_size: usize,
    /// Number of validators that the witness was sent to.
    pub num_validators: usize,
}

/// The round-trip time measured when an acknowledgement came in.
#[derive(Clone, Copy, Debug, PartialEq, Eq, Structural)]
pub struct LatencyObservation {
    /// Time between sending the witness and receiving the acknowledgement.
    pub elapsed: u64,
    /// Size of the encoded witness in bytes.
    pub witness_size: usize,
    /// Number of validators that the witness was sent to.
    pub num_validators: usize,
}

/// An acknowledgement from a validator that it received the witness of a chunk.
pub struct ChunkStateWitnessAck {
    /// Hash of the chunk that the witness belongs to.
    pub chunk_hash: Vec<u8>,
}

/// Time that has passed at `now` since `since`; nothing where the clock went back.
pub open spec fn elapsed_between(since: u64, now: u64) -> u64 {
    if now >= since {
        (now - since) as u64
    } else {
        0
    }
}

/// A record is kept while no more than `retention` has passed since it was made.
pub open spec fn is_live(record: SendRecord, now: u64, retention: u64) -> bool {
    elapsed_between(record.sent_timestamp, now) <= retention
}

/// The rule by which records are kept at `now`.
pub open spec fn keep_live(now: u64, retention: u64) -> spec_fn(Seq<u8>, SendRecord) -> bool {
    |chunk_hash: Seq<u8>, record: SendRecord| is_live(record, now, retention)
}

/// The records that are kept at `now`.
pub open spec fn live_records(
    records: Map<Seq<u8>, SendRecord>,
    now: u64,
    retention: u64,
) -> Map<Seq<u8>, SendRecord> {
    retained(records, keep_live(now, retention))
}

/// The observation made when the acknowledgement for `record` comes in at `now`.
pub open spec fn observation(record: SendRecord, now: u64) -> LatencyObservation {
    LatencyObservation {
        elapsed: elapsed_between(record.sent_timestamp, now),
        witness_size: record.witness_size,
        num_validators: record.num_validators,
    }
}

/// The records after a witness was sent at `now`: those that are still kept, and the
/// new one in place of any earlier record for the same chunk.
pub open spec fn after_send(
    records: Map<Seq<u8>, SendRecord>,
    chunk_hash: Seq<u8>,
    witness_size: usize,
    num_validators: usize,
    now: u64,
    retention: u64,
) -> Map<Seq<u8>, SendRecord> {
    live_records(records, now, retention).insert(
        chunk_hash,
        SendRecord { sent_timestamp: now, witness_size, num_validators },
    )
}

/// The records after an acknowledgement for `chunk_hash` came in at `now`, and what was
/// observed: where a record for the chunk is still kept, it is consumed and its round-trip
/// time observed.
pub open spec fn after_ack(
    records: Map<Seq<u8>, SendRecord>,
    chunk_hash: Seq<u8>,
    now: u64,
    retention: u64,
) -> (Map<Seq<u8>, SendRecord>, Option<LatencyObservation>) {
    let live = live_records(records, now, retention);
    (
        live.remove(chunk_hash),
        if live.dom().contains(chunk_hash) {
            Some(observation(live[chunk_hash], now))
        } else {
            None
        },
    )
}

/// An acknowledgement that comes in while the record of its send is kept is observed
/// once, with the time that has passed since the send; the record is consumed, so that a
/// second acknowledgement for the same chunk observes nothing and changes nothing but
/// what the passing of time drops.
pub proof fn ack_after_send_is_observed_once(
    records: Map<Seq<u8>, SendRecord>,
    chunk_hash: Seq<u8>,
    witness_size: usize,
    num_validators: usize,
    sent_at: u64,
    acked_at: u64,
    again_at: u64,
    retention: u64,
)
    requires
        elapsed_between(sent_at, acked_at) <= retention,
    ensures
        ({
            let sent = after_send(
                records,
                chunk_hash,
                witness_size,
                num_validators,
                sent_at,
                retention,
            );
            let acked = after_ack(sent, chunk_hash, acked_at, retention);
            let again = after_ack(acked.0, chunk_hash, again_at, retention);
            &&& acked.1 == Some(
                LatencyObservation {
                    elapsed: elapsed_between(sent_at, acked_at),
                    witness_size,
                    num_validators,
                },
            )
            &&& !acked.0.dom().contains(chunk_hash)
            &&& again.1 is None
            &&& again.0 == live_records(acked.0, again_at, retention)
            &&& again_at == acked_at ==> again.0 == acked.0
        }),
{
    let sent = after_send(records, chunk_hash, witness_size, num_validators, sent_at, retention);
    let record = SendRecord { sent_timestamp: sent_at, witness_size, num_validators };
    assert(sent[chunk_hash] == record);
    assert(keep_live(acked_at, retention)(chunk_hash, record));
    let live = live_records(sent, acked_at, retention);
    assert(live.dom().contains(chunk_hash));
    let acked = after_ack(sent, chunk_hash, acked_at, retention);
    let live_again = live_records(acked.0, again_at, retention);
    assert(!live_again.dom().contains(chunk_hash));
    assert(live_again.remove(chunk_hash) =~= live_again);
    if again_at == acked_at {
        assert(live_again =~= acked.0);
    }
}

/// A record that is older than the retention is gone after whatever the tracker does
/// next, be it a sweep, a send for another chunk or an acknowledgement.
pub proof fn expired_record_is_evicted(
    records: Map<Seq<u8>, SendRecord>,
    chunk_hash: Seq<u8>,
    other_hash: Seq<u8>,
    witness_size: usize,
    num_validators: usize,
    now: u64,
    retention: u64,
)
    requires
        records.dom().contains(chunk_hash),
        !is_live(records[chunk_hash], now, retention),
        other_hash != chunk_hash,
    ensures
        !live_records(records, now, retention).dom().contains(chunk_hash),
        !after_send(
            records,
            other_hash,
            witness_size,
            num_validators,
            now,
            retention,
        ).dom().contains(chunk_hash),
        !after_ack(records, other_hash, now, retention).0.dom().contains(chunk_hash),
        after_ack(records, chunk_hash, now, retention).1 is None,
{
    assert(!keep_live(now, retention)(chunk_hash, records[chunk_hash]));
}

struct TrackedSend {
    chunk_hash: Vec<u8>,
    record: SendRecord,
}

spec fn pairs(records: Seq<TrackedSend>) -> Seq<(Seq<u8>, SendRecord)> {
    Seq::new(records.len(), |i: int| (records[i].chunk_hash@, records[i].record))
}

/// Place of the record for `chunk_hash`, if there is one.
fn find(records: &Vec<TrackedSend>, chunk_hash: &Vec<u8>) -> (at: Option<usize>)
    ensures
        match at {
            Some(i) => i < records.len() && records[i as int].chunk_hash@ == chunk_hash@,
            None => !has_key(pairs(records@), chunk_hash@),
        },
{
    let mut i: usize = 0;
    while i < records.len()
        invariant
            i <= records.len(),
            forall|p: int| 0 <= p < i ==> (#[trigger] pairs(records@)[p]).0 != chunk_hash@,
        decreases records.len() - i,
    {
        if bytes_equal(&records[i].chunk_hash, chunk_hash) {
            return Some(i);
        }
        i += 1;
    }
    None
}

/// Takes out the records that are no longer kept at `now`.
fn sweep(records: &mut Vec<TrackedSend>, now: u64, retention: u64)
    requires
        distinct_keys(pairs(old(records)@)),
    ensures
        distinct_keys(pairs(final(records)@)),
        as_map(pairs(final(records)@)) == live_records(
            as_map(pairs(old(records)@)),
            now,
            retention,
        ),
{
    let ghost keep = keep_live(now, retention);
    let ghost before = as_map(pairs(records@));
    let mut i: usize = 0;
    while i < records.len()
        invariant
            i <= records.len(),
            keep == keep_live(now, retention),
            distinct_keys(pairs(records@)),
            retained(as_map(pairs(records@)), keep) == retained(before, keep),
            forall|p: int| 0 <= p < i ==> is_live((#[trigger] records[p]).record, now, retention),
        decreases records.len() - i,
    {
        let sent = records[i].record.sent_timestamp;
        let expired = now >= sent && now - sent > retention;
        if expired {
            proof {
                let current = pairs(records@);
                lemma_as_map_swap_remove(current, i as int);
                lemma_as_map_at(current, i as int);
                lemma_retained_remove_dropped(as_map(current), keep, current[i as int].0);
                assert(pairs(records@.update(i as int, records@.last()).drop_last())
                    =~= current.update(i as int, current.last()).drop_last());
            }
            records.swap_remove(i);
        } else {
            i += 1;
        }
    }
    proof {
        let current = pairs(records@);
        assert forall|key: Seq<u8>| #[trigger] as_map(current).dom().contains(key) implies keep(
            key,
            as_map(current)[key],
        ) by {
            let at = lemma_as_map_key(current, key);
            assert(is_live(records[at].record, now, retention));
        }
        lemma_retained_all(as_map(current), keep);
    }
}

/// Remembers the witnesses that were sent until their acknowledgement comes in or
/// `retention` has passed.
pub struct ChunkStateWitnessTracker {
    retention: u64,
    records: Vec<TrackedSend>,
}

impl View for ChunkStateWitnessTracker {
    type V = Map<Seq<u8>, SendRecord>;

    /// The record kept for each chunk hash.
    closed spec fn view(&self) -> Map<Seq<u8>, SendRecord> {
        as_map(pairs(self.records@))
    }
}

impl ChunkStateWitnessTracker {
    #[verifier::type_invariant]
    spec fn well_formed(self) -> bool {
        distinct_keys(pairs(self.records@))
    }

    /// Time for which a record is kept.
    pub closed spec fn spec_retention(&self) -> u64 {
        self.retention
    }

    /// A tracker without records that keeps each record for `retention`.
    pub fn new(retention: u64) -> (tracker: ChunkStateWitnessTracker)
        ensures
            tracker@ == Map::<Seq<u8>, SendRecord>::empty(),
            tracker.spec_retention() == retention,
    {
        proof {
            lemma_as_map_empty::<Seq<u8>, SendRecord>();
        }
        let tracker = ChunkStateWitnessTracker { retention, records: Vec::new() };
        assert(pairs(tracker.records@) =~= Seq::empty());
        tracker
    }

    /// Time for which a record is kept.
    #[verifier::when_used_as_spec(spec_retention)]
    pub fn retention(&self) -> (retention: u64)
        ensures
            retention == self.spec_retention(),
    {
        self.retention
    }

    /// Whether a record is kept for `chunk_hash`.
    pub fn contains(&self, chunk_hash: &Vec<u8>) -> (found: bool)
        ensures
            found == self@.dom().contains(chunk_hash@),
    {
        match find(&self.records, chunk_hash) {
            Some(i) => {
                assert(pairs(self.records@)[i as int].0 == chunk_hash@);
                true
            },
            None => false,
        }
    }

    /// Drops the records that are older than the retention at `now`.
    pub fn evict_expired(&mut self, now: u64)
        ensures
            final(self)@ == live_records(old(self)@, now, old(self).spec_retention()),
            final(self).spec_retention() == old(self).spec_retention(),
    {
        proof {
            use_type_invariant(&*self);
        }
        let mut records: Vec<TrackedSend> = Vec::new();
        proof {
            lemma_as_map_empty::<Seq<u8>, SendRecord>();
            assert(pairs(records@) =~= Seq::empty());
        }
        core::mem::swap(&mut self.records, &mut records);
        sweep(&mut records, now, self.retention);
        core::mem::swap(&mut self.records, &mut records);
    }

    /// Records at `now` that the witness of the chunk `chunk_hash`, of `witness_size`
    /// bytes, was sent to `num_validators` validators. An earlier record for the same
    /// chunk is replaced; records older than the retention are dropped.
    pub fn record_witness_sent(
        &mut self,
        chunk_hash: Vec<u8>,
        witness_size: usize,
        num_validators: usize,
        now: u64,
    )
        ensures
            final(self)@ == after_send(
                old(self)@,
                chunk_hash@,
                witness_size,
                num_validators,
                now,
                old(self).spec_retention(),
            ),
            final(self).spec_retention() == old(self).spec_retention(),
    {
        proof {
            use_type_invariant(&*self);
        }
        let mut records: Vec<TrackedSend> = Vec::new();
        proof {
            lemma_as_map_empty::<Seq<u8>, SendRecord>();
            assert(pairs(records@) =~= Seq::empty());
        }
        core::mem::swap(&mut self.records, &mut records);
        sweep(&mut records, now, self.retention);
        let record = SendRecord { sent_timestamp: now, witness_size, num_validators };
        let ghost current = pairs(records@);
        match find(&records, &chunk_hash) {
            Some(i) => {
                proof {
                    lemma_as_map_update(current, i as int, record);
                }
                let ghost hash = chunk_hash@;
                records.set(i, TrackedSend { chunk_hash, record });
                assert(pairs(records@) =~= current.update(i as int, (hash, record)));
            },
            None => {
                proof {
                    lemma_as_map_push(current, chunk_hash@, record);
                }
                let ghost hash = chunk_hash@;
                records.push(TrackedSend { chunk_hash, record });
                assert(pairs(records@) =~= current.push((hash, record)));
            },
        }
        core::mem::swap(&mut self.records, &mut records);
    }

    /// Handles the acknowledgement `ack` that came in at `now`. Where a record for its
    /// chunk is still kept, the record is consumed and the round-trip time is returned;
    /// otherwise nothing is observed. Records older than the retention are dropped.
    pub fn on_witness_ack_received(&mut self, ack: &ChunkStateWitnessAck, now: u64) -> (r: Option<
        LatencyObservation,
    >)
        ensures
            final(self)@ == after_ack(
                old(self)@,
                ack.chunk_hash@,
                now,
                old(self).spec_retention(),
            ).0,
            r == after_ack(old(self)@, ack.chunk_hash@, now, old(self).spec_retention()).1,
            final(self).spec_retention() == old(self).spec_retention(),
    {
        proof {
            use_type_invariant(&*self);
        }
        let mut records: Vec<TrackedSend> = Vec::new();
        proof {
            lemma_as_map_empty::<Seq<u8>, SendRecord>();
            assert(pairs(records@) =~= Seq::empty());
        }
        core::mem::swap(&mut self.records, &mut records);
        sweep(&mut records, now, self.retention);
        let ghost current = pairs(records@);
        let r = match find(&records, &ack.chunk_hash) {
            Some(i) => {
                proof {
                    lemma_as_map_swap_remove(current, i as int);
                    lemma_as_map_at(current, i as int);
                    assert(pairs(records@.update(i as int, records@.last()).drop_last())
                        =~= current.update(i as int, current.last()).drop_last());
                }
                let sent = records.swap_remove(i);
                let elapsed = if now >= sent.record.sent_timestamp {
                    now - sent.record.sent_timestamp
                } else {
                    0
                };
                Some(
                    LatencyObservation {
                        elapsed,
                        witness_size: sent.record.witness_size,
                        num_validators: sent.record.num_validators,
                    },
                )
            },
            None => {
                assert(as_map(current).remove(ack.chunk_hash@) =~= as_map(current));
                None
            },
        };
        core::mem::swap(&mut self.records, &mut records);
        r
    }
}

} // verus!
