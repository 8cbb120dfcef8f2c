//! Collecting the parts of each witness until it can be rebuilt.

use crate::assoc::{
    as_map, distinct_keys, has_key, lemma_as_map_at, lemma_as_map_empty, lemma_as_map_key,
    lemma_as_map_push, lemma_as_map_swap_remove, lemma_retained_all,
    lemma_retained_remove_dropped, retained,
};
use crate::encoding::{
    count_parts, decoded, encoded_parts, encodes, lemma_bytes_deep_view, WitnessEncoder,
};
use crate::error::DistributionError;
use crate::reed_solomon::{agrees, count_present};
use crate::types::{
    ChunkProductionKey, ChunkProductionKeyView, PartialEncodedStateWitness,
    PartialEncodedStateWitnessView,
};
use vstd::prelude::*;

verus! {

/// What is known of one witness while its parts come in.
pub ghost struct ReconstructionState {
    /// Number of parts that the witness was encoded into: one per validator.
    pub total_parts: usize,
    /// Number of parts that suffice to rebuild the witness.
    pub data_parts: usize,
    /// The parts received so far, each at the place of its ordinal. Empty once the state
    /// is complete.
    pub parts: Seq<Option<Seq<u8>>>,
    /// Whether the witness was rebuilt, or given up after all parts had come in.
    pub complete: bool,
}

/// Everything that the tracker holds.
pub ghost struct TrackerState {
    /// The state kept for each production.
    pub states: Map<ChunkProductionKeyView, ReconstructionState>,
    /// The greatest height of any part that was taken in.
    pub newest_height: u64,
    /// How far, in heights, a production may lie behind the newest and still be kept.
    pub retention: u64,
}

/// What storing a part comes to.
pub ghost enum StoreResult {
    /// Nothing was stored: the part is late, a duplicate, out of range, or its witness was
    /// dealt with before.
    Ignored,
    /// The part was stored and more parts are needed.
    Stored,
    /// The part was stored and the encoded witness was rebuilt.
    Reconstructed(Seq<u8>),
    /// All parts have come in and they do not fit together.
    Failed,
}

/// What storing a part returns.
#[derive(Debug)]
pub enum StoreOutcome {
    /// Nothing was stored: the part is late, a duplicate, out of range, or its witness was
    /// dealt with before.
    Ignored,
    /// The part was stored and more parts are needed.
    Stored,
    /// The part was stored and with it the encoded witness was rebuilt: here it is.
    Reconstructed(Vec<u8>),
}

/// The least height that is still kept when `newest_height` is the newest.
pub open spec fn horizon(newest_height: u64, retention: u64) -> u64 {
    if newest_height >= retention {
        (newest_height - retention) as u64
    } else {
        0
    }
}

/// The rule by which states are kept: those at or above the horizon.
pub open spec fn keep_recent(horizon: u64) -> spec_fn(
    ChunkProductionKeyView,
    ReconstructionState,
) -> bool {
    |key: ChunkProductionKeyView, state: ReconstructionState| key.height_created >= horizon
}

/// The state of a witness of which no part has come in.
pub open spec fn fresh_state(total_parts: usize, data_parts: usize) -> ReconstructionState {
    ReconstructionState {
        total_parts,
        data_parts,
        parts: Seq::new(total_parts as nat, |i: int| None),
        complete: false,
    }
}

/// The state of a witness that was dealt with: its parts are given up.
pub open spec fn closed_state(total_parts: usize, data_parts: usize) -> ReconstructionState {
    ReconstructionState { total_parts, data_parts, parts: Seq::empty(), complete: true }
}

/// Whether a state takes the part in: the state is not complete, it was made for the same
/// numbers of parts, and the part's ordinal is in range and new.
pub open spec fn accepts(
    state: ReconstructionState,
    part: PartialEncodedStateWitnessView,
    total_parts: usize,
    data_parts: usize,
) -> bool {
    &&& !state.complete
    &&& state.total_parts == total_parts
    &&& state.data_parts == data_parts
    &&& part.part_ord < total_parts
    &&& state.parts[part.part_ord as int] is None
}

/// The state with the part at the place of its ordinal.
pub open spec fn with_part(
    state: ReconstructionState,
    part: PartialEncodedStateWitnessView,
) -> ReconstructionState {
    ReconstructionState {
        total_parts: state.total_parts,
        data_parts: state.data_parts,
        parts: state.parts.update(part.part_ord as int, Some(part.part)),
        complete: state.complete,
    }
}

/// What becomes of a state that takes the part in. Where the parts now at hand can be
/// decoded, the witness is rebuilt and the state is closed. Where they cannot, the state
/// waits for more parts, unless all have come in: then it is closed as failed.
pub open spec fn absorbed(
    state: ReconstructionState,
    part: PartialEncodedStateWitnessView,
) -> (ReconstructionState, StoreResult) {
    let next = with_part(state, part);
    match decoded(
        state.total_parts as nat,
        state.data_parts as nat,
        next.parts,
        part.encoded_length as nat,
    ) {
        Some(bytes) => (
            closed_state(state.total_parts, state.data_parts),
            StoreResult::Reconstructed(bytes),
        ),
        None => if count_present(next.parts) >= state.total_parts {
            (closed_state(state.total_parts, state.data_parts), StoreResult::Failed)
        } else {
            (next, StoreResult::Stored)
        },
    }
}

/// The tracker and the result after storing `part` of a witness that is encoded into
/// `total_parts` parts of which `data_parts` suffice.
///
/// A part below the horizon changes nothing. Any other part moves the horizon up where its
/// height is the newest, and the states that fall below the horizon are forgotten. Then
/// the state of the part's production, a fresh one where none is kept, takes the part in
/// if it accepts it.
pub open spec fn store_step(
    tracker: TrackerState,
    part: PartialEncodedStateWitnessView,
    total_parts: usize,
    data_parts: usize,
) -> (TrackerState, StoreResult) {
    if part.key.height_created < horizon(tracker.newest_height, tracker.retention) {
        (tracker, StoreResult::Ignored)
    } else {
        let newest = if part.key.height_created > tracker.newest_height {
            part.key.height_created
        } else {
            tracker.newest_height
        };
        let swept = retained(tracker.states, keep_recent(horizon(newest, tracker.retention)));
        let current = if swept.dom().contains(part.key) {
            swept[part.key]
        } else {
            fresh_state(total_parts, data_parts)
        };
        if !accepts(current, part, total_parts, data_parts) {
            (
                TrackerState {
                    states: swept,
                    newest_height: newest,
                    retention: tracker.retention,
                },
                StoreResult::Ignored,
            )
        } else {
            (
                TrackerState {
                    states: swept.insert(part.key, absorbed(current, part).0),
                    newest_height: newest,
                    retention: tracker.retention,
                },
                absorbed(current, part).1,
            )
        }
    }
}

/// The state that a part meets: the one kept for its production once the states below
/// the horizon are forgotten, or a fresh one where none is kept.
pub open spec fn state_for(
    tracker: TrackerState,
    part: PartialEncodedStateWitnessView,
    total_parts: usize,
    data_parts: usize,
) -> ReconstructionState {
    let newest = if part.key.height_created > tracker.newest_height {
        part.key.height_created
    } else {
        tracker.newest_height
    };
    let swept = retained(tracker.states, keep_recent(horizon(newest, tracker.retention)));
    if swept.dom().contains(part.key) {
        swept[part.key]
    } else {
        fresh_state(total_parts, data_parts)
    }
}

/// Whether the tracker takes the part in: the part is not below the horizon and the state
/// that it meets accepts it.
pub open spec fn takes_in(
    tracker: TrackerState,
    part: PartialEncodedStateWitnessView,
    total_parts: usize,
    data_parts: usize,
) -> bool {
    &&& part.key.height_created >= horizon(tracker.newest_height, tracker.retention)
    &&& accepts(state_for(tracker, part, total_parts, data_parts), part, total_parts, data_parts)
}

/// With the part taken in, enough of the parts that `bytes` was encoded into are at hand.
pub open spec fn completes(
    tracker: TrackerState,
    part: PartialEncodedStateWitnessView,
    total_parts: usize,
    data_parts: usize,
    bytes: Seq<u8>,
) -> bool {
    let at_hand = with_part(state_for(tracker, part, total_parts, data_parts), part).parts;
    let encoding = encoded_parts(total_parts as nat, data_parts as nat, bytes);
    &&& takes_in(tracker, part, total_parts, data_parts)
    &&& bytes.len() == part.encoded_length
    &&& count_present(at_hand) >= data_parts
    &&& encodes(total_parts as nat, data_parts as nat, bytes, encoding)
    &&& agrees(at_hand, encoding)
}

/// A part that the tracker takes in stands at its place afterwards, unless the witness
/// was dealt with at once: then the state is closed.
pub proof fn part_taken_in_is_held(
    tracker: TrackerState,
    part: PartialEncodedStateWitnessView,
    total_parts: usize,
    data_parts: usize,
)
    requires
        well_formed(tracker),
        takes_in(tracker, part, total_parts, data_parts),
    ensures
        ({
            let after = store_step(tracker, part, total_parts, data_parts);
            &&& after.0.states.dom().contains(part.key)
            &&& after.1 != StoreResult::Ignored
            &&& after.1 == StoreResult::Stored ==> !after.0.states[part.key].complete
                && after.0.states[part.key].parts[part.part_ord as int] == Some(part.part)
            &&& after.1 != StoreResult::Stored ==> after.0.states[part.key] == closed_state(
                total_parts,
                data_parts,
            )
        }),
{
    let current = state_for(tracker, part, total_parts, data_parts);
    if !(current == fresh_state(total_parts, data_parts)) {
        assert(tracker.states.dom().contains(part.key));
    }
    assert(current.parts.len() == total_parts);
}

/// A tracker as the operations leave it: a state that is not complete has one place per
/// part, and no state lies below the horizon.
pub open spec fn well_formed(tracker: TrackerState) -> bool {
    &&& forall|key: ChunkProductionKeyView| #[trigger]
        tracker.states.dom().contains(key) && !tracker.states[key].complete
            ==> tracker.states[key].parts.len() == tracker.states[key].total_parts
    &&& forall|key: ChunkProductionKeyView| #[trigger]
        tracker.states.dom().contains(key) ==> key.height_created >= horizon(
            tracker.newest_height,
            tracker.retention,
        )
}

/// Whether what was returned is what the result calls for.
pub open spec fn outcome_matches(
    returned: Result<StoreOutcome, DistributionError>,
    result: StoreResult,
) -> bool {
    match returned {
        Ok(StoreOutcome::Ignored) => result == StoreResult::Ignored,
        Ok(StoreOutcome::Stored) => result == StoreResult::Stored,
        Ok(StoreOutcome::Reconstructed(bytes)) => result == StoreResult::Reconstructed(bytes@),
        Err(e) => e == DistributionError::CodecError && result == StoreResult::Failed,
    }
}

/// Storing a part keeps the tracker well formed.
pub proof fn store_keeps_well_formed(
    tracker: TrackerState,
    part: PartialEncodedStateWitnessView,
    total_parts: usize,
    data_parts: usize,
)
    requires
        well_formed(tracker),
    ensures
        well_formed(store_step(tracker, part, total_parts, data_parts).0),
{
    let after = store_step(tracker, part, total_parts, data_parts).0;
    if part.key.height_created >= horizon(tracker.newest_height, tracker.retention) {
        let least = horizon(after.newest_height, tracker.retention);
        let swept = retained(tracker.states, keep_recent(least));
        assert forall|key: ChunkProductionKeyView| #[trigger]
            after.states.dom().contains(key) implies key.height_created >= least && (
        !after.states[key].complete ==> after.states[key].parts.len()
            == after.states[key].total_parts) by {
            if key != part.key || !accepts(
                if swept.dom().contains(part.key) {
                    swept[part.key]
                } else {
                    fresh_state(total_parts, data_parts)
                },
                part,
                total_parts,
                data_parts,
            ) {
                assert(swept.dom().contains(key));
                assert(tracker.states.dom().contains(key));
            }
        }
    }
}

/// Storing the same part a second time changes nothing: the tracker is as it was after
/// the first time, and the part is ignored.
pub proof fn store_twice_is_store_once(
    tracker: TrackerState,
    part: PartialEncodedStateWitnessView,
    total_parts: usize,
    data_parts: usize,
)
    requires
        well_formed(tracker),
    ensures
        store_step(
            store_step(tracker, part, total_parts, data_parts).0,
            part,
            total_parts,
            data_parts,
        ).0 == store_step(tracker, part, total_parts, data_parts).0,
        store_step(
            store_step(tracker, part, total_parts, data_parts).0,
            part,
            total_parts,
            data_parts,
        ).1 == StoreResult::Ignored,
{
    let once = store_step(tracker, part, total_parts, data_parts).0;
    let twice = store_step(once, part, total_parts, data_parts).0;
    store_keeps_well_formed(tracker, part, total_parts, data_parts);
    if part.key.height_created >= horizon(tracker.newest_height, tracker.retention) {
        let least = horizon(once.newest_height, tracker.retention);
        let swept = retained(tracker.states, keep_recent(least));
        assert forall|key: ChunkProductionKeyView| #[trigger]
            once.states.dom().contains(key) implies keep_recent(least)(key, once.states[key]) by {}
        lemma_retained_all(once.states, keep_recent(least));
        let current = if swept.dom().contains(part.key) {
            swept[part.key]
        } else {
            fresh_state(total_parts, data_parts)
        };
        if accepts(current, part, total_parts, data_parts) {
            if swept.dom().contains(part.key) {
                assert(tracker.states.dom().contains(part.key));
                assert(current.parts.len() == current.total_parts);
            }
            assert(once.states.dom().contains(part.key));
            assert(!accepts(once.states[part.key], part, total_parts, data_parts));
        }
        assert(twice.states =~= once.states);
    }
}

/// After a part is taken in, no state is kept for a production below the horizon, and a
/// witness that was rebuilt or given up holds no parts any more. A part below the horizon
/// changes nothing, and a part for a witness that was dealt with is ignored.
pub proof fn finished_and_stale_states_are_evicted(
    tracker: TrackerState,
    part: PartialEncodedStateWitnessView,
    total_parts: usize,
    data_parts: usize,
)
    requires
        well_formed(tracker),
    ensures
        ({
            let after = store_step(tracker, part, total_parts, data_parts);
            &&& forall|key: ChunkProductionKeyView| #[trigger]
                after.0.states.dom().contains(key) ==> key.height_created >= horizon(
                    after.0.newest_height,
                    after.0.retention,
                )
            &&& after.1 is Reconstructed || after.1 is Failed ==> after.0.states.dom().contains(
                part.key,
            ) && after.0.states[part.key] == closed_state(total_parts, data_parts)
            &&& part.key.height_created < horizon(tracker.newest_height, tracker.retention)
                ==> after.0 == tracker && after.1 == StoreResult::Ignored
            &&& tracker.states.dom().contains(part.key) && tracker.states[part.key].complete
                ==> after.1 == StoreResult::Ignored
        }),
{
    store_keeps_well_formed(tracker, part, total_parts, data_parts);
}

/// A production is settled once its witness was rebuilt or given up, and stays so after
/// it has fallen below the horizon: no part of it is taken in any more.
pub open spec fn settled(tracker: TrackerState, key: ChunkProductionKeyView) -> bool {
    ||| tracker.states.dom().contains(key) && tracker.states[key].complete
    ||| key.height_created < horizon(tracker.newest_height, tracker.retention)
}

/// A witness is handed out at most once. The store that rebuilds a witness, or gives it
/// up, settles its production; whatever part is stored afterwards, of this production or
/// of another, the production stays settled; and a part of a settled production is
/// ignored.
pub proof fn witness_is_rebuilt_at_most_once(
    tracker: TrackerState,
    key: ChunkProductionKeyView,
    part: PartialEncodedStateWitnessView,
    total_parts: usize,
    data_parts: usize,
)
    requires
        well_formed(tracker),
    ensures
        ({
            let after = store_step(tracker, part, total_parts, data_parts);
            &&& after.1 is Reconstructed || after.1 is Failed ==> settled(after.0, part.key)
            &&& settled(tracker, key) ==> settled(after.0, key)
            &&& settled(tracker, part.key) ==> after.1 == StoreResult::Ignored
        }),
{
    let after = store_step(tracker, part, total_parts, data_parts);
    if part.key.height_created >= horizon(tracker.newest_height, tracker.retention) {
        let least = horizon(after.0.newest_height, tracker.retention);
        let swept = retained(tracker.states, keep_recent(least));
        if settled(tracker, key) && key.height_created >= least {
            assert(tracker.states.dom().contains(key));
            assert(keep_recent(least)(key, tracker.states[key]));
            assert(swept.dom().contains(key) && swept[key].complete);
        }
    }
}

struct TrackedWitness {
    key: ChunkProductionKey,
    total_parts: usize,
    data_parts: usize,
    parts: Vec<Option<Vec<u8>>>,
    complete: bool,
}

spec fn state_of(entry: TrackedWitness) -> ReconstructionState {
    ReconstructionState {
        total_parts: entry.total_parts,
        data_parts: entry.data_parts,
        parts: entry.parts.deep_view(),
        complete: entry.complete,
    }
}

spec fn pairs(entries: Seq<TrackedWitness>) -> Seq<(ChunkProductionKeyView, ReconstructionState)> {
    Seq::new(entries.len(), |i: int| (entries[i].key@, state_of(entries[i])))
}

spec fn sound(entries: Seq<TrackedWitness>, least_height: u64) -> bool {
    &&& distinct_keys(pairs(entries))
    &&& forall|i: int|
        0 <= i < entries.len() && !(#[trigger] entries[i]).complete ==> entries[i].parts.len()
            == entries[i].total_parts
    &&& forall|i: int|
        0 <= i < entries.len() ==> (#[trigger] entries[i]).key.height_created >= least_height
}

proof fn lemma_sound_is_well_formed(entries: Seq<TrackedWitness>, newest: u64, retention: u64)
    requires
        sound(entries, horizon(newest, retention)),
    ensures
        well_formed(
            TrackerState { states: as_map(pairs(entries)), newest_height: newest, retention },
        ),
{
    let tracker = TrackerState { states: as_map(pairs(entries)), newest_height: newest, retention };
    assert forall|key: ChunkProductionKeyView| #[trigger]
        tracker.states.dom().contains(key) implies key.height_created >= horizon(
        newest,
        retention,
    ) && (!tracker.states[key].complete ==> tracker.states[key].parts.len()
        == tracker.states[key].total_parts) by {
        let at = lemma_as_map_key(pairs(entries), key);
        assert(entries[at].key@ == key);
    }
}

/// The least height that is still kept, computed.
fn least_height(newest_height: u64, retention: u64) -> (least: u64)
    ensures
        least == horizon(newest_height, retention),
{
    if newest_height >= retention {
        newest_height - retention
    } else {
        0
    }
}

/// Place of the entry for `key`, if there is one.
fn find(entries: &Vec<TrackedWitness>, key: &ChunkProductionKey) -> (at: Option<usize>)
    ensures
        match at {
            Some(i) => i < entries.len() && entries[i as int].key@ == key@,
            None => !has_key(pairs(entries@), key@),
        },
{
    let mut i: usize = 0;
    while i < entries.len()
        invariant
            i <= entries.len(),
            forall|p: int| 0 <= p < i ==> (#[trigger] pairs(entries@)[p]).0 != key@,
        decreases entries.len() - i,
    {
        if entries[i].key.same_as(key) {
            return Some(i);
        }
        i += 1;
    }
    None
}

/// Takes out the entries whose height lies below `least_height`.
fn sweep(entries: &mut Vec<TrackedWitness>, least_height: u64, Ghost(was_least): Ghost<u64>)
    requires
        sound(old(entries)@, was_least),
    ensures
        sound(final(entries)@, least_height),
        as_map(pairs(final(entries)@)) == retained(
            as_map(pairs(old(entries)@)),
            keep_recent(least_height),
        ),
{
    let ghost keep = keep_recent(least_height);
    let ghost before = as_map(pairs(entries@));
    let mut i: usize = 0;
    while i < entries.len()
        invariant
            i <= entries.len(),
            keep == keep_recent(least_height),
            sound(entries@, was_least),
            retained(as_map(pairs(entries@)), keep) == retained(before, keep),
            forall|p: int|
                0 <= p < i ==> (#[trigger] entries[p]).key.height_created >= least_height,
        decreases entries.len() - i,
    {
        if entries[i].key.height_created < least_height {
            proof {
                let current = pairs(entries@);
                lemma_as_map_swap_remove(current, i as int);
                lemma_as_map_at(current, i as int);
                lemma_retained_remove_dropped(as_map(current), keep, current[i as int].0);
                assert(pairs(entries@.update(i as int, entries@.last()).drop_last())
                    =~= current.update(i as int, current.last()).drop_last());
            }
            entries.swap_remove(i);
        } else {
            i += 1;
        }
    }
    proof {
        let current = pairs(entries@);
        assert forall|key: ChunkProductionKeyView| #[trigger]
            as_map(current).dom().contains(key) implies keep(key, as_map(current)[key]) by {
            let at = lemma_as_map_key(current, key);
            assert(entries[at].key@ == key);
        }
        lemma_retained_all(as_map(current), keep);
    }
}

/// A list of `total_parts` places, all of them empty.
fn empty_parts(total_parts: usize) -> (parts: Vec<Option<Vec<u8>>>)
    ensures
        parts.len() == total_parts,
        parts.deep_view() == Seq::new(total_parts as nat, |i: int| None::<Seq<u8>>),
{
    let mut parts: Vec<Option<Vec<u8>>> = Vec::new();
    let mut i: usize = 0;
    while i < total_parts
        invariant
            i <= total_parts,
            parts.len() == i,
            forall|p: int| 0 <= p < i ==> (#[trigger] parts[p]) is None,
        decreases total_parts - i,
    {
        parts.push(None);
        i += 1;
    }
    assert(parts.deep_view() =~= Seq::new(total_parts as nat, |i: int| None::<Seq<u8>>));
    parts
}

/// Puts the part into the entry, and rebuilds the witness where the parts now suffice.
fn absorb(
    entry: TrackedWitness,
    part_ord: usize,
    part: Vec<u8>,
    encoded_length: usize,
    encoder: &WitnessEncoder,
    Ghost(given): Ghost<PartialEncodedStateWitnessView>,
) -> (r: (TrackedWitness, Result<StoreOutcome, DistributionError>))
    requires
        given.part_ord == part_ord,
        given.part == part@,
        given.encoded_length == encoded_length,
        !entry.complete,
        entry.parts.len() == entry.total_parts,
        part_ord < entry.total_parts,
        entry.total_parts == encoder.spec_total_parts(),
        entry.data_parts == encoder.spec_data_parts(),
    ensures
        r.0.key == entry.key,
        state_of(r.0) == absorbed(state_of(entry), given).0,
        outcome_matches(r.1, absorbed(state_of(entry), given).1),
        !r.0.complete ==> r.0.parts.len() == r.0.total_parts,
        forall|bytes: Seq<u8>|
            bytes.len() == encoded_length && count_present(
                with_part(state_of(entry), given).parts,
            ) >= entry.data_parts && encodes(
                entry.total_parts as nat,
                entry.data_parts as nat,
                bytes,
                #[trigger] encoded_parts(entry.total_parts as nat, entry.data_parts as nat, bytes),
            ) && agrees(
                with_part(state_of(entry), given).parts,
                encoded_parts(entry.total_parts as nat, entry.data_parts as nat, bytes),
            ) ==> absorbed(state_of(entry), given).1 == StoreResult::Reconstructed(bytes),
{
    let mut entry = entry;
    let ghost before = entry.parts.deep_view();
    proof {
        lemma_bytes_deep_view(part);
    }
    entry.parts.set(part_ord, Some(part));
    assert(entry.parts.deep_view() =~= before.update(part_ord as int, Some(given.part)));
    let count = count_parts(&entry.parts);
    if count < encoder.data_parts() {
        return (entry, Ok(StoreOutcome::Stored));
    }
    match encoder.decode(&entry.parts, encoded_length) {
        Ok(bytes) => {
            entry.parts = Vec::new();
            entry.complete = true;
            assert(entry.parts.deep_view() =~= Seq::empty());
            (entry, Ok(StoreOutcome::Reconstructed(bytes)))
        },
        Err(_) => {
            if count >= entry.total_parts {
                entry.parts = Vec::new();
                entry.complete = true;
                assert(entry.parts.deep_view() =~= Seq::empty());
                (entry, Err(DistributionError::CodecError))
            } else {
                (entry, Ok(StoreOutcome::Stored))
            }
        },
    }
}

/// Collects the parts of each witness, rebuilds the witness once enough distinct parts
/// are there, and forgets productions that lie too far behind the newest.
pub struct PartialEncodedStateWitnessTracker {
    retention: u64,
    newest_height: u64,
    entries: Vec<TrackedWitness>,
}

impl View for PartialEncodedStateWitnessTracker {
    type V = TrackerState;

    closed spec fn view(&self) -> TrackerState {
        TrackerState {
            states: as_map(pairs(self.entries@)),
            newest_height: self.newest_height,
            retention: self.retention,
        }
    }
}

impl PartialEncodedStateWitnessTracker {
    #[verifier::type_invariant]
    spec fn holds(self) -> bool {
        sound(self.entries@, horizon(self.newest_height, self.retention))
    }

    /// A tracker that holds nothing and keeps productions up to `retention` heights behind
    /// the newest.
    pub fn new(retention: u64) -> (tracker: PartialEncodedStateWitnessTracker)
        ensures
            tracker@ == (TrackerState {
                states: Map::<ChunkProductionKeyView, ReconstructionState>::empty(),
                newest_height: 0,
                retention,
            }),
            well_formed(tracker@),
    {
        proof {
            lemma_as_map_empty::<ChunkProductionKeyView, ReconstructionState>();
        }
        let tracker = PartialEncodedStateWitnessTracker {
            retention,
            newest_height: 0,
            entries: Vec::new(),
        };
        assert(pairs(tracker.entries@) =~= Seq::empty());
        tracker
    }

    /// The greatest height of any part that was taken in. The tracker is well formed at
    /// all times.
    pub fn newest_height(&self) -> (height: u64)
        ensures
            height == self@.newest_height,
            well_formed(self@),
    {
        proof {
            use_type_invariant(self);
            lemma_sound_is_well_formed(self.entries@, self.newest_height, self.retention);
        }
        self.newest_height
    }

    /// Number of parts kept for the production `key`, where its witness is still being
    /// collected.
    pub fn parts_received(&self, key: &ChunkProductionKey) -> (r: Option<usize>)
        ensures
            r == if self@.states.dom().contains(key@) && !self@.states[key@].complete {
                Some(count_present(self@.states[key@].parts) as usize)
            } else {
                None
            },
    {
        proof {
            use_type_invariant(self);
        }
        match find(&self.entries, key) {
            Some(i) => {
                proof {
                    lemma_as_map_at(pairs(self.entries@), i as int);
                }
                if self.entries[i].complete {
                    None
                } else {
                    Some(count_parts(&self.entries[i].parts))
                }
            },
            None => None,
        }
    }

    /// Whether the witness of the production `key` was dealt with and is remembered as
    /// such.
    pub fn is_complete(&self, key: &ChunkProductionKey) -> (r: bool)
        ensures
            r == (self@.states.dom().contains(key@) && self@.states[key@].complete),
    {
        proof {
            use_type_invariant(self);
        }
        match find(&self.entries, key) {
            Some(i) => {
                proof {
                    lemma_as_map_at(pairs(self.entries@), i as int);
                }
                self.entries[i].complete
            },
            None => false,
        }
    }

    /// Stores a part of a witness whose parts `encoder` is for. What is kept afterwards
    /// and what is returned is told by [`store_step`]: `Err(CodecError)` stands for its
    /// `Failed`. Whenever the part is taken in and with it enough parts of one encoding
    /// are at hand, the bytes that were encoded are rebuilt.
    pub fn store_partial_encoded_state_witness(
        &mut self,
        partial_witness: PartialEncodedStateWitness,
        encoder: &WitnessEncoder,
    ) -> (r: Result<StoreOutcome, DistributionError>)
        ensures
            final(self)@ == store_step(
                old(self)@,
                partial_witness@,
                encoder.spec_total_parts(),
                encoder.spec_data_parts(),
            ).0,
            outcome_matches(
                r,
                store_step(
                    old(self)@,
                    partial_witness@,
                    encoder.spec_total_parts(),
                    encoder.spec_data_parts(),
                ).1,
            ),
            well_formed(final(self)@),
            forall|bytes: Seq<u8>| #[trigger]
                completes(
                    old(self)@,
                    partial_witness@,
                    encoder.spec_total_parts(),
                    encoder.spec_data_parts(),
                    bytes,
                ) ==> store_step(
                    old(self)@,
                    partial_witness@,
                    encoder.spec_total_parts(),
                    encoder.spec_data_parts(),
                ).1 == StoreResult::Reconstructed(bytes),
    {
        proof {
            use_type_invariant(&*self);
            lemma_sound_is_well_formed(self.entries@, self.newest_height, self.retention);
        }
        let ghost given = partial_witness@;
        let height = partial_witness.key.height_created;
        let was_least = least_height(self.newest_height, self.retention);
        if height < was_least {
            return Ok(StoreOutcome::Ignored);
        }
        let newest = if height > self.newest_height {
            height
        } else {
            self.newest_height
        };
        let least = least_height(newest, self.retention);
        let total_parts = encoder.total_parts();
        let data_parts = encoder.data_parts();
        let mut entries: Vec<TrackedWitness> = Vec::new();
        proof {
            lemma_as_map_empty::<ChunkProductionKeyView, ReconstructionState>();
            assert(pairs(entries@) =~= Seq::empty());
        }
        core::mem::swap(&mut self.entries, &mut entries);
        self.newest_height = newest;
        sweep(&mut entries, least, Ghost(was_least));
        let ghost swept = pairs(entries@);
        let PartialEncodedStateWitness { key, part_ord, part, encoded_length } = partial_witness;
        let r = match find(&entries, &key) {
            Some(i) => {
                proof {
                    lemma_as_map_at(swept, i as int);
                }
                if entries[i].complete || entries[i].total_parts != total_parts
                    || entries[i].data_parts != data_parts || part_ord >= total_parts
                    || entries[i].parts[part_ord].is_some() {
                    Ok(StoreOutcome::Ignored)
                } else {
                    proof {
                        lemma_as_map_swap_remove(swept, i as int);
                        assert(pairs(entries@.update(i as int, entries@.last()).drop_last())
                            =~= swept.update(i as int, swept.last()).drop_last());
                    }
                    let entry = entries.swap_remove(i);
                    let ghost rest = pairs(entries@);
                    let (entry, outcome) = absorb(
                        entry,
                        part_ord,
                        part,
                        encoded_length,
                        encoder,
                        Ghost(given),
                    );
                    proof {
                        assert(!has_key(rest, key@)) by {
                            if has_key(rest, key@) {
                                assert(as_map(rest).dom().contains(key@));
                            }
                        }
                        lemma_as_map_push(rest, key@, state_of(entry));
                        assert(as_map(swept).remove(key@).insert(key@, state_of(entry))
                            =~= as_map(swept).insert(key@, state_of(entry)));
                    }
                    entries.push(entry);
                    assert(pairs(entries@) =~= rest.push((key@, state_of(entry))));
                    outcome
                }
            },
            None => {
                if part_ord >= total_parts {
                    Ok(StoreOutcome::Ignored)
                } else {
                    let entry = TrackedWitness {
                        key,
                        total_parts,
                        data_parts,
                        parts: empty_parts(total_parts),
                        complete: false,
                    };
                    let (entry, outcome) = absorb(
                        entry,
                        part_ord,
                        part,
                        encoded_length,
                        encoder,
                        Ghost(given),
                    );
                    proof {
                        lemma_as_map_push(swept, given.key, state_of(entry));
                    }
                    entries.push(entry);
                    assert(pairs(entries@) =~= swept.push((given.key, state_of(entry))));
                    outcome
                }
            },
        };
        proof {
            lemma_sound_is_well_formed(entries@, newest, self.retention);
        }
        core::mem::swap(&mut self.entries, &mut entries);
        r
    }
}

} // verus!
