//! Splitting an encoded witness into erasure-coded parts and putting it together again.

use crate::bytes::copy_bytes;
use crate::error::DistributionError;
use crate::reed_solomon::{
    agrees, codec_data_shards, codec_parity_shards, codeword, count_present, encode_parity,
    new_codec, reconstruct, reconstructed_shards, uniform, uniform_present, well_formed_data,
    Codec, MAX_SHARDS,
};
use std::collections::HashMap;
use vstd::prelude::*;
use vstd::std_specs::hash::group_hash_axioms;

verus! {

/// Share of the parts, in hundredths, that carry data when nothing else is asked for.
pub const DEFAULT_DATA_PERCENT: u8 = 80;

/// Largest share of data parts, in hundredths, that leaves room for parity.
pub const MAX_DATA_PERCENT: u8 = 99;

/// Number of parts that carry data, out of `total_parts`: the given share, rounded down,
/// and at least one.
pub open spec fn num_data_parts(total_parts: nat, data_percent: nat) -> nat {
    if total_parts * data_percent / 100 < 1 {
        1
    } else {
        total_parts * data_percent / 100
    }
}

/// Length of each part when `encoded_length` bytes are spread over `data_parts` parts:
/// the quotient rounded up, and at least one byte.
pub open spec fn shard_length(encoded_length: nat, data_parts: nat) -> nat
    recommends
        data_parts > 0,
{
    if encoded_length == 0 {
        1
    } else {
        ((encoded_length - 1) / (data_parts as int) + 1) as nat
    }
}

/// `bytes` followed by zeros up to `size` bytes.
pub open spec fn padded(bytes: Seq<u8>, size: nat) -> Seq<u8> {
    bytes + Seq::new((size - bytes.len()) as nat, |i: int| 0u8)
}

/// The first `count` pieces of `len` bytes each that `bytes` falls into.
pub open spec fn split(bytes: Seq<u8>, count: nat, len: nat) -> Seq<Seq<u8>> {
    Seq::new(count, |i: int| bytes.subrange(i * len, (i + 1) * len))
}

/// The shards one after another.
pub open spec fn concat(shards: Seq<Seq<u8>>) -> Seq<u8>
    decreases shards.len(),
{
    if shards.len() == 0 {
        Seq::empty()
    } else {
        concat(shards.drop_last()) + shards.last()
    }
}

/// The data shards of `bytes`: the bytes, padded with zeros, cut into `data_parts` pieces
/// of equal length.
pub open spec fn data_shards_of(bytes: Seq<u8>, data_parts: nat) -> Seq<Seq<u8>> {
    split(
        padded(bytes, data_parts * shard_length(bytes.len(), data_parts)),
        data_parts,
        shard_length(bytes.len(), data_parts),
    )
}

/// The parts that `bytes` is encoded into. A single part is the bytes themselves; otherwise
/// the parts are the data shards followed by the parity that the codec computes from them.
pub open spec fn encoded_parts(total_parts: nat, data_parts: nat, bytes: Seq<u8>) -> Seq<Seq<u8>> {
    if total_parts == 1 {
        seq![bytes]
    } else {
        codeword(data_parts, (total_parts - data_parts) as nat, data_shards_of(bytes, data_parts))
    }
}

/// Length of each part of an encoded witness of `encoded_length` bytes: a single part
/// holds the witness; otherwise the witness is spread over the data parts.
pub open spec fn part_length_for(total_parts: nat, data_parts: nat, encoded_length: nat) -> nat {
    if total_parts == 1 {
        encoded_length
    } else {
        shard_length(encoded_length, data_parts)
    }
}

/// `parts` are the parts that `bytes` is encoded into, one per place and each of the
/// length that the number of bytes calls for.
pub open spec fn encodes(
    total_parts: nat,
    data_parts: nat,
    bytes: Seq<u8>,
    parts: Seq<Seq<u8>>,
) -> bool {
    &&& parts == encoded_parts(total_parts, data_parts, bytes)
    &&& parts.len() == total_parts
    &&& uniform(parts, part_length_for(total_parts, data_parts, bytes.len()))
}

/// Parts from which `encoded_length` bytes can be rebuilt: one place per part, at least
/// `data_parts` parts there, each of the length that `encoded_length` calls for.
pub open spec fn decodable(
    total_parts: nat,
    data_parts: nat,
    parts: Seq<Option<Seq<u8>>>,
    encoded_length: nat,
) -> bool {
    &&& parts.len() == total_parts
    &&& count_present(parts) >= data_parts
    &&& uniform_present(parts, part_length_for(total_parts, data_parts, encoded_length))
}

/// The bytes rebuilt from `parts`, where they can be rebuilt. A single part is the bytes
/// themselves; otherwise the codec completes the parts, and the first `encoded_length` bytes
/// of the data shards are the result.
pub open spec fn decoded(
    total_parts: nat,
    data_parts: nat,
    parts: Seq<Option<Seq<u8>>>,
    encoded_length: nat,
) -> Option<Seq<u8>> {
    if !decodable(total_parts, data_parts, parts, encoded_length) {
        None
    } else if total_parts == 1 {
        Some(parts[0]->0)
    } else {
        Some(
            concat(
                reconstructed_shards(
                    data_parts,
                    (total_parts - data_parts) as nat,
                    parts,
                ).subrange(0, data_parts as int),
            ).subrange(0, encoded_length as int),
        )
    }
}

/// Any parts of an encoding, so long as enough of them are there, can be decoded: they
/// stand at their places and have the length that the encoded length calls for.
pub proof fn parts_of_an_encoding_are_decodable(
    total_parts: nat,
    data_parts: nat,
    bytes: Seq<u8>,
    full: Seq<Seq<u8>>,
    parts: Seq<Option<Seq<u8>>>,
)
    requires
        encodes(total_parts, data_parts, bytes, full),
        agrees(parts, full),
        count_present(parts) >= data_parts,
    ensures
        decodable(total_parts, data_parts, parts, bytes.len()),
{
    assert forall|i: int|
        0 <= i < parts.len() && (#[trigger] parts[i]) is Some implies parts[i]->0.len()
        == part_length_for(total_parts, data_parts, bytes.len()) by {
        assert(full[i].len() == part_length_for(total_parts, data_parts, bytes.len()));
    }
}

/// Adding a place at the end adds one to the count where a shard is there.
pub proof fn lemma_count_present_push(shards: Seq<Option<Seq<u8>>>, shard: Option<Seq<u8>>)
    ensures
        count_present(shards.push(shard)) == count_present(shards) + if shard is Some {
            1nat
        } else {
            0nat
        },
{
    assert(shards.push(shard).drop_last() =~= shards);
}

/// Shards of one length, one after another, are as long as their number times that length.
pub proof fn lemma_concat_len(shards: Seq<Seq<u8>>, len: nat)
    requires
        uniform(shards, len),
    ensures
        concat(shards).len() == shards.len() * len,
    decreases shards.len(),
{
    if shards.len() > 0 {
        lemma_concat_len(shards.drop_last(), len);
        assert(shards.last().len() == len);
        assert((shards.len() - 1) * len + len == shards.len() * len) by (nonlinear_arith);
    } else {
        assert(0 * len == 0) by (nonlinear_arith);
    }
}

/// Adding a shard at the end appends its bytes.
pub proof fn lemma_concat_push(shards: Seq<Seq<u8>>, shard: Seq<u8>)
    ensures
        concat(shards.push(shard)) == concat(shards) + shard,
{
    assert(shards.push(shard).drop_last() =~= shards);
}

/// Cutting bytes into pieces and putting the pieces one after another gives the bytes back.
pub proof fn lemma_concat_split(bytes: Seq<u8>, count: nat, len: nat)
    requires
        count * len <= bytes.len(),
    ensures
        concat(split(bytes, count, len)) == bytes.subrange(0, (count * len) as int),
    decreases count,
{
    if count == 0 {
        assert(0 * len == 0) by (nonlinear_arith);
        assert(concat(split(bytes, count, len)) =~= bytes.subrange(0, 0));
    } else {
        let fewer = (count - 1) as nat;
        assert(fewer * len + len == count * len) by (nonlinear_arith)
            requires
                fewer + 1 == count,
        ;
        lemma_concat_split(bytes, fewer, len);
        assert(split(bytes, count, len).drop_last() =~= split(bytes, fewer, len));
        assert(split(bytes, count, len).last() == bytes.subrange(
            (fewer * len) as int,
            (count * len) as int,
        ));
        assert(bytes.subrange(0, (fewer * len) as int) + bytes.subrange(
            (fewer * len) as int,
            (count * len) as int,
        ) =~= bytes.subrange(0, (count * len) as int));
    }
}

/// The parts of a witness hold at least its bytes, and less than one part's length more
/// per data part.
pub proof fn lemma_shard_length_bounds(encoded_length: nat, data_parts: nat)
    requires
        data_parts > 0,
    ensures
        shard_length(encoded_length, data_parts) >= 1,
        data_parts * shard_length(encoded_length, data_parts) >= encoded_length,
        data_parts * shard_length(encoded_length, data_parts) <= encoded_length + data_parts,
        shard_length(encoded_length, data_parts) <= encoded_length + 1,
{
    if encoded_length == 0 {
        assert(data_parts * 1 == data_parts) by (nonlinear_arith);
    } else {
        let q = (encoded_length - 1) / (data_parts as int);
        let r = (encoded_length - 1) % (data_parts as int);
        assert(encoded_length - 1 == data_parts * q + r && 0 <= r < data_parts && q >= 0
            && q <= encoded_length - 1) by (nonlinear_arith)
            requires
                q == (encoded_length - 1) / (data_parts as int),
                r == (encoded_length - 1) % (data_parts as int),
                data_parts > 0,
                encoded_length >= 1,
        ;
        assert(data_parts * (q + 1) == data_parts * q + data_parts) by (nonlinear_arith);
    }
}

/// The data shards of a witness, one after another and cut to its length, are the witness.
pub proof fn lemma_data_shards_round_trip(bytes: Seq<u8>, data_parts: nat)
    requires
        data_parts > 0,
    ensures
        well_formed_data(data_parts, data_shards_of(bytes, data_parts)),
        uniform(data_shards_of(bytes, data_parts), shard_length(bytes.len(), data_parts)),
        concat(data_shards_of(bytes, data_parts)).subrange(0, bytes.len() as int) == bytes,
{
    let len = shard_length(bytes.len(), data_parts);
    let size = data_parts * len;
    lemma_shard_length_bounds(bytes.len(), data_parts);
    let whole = padded(bytes, size);
    assert(whole.len() == size);
    let shards = data_shards_of(bytes, data_parts);
    assert forall|i: int| 0 <= i < shards.len() implies (#[trigger] shards[i]).len() == len by {
        assert(0 <= i * len && (i + 1) * len <= data_parts * len && (i + 1) * len - i * len == len)
            by (nonlinear_arith)
            requires
                0 <= i < data_parts,
        ;
    }
    lemma_concat_split(whole, data_parts, len);
    assert(whole.subrange(0, size as int).subrange(0, bytes.len() as int) =~= bytes);
}

/// A byte vector's deep view is its view.
pub proof fn lemma_bytes_deep_view(bytes: Vec<u8>)
    ensures
        bytes.deep_view() == bytes@,
{
    assert(bytes.deep_view() =~= bytes@);
}

/// The shards of a list in which every shard is there.
pub open spec fn unwrapped(shards: Seq<Option<Seq<u8>>>) -> Seq<Seq<u8>> {
    Seq::new(shards.len(), |i: int| shards[i]->0)
}

/// Copies a list of parts.
fn copy_parts(parts: &Vec<Option<Vec<u8>>>) -> (out: Vec<Option<Vec<u8>>>)
    ensures
        out.deep_view() == parts.deep_view(),
{
    let mut out: Vec<Option<Vec<u8>>> = Vec::new();
    let mut i: usize = 0;
    while i < parts.len()
        invariant
            i <= parts.len(),
            out.len() == i,
            forall|p: int| 0 <= p < i ==> (#[trigger] out[p]).deep_view() == parts[p].deep_view(),
        decreases parts.len() - i,
    {
        let copy = match &parts[i] {
            Some(bytes) => {
                let copied = copy_bytes(bytes);
                proof {
                    lemma_bytes_deep_view(*bytes);
                    lemma_bytes_deep_view(copied);
                }
                Some(copied)
            },
            None => None,
        };
        out.push(copy);
        i += 1;
    }
    assert(out.deep_view() =~= parts.deep_view());
    out
}

/// Counts the parts that are there.
pub(crate) fn count_parts(parts: &Vec<Option<Vec<u8>>>) -> (count: usize)
    ensures
        count == count_present(parts.deep_view()),
        count <= parts.len(),
{
    let mut count: usize = 0;
    let mut i: usize = 0;
    while i < parts.len()
        invariant
            i <= parts.len(),
            count <= i,
            count == count_present(parts.deep_view().subrange(0, i as int)),
        decreases parts.len() - i,
    {
        proof {
            lemma_count_present_push(
                parts.deep_view().subrange(0, i as int),
                parts.deep_view()[i as int],
            );
            assert(parts.deep_view().subrange(0, i as int).push(parts.deep_view()[i as int])
                =~= parts.deep_view().subrange(0, i + 1));
        }
        if parts[i].is_some() {
            count += 1;
        }
        i += 1;
    }
    assert(parts.deep_view().subrange(0, parts.len() as int) =~= parts.deep_view());
    count
}

/// Counts the parts that are there, provided that each of them has length `len`.
fn count_parts_of_length(parts: &Vec<Option<Vec<u8>>>, len: usize) -> (count: Option<usize>)
    ensures
        count is Some <==> uniform_present(parts.deep_view(), len as nat),
        count is Some ==> count->0 == count_present(parts.deep_view()),
{
    let mut count: usize = 0;
    let mut i: usize = 0;
    while i < parts.len()
        invariant
            i <= parts.len(),
            count <= i,
            count == count_present(parts.deep_view().subrange(0, i as int)),
            uniform_present(parts.deep_view().subrange(0, i as int), len as nat),
        decreases parts.len() - i,
    {
        let ghost before = parts.deep_view().subrange(0, i as int);
        proof {
            lemma_count_present_push(before, parts.deep_view()[i as int]);
            assert(before.push(parts.deep_view()[i as int]) =~= parts.deep_view().subrange(
                0,
                i + 1,
            ));
        }
        match &parts[i] {
            Some(bytes) => {
                proof {
                    lemma_bytes_deep_view(*bytes);
                }
                if bytes.len() != len {
                    assert(parts.deep_view()[i as int] is Some);
                    assert(parts.deep_view()[i as int]->0.len() != len);
                    return None;
                }
                count += 1;
            },
            None => {},
        }
        i += 1;
    }
    assert(parts.deep_view().subrange(0, parts.len() as int) =~= parts.deep_view());
    Some(count)
}

/// Cuts `bytes`, padded with zeros, into `count` shards of `len` bytes each.
fn split_into_shards(bytes: &Vec<u8>, count: usize, len: usize) -> (shards: Vec<Vec<u8>>)
    requires
        count * len <= usize::MAX,
        bytes.len() <= count * len,
    ensures
        shards.deep_view() == split(padded(bytes@, (count * len) as nat), count as nat, len as nat),
{
    let ghost whole = padded(bytes@, (count * len) as nat);
    let mut shards: Vec<Vec<u8>> = Vec::new();
    let mut i: usize = 0;
    while i < count
        invariant
            i <= count,
            shards.len() == i,
            count * len <= usize::MAX,
            bytes.len() <= count * len,
            whole == padded(bytes@, (count * len) as nat),
            forall|p: int|
                0 <= p < i ==> (#[trigger] shards[p])@ == whole.subrange(p * len, (p + 1) * len),
        decreases count - i,
    {
        assert(0 <= i * len && (i + 1) * len <= count * len && (i + 1) * len == i * len + len)
            by (nonlinear_arith)
            requires
                0 <= i < count,
        ;
        let base: usize = i * len;
        let mut shard: Vec<u8> = Vec::new();
        let mut j: usize = 0;
        while j < len
            invariant
                j <= len,
                base + len <= count * len,
                count * len <= usize::MAX,
                bytes.len() <= count * len,
                whole == padded(bytes@, (count * len) as nat),
                shard@ == whole.subrange(base as int, base + j),
            decreases len - j,
        {
            let at: usize = base + j;
            let byte: u8 = if at < bytes.len() {
                bytes[at]
            } else {
                0
            };
            shard.push(byte);
            j += 1;
            assert(shard@ =~= whole.subrange(base as int, base + j));
        }
        shards.push(shard);
        i += 1;
    }
    proof {
        assert forall|p: int| 0 <= p < count implies (#[trigger] shards.deep_view()[p])
            == whole.subrange(p * len, (p + 1) * len) by {
            lemma_bytes_deep_view(shards[p]);
        }
        assert(shards.deep_view() =~= split(whole, count as nat, len as nat));
    }
    shards
}

/// Puts the first `count` shards one after another and keeps the first `keep` bytes.
fn join_shards(shards: &Vec<Option<Vec<u8>>>, count: usize, keep: usize, Ghost(len): Ghost<
    nat,
>) -> (out: Vec<u8>)
    requires
        count <= shards.len(),
        forall|i: int| 0 <= i < shards.len() ==> (#[trigger] shards[i]) is Some,
        uniform_present(shards.deep_view(), len),
        keep <= count * len,
    ensures
        out@ == concat(unwrapped(shards.deep_view()).subrange(0, count as int)).subrange(
            0,
            keep as int,
        ),
{
    let ghost full = unwrapped(shards.deep_view());
    let mut out: Vec<u8> = Vec::new();
    let mut i: usize = 0;
    while i < count
        invariant
            i <= count,
            count <= shards.len(),
            forall|p: int| 0 <= p < shards.len() ==> (#[trigger] shards[p]) is Some,
            full == unwrapped(shards.deep_view()),
            out@ == concat(full.subrange(0, i as int)),
        decreases count - i,
    {
        match &shards[i] {
            Some(bytes) => {
                proof {
                    lemma_bytes_deep_view(*bytes);
                    lemma_concat_push(full.subrange(0, i as int), full[i as int]);
                    assert(full.subrange(0, i as int).push(full[i as int]) =~= full.subrange(
                        0,
                        i + 1,
                    ));
                    assert(full[i as int] == bytes@);
                }
                out.extend_from_slice(bytes.as_slice());
            },
            None => {},
        }
        i += 1;
    }
    proof {
        let chosen = full.subrange(0, count as int);
        assert forall|p: int| 0 <= p < chosen.len() implies (#[trigger] chosen[p]).len()
            == len by {
            assert(shards.deep_view()[p] is Some);
        }
        lemma_concat_len(chosen, len);
    }
    out.truncate(keep);
    out
}

/// The number of data parts among `total_parts`, computed.
fn data_parts_among(total_parts: usize, data_percent: u8) -> (data_parts: usize)
    requires
        total_parts <= MAX_SHARDS,
    ensures
        data_parts == num_data_parts(total_parts as nat, data_percent as nat),
{
    assert(total_parts * data_percent <= 256 * 255) by (nonlinear_arith)
        requires
            total_parts <= 256,
            data_percent <= 255,
    ;
    let percent: usize = data_percent as usize;
    let scaled: usize = total_parts * percent / 100;
    if scaled < 1 {
        1
    } else {
        scaled
    }
}

/// The length of each part, computed.
fn part_length(encoded_length: usize, data_parts: usize) -> (len: usize)
    requires
        data_parts > 0,
    ensures
        len == shard_length(encoded_length as nat, data_parts as nat),
{
    proof {
        lemma_shard_length_bounds(encoded_length as nat, data_parts as nat);
    }
    if encoded_length == 0 {
        1
    } else {
        (encoded_length - 1) / data_parts + 1
    }
}

/// A vector of `len` zero bytes.
fn zeros(len: usize) -> (out: Vec<u8>)
    ensures
        out@.len() == len,
        forall|i: int| 0 <= i < len ==> out@[i] == 0u8,
{
    let mut out: Vec<u8> = Vec::new();
    let mut i: usize = 0;
    while i < len
        invariant
            i <= len,
            out@.len() == i,
            forall|p: int| 0 <= p < i ==> out@[p] == 0u8,
        decreases len - i,
    {
        out.push(0u8);
        i += 1;
    }
    out
}

/// Where at least one shard is there, some place holds one.
proof fn lemma_count_present_positive(shards: Seq<Option<Seq<u8>>>)
    requires
        count_present(shards) >= 1,
    ensures
        exists|w: int| 0 <= w < shards.len() && (#[trigger] shards[w]) is Some,
    decreases shards.len(),
{
    if shards.len() > 0 {
        if shards.last() is Some {
            assert(shards[shards.len() - 1] is Some);
        } else {
            lemma_count_present_positive(shards.drop_last());
            let w = choose|w: int|
                0 <= w < shards.drop_last().len() && (#[trigger] shards.drop_last()[w]) is Some;
            assert(shards[w] is Some);
        }
    }
}

/// Encoder and decoder for a fixed number of parts, one per validator.
///
/// With a single part the part is the witness itself. With more, some parts carry the
/// witness and the others carry parity, so that any `data_parts` of them suffice to rebuild
/// it.
pub struct WitnessEncoder {
    total_parts: usize,
    data_parts: usize,
    codec: Option<Codec>,
}

impl WitnessEncoder {
    #[verifier::type_invariant]
    spec fn well_formed(self) -> bool {
        &&& 1 <= self.data_parts <= self.total_parts <= MAX_SHARDS
        &&& self.total_parts == 1 ==> self.codec is None
        &&& self.total_parts >= 2 ==> {
            &&& self.codec is Some
            &&& self.data_parts < self.total_parts
            &&& codec_data_shards(self.codec->0) == self.data_parts
            &&& codec_parity_shards(self.codec->0) == self.total_parts - self.data_parts
        }
    }

    /// Number of parts that a witness is encoded into.
    pub closed spec fn spec_total_parts(&self) -> usize {
        self.total_parts
    }

    /// Number of parts that suffice to rebuild a witness.
    pub closed spec fn spec_data_parts(&self) -> usize {
        self.data_parts
    }

    /// An encoder for `total_parts` parts of which the share `data_percent`, in hundredths,
    /// carries data. There is none for no parts, for more than 256 parts, or for a share
    /// that leaves no room for parity.
    pub fn new(total_parts: usize, data_percent: u8) -> (r: Option<WitnessEncoder>)
        ensures
            r is Some <==> 1 <= total_parts <= MAX_SHARDS && data_percent <= MAX_DATA_PERCENT,
            r is Some ==> r->0.spec_total_parts() == total_parts,
            r is Some ==> r->0.spec_data_parts() == num_data_parts(
                total_parts as nat,
                data_percent as nat,
            ),
            r is Some ==> 1 <= r->0.spec_data_parts() <= total_parts,
    {
        if total_parts < 1 || total_parts > MAX_SHARDS || data_percent > MAX_DATA_PERCENT {
            return None;
        }
        let data_parts = data_parts_among(total_parts, data_percent);
        assert(total_parts * data_percent / 100 < total_parts) by (nonlinear_arith)
            requires
                total_parts >= 1,
                data_percent <= 99,
        ;
        if total_parts == 1 {
            return Some(WitnessEncoder { total_parts, data_parts, codec: None });
        }
        match new_codec(data_parts, total_parts - data_parts) {
            Ok(codec) => Some(WitnessEncoder { total_parts, data_parts, codec: Some(codec) }),
            Err(_) => None,
        }
    }

    /// Number of parts that a witness is encoded into.
    #[verifier::when_used_as_spec(spec_total_parts)]
    pub fn total_parts(&self) -> (n: usize)
        ensures
            n == self.spec_total_parts() as nat,
            1 <= n <= MAX_SHARDS,
    {
        proof {
            use_type_invariant(self);
        }
        self.total_parts
    }

    /// Number of parts that suffice to rebuild a witness.
    #[verifier::when_used_as_spec(spec_data_parts)]
    pub fn data_parts(&self) -> (n: usize)
        ensures
            n == self.spec_data_parts() as nat,
            1 <= n <= self.spec_total_parts() as nat,
    {
        proof {
            use_type_invariant(self);
        }
        self.data_parts
    }

    /// Encodes `bytes` into one part per validator and returns the parts with the number of
    /// bytes encoded. Every part is there, and all parts have one length.
    pub fn encode(&self, bytes: &Vec<u8>) -> (r: (Vec<Vec<u8>>, usize))
        requires
            bytes.len() + MAX_SHARDS <= usize::MAX,
        ensures
            r.0.deep_view() == encoded_parts(
                self.spec_total_parts() as nat,
                self.spec_data_parts() as nat,
                bytes@,
            ),
            r.0.len() == self.spec_total_parts() as nat,
            r.1 == bytes.len(),
            encodes(
                self.spec_total_parts() as nat,
                self.spec_data_parts() as nat,
                bytes@,
                r.0.deep_view(),
            ),
    {
        proof {
            use_type_invariant(self);
        }
        let encoded_length = bytes.len();
        match &self.codec {
            None => {
                let mut parts: Vec<Vec<u8>> = Vec::new();
                let whole = copy_bytes(bytes);
                proof {
                    lemma_bytes_deep_view(whole);
                }
                parts.push(whole);
                assert(parts.deep_view() =~= seq![bytes@]);
                (parts, encoded_length)
            },
            Some(codec) => {
                let len = part_length(encoded_length, self.data_parts);
                proof {
                    lemma_shard_length_bounds(encoded_length as nat, self.data_parts as nat);
                }
                let mut shards = split_into_shards(bytes, self.data_parts, len);
                let ghost data = shards.deep_view();
                proof {
                    lemma_data_shards_round_trip(bytes@, self.data_parts as nat);
                }
                let mut i: usize = self.data_parts;
                while i < self.total_parts
                    invariant
                        self.data_parts <= i <= self.total_parts,
                        shards.len() == i,
                        len >= 1,
                        data.len() == self.data_parts,
                        shards.deep_view().subrange(0, self.data_parts as int) == data,
                        uniform(data, len as nat),
                        uniform(shards.deep_view(), len as nat),
                    decreases self.total_parts - i,
                {
                    let ghost before = shards.deep_view();
                    let blank: Vec<u8> = zeros(len);
                    proof {
                        lemma_bytes_deep_view(blank);
                    }
                    shards.push(blank);
                    i += 1;
                    proof {
                        assert(shards.deep_view() =~= before.push(blank@));
                        assert(shards.deep_view().subrange(0, self.data_parts as int)
                            =~= before.subrange(0, self.data_parts as int));
                    }
                }
                assert(shards.deep_view()[0].len() == len);
                let done = encode_parity(codec, &mut shards);
                assert(done is Ok);
                (shards, encoded_length)
            },
        }
    }

    /// Rebuilds the encoded bytes from the parts at hand.
    ///
    /// Fails with `CodecError` unless the list has one place per part, at least
    /// `data_parts` parts are there, and each has the length that `encoded_length` calls
    /// for. Whenever at least `data_parts` of the parts that `bytes` was encoded into are
    /// at hand, the result is `bytes`, whichever parts they are.
    pub fn decode(&self, parts: &Vec<Option<Vec<u8>>>, encoded_length: usize) -> (r: Result<
        Vec<u8>,
        DistributionError,
    >)
        ensures
            match r {
                Ok(bytes) => decoded(
                    self.spec_total_parts() as nat,
                    self.spec_data_parts() as nat,
                    parts.deep_view(),
                    encoded_length as nat,
                ) == Some(bytes@),
                Err(e) => e == DistributionError::CodecError && decoded(
                    self.spec_total_parts() as nat,
                    self.spec_data_parts() as nat,
                    parts.deep_view(),
                    encoded_length as nat,
                ) is None,
            },
            forall|bytes: Seq<u8>|
                bytes.len() == encoded_length && count_present(parts.deep_view())
                    >= self.spec_data_parts() && encodes(
                    self.spec_total_parts() as nat,
                    self.spec_data_parts() as nat,
                    bytes,
                    #[trigger] encoded_parts(
                        self.spec_total_parts() as nat,
                        self.spec_data_parts() as nat,
                        bytes,
                    ),
                ) && agrees(
                    parts.deep_view(),
                    encoded_parts(
                        self.spec_total_parts() as nat,
                        self.spec_data_parts() as nat,
                        bytes,
                    ),
                ) ==> r is Ok && r->Ok_0@ == bytes,
    {
        proof {
            use_type_invariant(self);
            assert forall|bytes: Seq<u8>|
                bytes.len() == encoded_length && count_present(parts.deep_view())
                    >= self.spec_data_parts() && encodes(
                    self.spec_total_parts() as nat,
                    self.spec_data_parts() as nat,
                    bytes,
                    #[trigger] encoded_parts(
                        self.spec_total_parts() as nat,
                        self.spec_data_parts() as nat,
                        bytes,
                    ),
                ) && agrees(
                    parts.deep_view(),
                    encoded_parts(
                        self.spec_total_parts() as nat,
                        self.spec_data_parts() as nat,
                        bytes,
                    ),
                ) implies decodable(
                self.spec_total_parts() as nat,
                self.spec_data_parts() as nat,
                parts.deep_view(),
                encoded_length as nat,
            ) by {
                parts_of_an_encoding_are_decodable(
                    self.spec_total_parts() as nat,
                    self.spec_data_parts() as nat,
                    bytes,
                    encoded_parts(
                        self.spec_total_parts() as nat,
                        self.spec_data_parts() as nat,
                        bytes,
                    ),
                    parts.deep_view(),
                );
            }
        }
        if parts.len() != self.total_parts {
            return Err(DistributionError::CodecError);
        }
        let len = match &self.codec {
            None => encoded_length,
            Some(_) => part_length(encoded_length, self.data_parts),
        };
        let count = match count_parts_of_length(parts, len) {
            Some(count) => count,
            None => {
                return Err(DistributionError::CodecError);
            },
        };
        if count < self.data_parts {
            return Err(DistributionError::CodecError);
        }
        match &self.codec {
            None => {
                proof {
                    assert(parts.deep_view() =~= seq![parts.deep_view()[0]]);
                    assert(parts.deep_view().drop_last() =~= Seq::empty());
                    assert(count_present(parts.deep_view().drop_last()) == 0);
                }
                match &parts[0] {
                    Some(whole) => {
                        let bytes = copy_bytes(whole);
                        proof {
                            lemma_bytes_deep_view(*whole);
                        }
                        Ok(bytes)
                    },
                    None => Err(DistributionError::CodecError),
                }
            },
            Some(codec) => {
                let mut shards = copy_parts(parts);
                let ghost given = parts.deep_view();
                let ghost k = self.data_parts as nat;
                let ghost m = (self.total_parts - self.data_parts) as nat;
                proof {
                    lemma_shard_length_bounds(encoded_length as nat, k);
                }
                let done = reconstruct(codec, &mut shards);
                let ghost full = reconstructed_shards(k, m, given);
                proof {
                    assert(done is Ok);
                    lemma_count_present_positive(given);
                    let w = choose|w: int| 0 <= w < given.len() && given[w] is Some;
                    assert(full[w] == given[w]->0);
                    assert(full[w].len() == len);
                    assert(full[0].len() == len);
                    assert(uniform(full, len as nat));
                    assert(unwrapped(shards.deep_view()) =~= full);
                    assert forall|i: int| 0 <= i < shards.len() implies (#[trigger] shards[i])
                        is Some by {
                        assert(shards.deep_view()[i] is Some);
                    }
                }
                let bytes = join_shards(
                    &shards,
                    self.data_parts,
                    encoded_length,
                    Ghost(len as nat),
                );
                proof {
                    assert forall|source: Seq<u8>|
                        source.len() == encoded_length && agrees(
                            given,
                            #[trigger] encoded_parts(
                                self.spec_total_parts() as nat,
                                self.spec_data_parts() as nat,
                                source,
                            ),
                        ) implies bytes@ == source by {
                        let data = data_shards_of(source, k);
                        lemma_data_shards_round_trip(source, k);
                        assert(encoded_parts(self.spec_total_parts() as nat, k, source) == codeword(
                            k,
                            m,
                            data,
                        ));
                        assert(full == codeword(k, m, data));
                        assert(full.subrange(0, k as int) =~= data);
                    }
                }
                Ok(bytes)
            },
        }
    }
}

/// Encoders kept for reuse, one per number of parts: building one is costly, and the
/// number of validators takes few values.
pub struct WitnessEncoderCache {
    data_percent: u8,
    instances: HashMap<usize, WitnessEncoder>,
}

impl WitnessEncoderCache {
    #[verifier::type_invariant]
    spec fn well_formed(self) -> bool {
        &&& self.data_percent <= MAX_DATA_PERCENT
        &&& forall|n: usize| #[trigger]
            self.instances@.contains_key(n) ==> self.instances@[n].spec_total_parts() == n
                && self.instances@[n].spec_data_parts() == num_data_parts(
                n as nat,
                self.data_percent as nat,
            )
    }

    /// Share of the parts, in hundredths, that carry data.
    pub closed spec fn spec_data_percent(&self) -> u8 {
        self.data_percent
    }

    /// The numbers of parts for which an encoder is kept.
    pub closed spec fn cached(&self) -> Set<nat> {
        Set::new(|n: nat| n <= usize::MAX && self.instances@.contains_key(n as usize))
    }

    /// An empty cache whose encoders give the default share of the parts to data.
    pub fn new() -> (cache: WitnessEncoderCache)
        ensures
            cache.spec_data_percent() == DEFAULT_DATA_PERCENT,
            cache.cached() == Set::<nat>::empty(),
    {
        let cache = WitnessEncoderCache {
            data_percent: DEFAULT_DATA_PERCENT,
            instances: HashMap::new(),
        };
        assert(cache.cached() =~= Set::<nat>::empty());
        cache
    }

    /// An empty cache whose encoders give the share `data_percent`, in hundredths, to data;
    /// none where that share leaves no room for parity.
    pub fn with_data_percent(data_percent: u8) -> (r: Option<WitnessEncoderCache>)
        ensures
            r is Some <==> data_percent <= MAX_DATA_PERCENT,
            r is Some ==> r->0.spec_data_percent() == data_percent,
            r is Some ==> r->0.cached() == Set::<nat>::empty(),
    {
        if data_percent > MAX_DATA_PERCENT {
            return None;
        }
        let cache = WitnessEncoderCache { data_percent, instances: HashMap::new() };
        assert(cache.cached() =~= Set::<nat>::empty());
        Some(cache)
    }

    /// Share of the parts, in hundredths, that carry data.
    #[verifier::when_used_as_spec(spec_data_percent)]
    pub fn data_percent(&self) -> (p: u8)
        ensures
            p == self.spec_data_percent(),
            p <= MAX_DATA_PERCENT,
    {
        proof {
            use_type_invariant(self);
        }
        self.data_percent
    }

    /// The encoder for `total_parts` parts, built on first use and kept. There is none for
    /// no parts or for more than 256.
    pub fn entry(&mut self, total_parts: usize) -> (r: Option<&WitnessEncoder>)
        ensures
            r is Some <==> 1 <= total_parts <= MAX_SHARDS,
            r is Some ==> r->0.spec_total_parts() == total_parts,
            r is Some ==> r->0.spec_data_parts() == num_data_parts(
                total_parts as nat,
                old(self).spec_data_percent() as nat,
            ),
            final(self).spec_data_percent() == old(self).spec_data_percent(),
            r is Some ==> final(self).cached() == old(self).cached().insert(total_parts as nat),
            r is None ==> final(self).cached() == old(self).cached(),
    {
        broadcast use group_hash_axioms;

        proof {
            use_type_invariant(&*self);
        }
        if !self.instances.contains_key(&total_parts) {
            match WitnessEncoder::new(total_parts, self.data_percent) {
                None => {
                    return None;
                },
                Some(encoder) => {
                    let ghost before = *self;
                    let mut instances: HashMap<usize, WitnessEncoder> = HashMap::new();
                    core::mem::swap(&mut self.instances, &mut instances);
                    instances.insert(total_parts, encoder);
                    core::mem::swap(&mut self.instances, &mut instances);
                    assert(self.cached() =~= before.cached().insert(total_parts as nat));
                },
            }
        } else {
            assert(self.cached() =~= self.cached().insert(total_parts as nat));
        }
        proof {
            use_type_invariant(&*self);
        }
        match self.instances.get(&total_parts) {
            Some(encoder) => {
                // Reading the count tells that it is one for which a codec exists.
                let _ = encoder.total_parts();
                Some(encoder)
            },
            None => None,
        }
    }
}

} // verus!
