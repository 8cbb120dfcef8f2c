//! The Reed-Solomon codec over GF(2^8) that the erasure coding rests on.
//!
//! The spec functions with a body describe shapes of shard lists. Everything else in this
//! file is a statement about the `reed-solomon-erasure` crate that the verifier takes on
//! trust: nothing here is proved.

use vstd::prelude::*;

verus! {

/// Largest number of shards, data and parity together, that the field GF(2^8) allows.
pub const MAX_SHARDS: usize = 256;

/// Every shard has length `len`.
pub open spec fn uniform(shards: Seq<Seq<u8>>, len: nat) -> bool {
    forall|i: int| 0 <= i < shards.len() ==> (#[trigger] shards[i]).len() == len
}

/// Every shard that is there has length `len`.
pub open spec fn uniform_present(shards: Seq<Option<Seq<u8>>>, len: nat) -> bool {
    forall|i: int|
        0 <= i < shards.len() && (#[trigger] shards[i]) is Some ==> shards[i]->0.len() == len
}

/// How many of the shards are there.
pub open spec fn count_present(shards: Seq<Option<Seq<u8>>>) -> nat
    decreases shards.len(),
{
    if shards.len() == 0 {
        0
    } else {
        count_present(shards.drop_last()) + if shards.last() is Some {
            1nat
        } else {
            0nat
        }
    }
}

/// The list of shards in which each shard of `full` is there.
pub open spec fn all_present(full: Seq<Seq<u8>>) -> Seq<Option<Seq<u8>>> {
    Seq::new(full.len(), |i: int| Some(full[i]))
}

/// `shards` has as many places as `full`, and each shard that is there is the one `full`
/// has in that place.
pub open spec fn agrees(shards: Seq<Option<Seq<u8>>>, full: Seq<Seq<u8>>) -> bool {
    &&& shards.len() == full.len()
    &&& forall|i: int|
        0 <= i < shards.len() && (#[trigger] shards[i]) is Some ==> shards[i]->0 == full[i]
}

/// A full list of shards that a codec for `data_shards` and `parity_shards` can complete:
/// the right number of shards, none empty, all of one length.
pub open spec fn encodable(data_shards: nat, parity_shards: nat, shards: Seq<Seq<u8>>) -> bool {
    &&& shards.len() == data_shards + parity_shards
    &&& shards.len() > 0
    &&& shards[0].len() > 0
    &&& uniform(shards, shards[0].len())
}

/// Data shards that a codec for `data_shards` takes: that many, none empty, all of one
/// length.
pub open spec fn well_formed_data(data_shards: nat, data: Seq<Seq<u8>>) -> bool {
    &&& data.len() == data_shards
    &&& data.len() > 0
    &&& data[0].len() > 0
    &&& uniform(data, data[0].len())
}

/// A list of shards, some of them missing, from which a codec for `data_shards` and
/// `parity_shards` can rebuild the missing ones: the right number of places, at least
/// `data_shards` shards there, none of them empty, all of one length.
pub open spec fn reconstructible(
    data_shards: nat,
    parity_shards: nat,
    shards: Seq<Option<Seq<u8>>>,
) -> bool {
    &&& shards.len() == data_shards + parity_shards
    &&& count_present(shards) >= data_shards
    &&& forall|i: int|
        0 <= i < shards.len() && (#[trigger] shards[i]) is Some ==> shards[i]->0.len() > 0
    &&& forall|i: int, j: int|
        0 <= i < shards.len() && 0 <= j < shards.len() && (#[trigger] shards[i]) is Some && (
        #[trigger] shards[j]) is Some ==> shards[i]->0.len() == shards[j]->0.len()
}

/// A Reed-Solomon encoder and decoder over GF(2^8), as `reed-solomon-erasure` builds it.
/// The verifier sees nothing inside it; what it was made for is told by
/// [`codec_data_shards`] and [`codec_parity_shards`].
#[verifier::external_body]
pub struct Codec {
    inner: reed_solomon_erasure::galois_8::ReedSolomon,
}

/// `reed_solomon_erasure::Error`, the reason for which the codec refuses its arguments.
/// It is carried, never read.
#[verifier::external_type_specification]
#[verifier::external_body]
pub struct ExCodecError(reed_solomon_erasure::Error);

/// Number of data shards that a codec was made for.
pub uninterp spec fn codec_data_shards(codec: Codec) -> nat;

/// Number of parity shards that a codec was made for.
pub uninterp spec fn codec_parity_shards(codec: Codec) -> nat;

/// The parity shards that a codec for `data_shards` and `parity_shards` computes from the
/// data shards `data`.
pub uninterp spec fn computed_parity(
    data_shards: nat,
    parity_shards: nat,
    data: Seq<Seq<u8>>,
) -> Seq<Seq<u8>>;

/// The full list of shards that a codec for `data_shards` and `parity_shards` rebuilds from
/// `shards`.
pub uninterp spec fn reconstructed_shards(
    data_shards: nat,
    parity_shards: nat,
    shards: Seq<Option<Seq<u8>>>,
) -> Seq<Seq<u8>>;

/// The data shards followed by the parity shards that the codec computes from them.
pub open spec fn codeword(data_shards: nat, parity_shards: nat, data: Seq<Seq<u8>>) -> Seq<
    Seq<u8>,
> {
    data + computed_parity(data_shards, parity_shards, data)
}

/// `ReedSolomon::new`: succeeds exactly when there is at least one data shard, at least one
/// parity shard and at most 256 shards in all; the codec remembers both counts.
#[verifier::external_body]
pub(crate) fn new_codec(data_shards: usize, parity_shards: usize) -> (r: Result<
    Codec,
    reed_solomon_erasure::Error,
>)
    requires
        data_shards + parity_shards <= usize::MAX,
    ensures
        r is Ok <==> (data_shards >= 1 && parity_shards >= 1 && data_shards + parity_shards
            <= MAX_SHARDS),
        r is Ok ==> codec_data_shards(r->Ok_0) == data_shards && codec_parity_shards(r->Ok_0)
            == parity_shards,
{
    match reed_solomon_erasure::galois_8::ReedSolomon::new(data_shards, parity_shards) {
        Ok(inner) => Ok(Codec { inner }),
        Err(e) => Err(e),
    }
}

/// `ReedSolomon::encode`: takes the full list of shards and overwrites the parity places.
/// It succeeds exactly when the list has one shard per place of the codec, none empty and
/// all of one length. The list keeps its number of places. On success the data shards are
/// as before and the parity places hold what the codec computes from the data shards;
/// every shard keeps its length. On failure nothing is changed.
#[verifier::external_body]
pub(crate) fn encode_parity(codec: &Codec, shards: &mut Vec<Vec<u8>>) -> (r: Result<
    (),
    reed_solomon_erasure::Error,
>)
    ensures
        r is Ok <==> encodable(
            codec_data_shards(*codec),
            codec_parity_shards(*codec),
            old(shards).deep_view(),
        ),
        final(shards).len() == old(shards).len(),
        r is Err ==> final(shards).deep_view() == old(shards).deep_view(),
        r is Ok ==> final(shards).deep_view() == old(shards).deep_view().subrange(
            0,
            codec_data_shards(*codec) as int,
        ) + computed_parity(
            codec_data_shards(*codec),
            codec_parity_shards(*codec),
            old(shards).deep_view().subrange(0, codec_data_shards(*codec) as int),
        ),
        r is Ok ==> uniform(final(shards).deep_view(), old(shards).deep_view()[0].len()),
{
    codec.inner.encode(shards)
}

/// `ReedSolomon::reconstruct`: fills the places of the missing shards. It succeeds exactly
/// when the list has one place per shard of the codec and at least as many shards are there
/// as the codec has data shards, none of them empty and all of one length. On failure
/// nothing is changed. On success every place is filled, the shards that were there are as
/// before, and all shards have one length. What is filled in depends on the codec's two
/// counts and the list alone. The last clause is the erasure code's defining property:
/// where the shards that were there are taken from the data shards and the parity that the
/// codec computes from them, the list is completed to exactly those.
#[verifier::external_body]
pub(crate) fn reconstruct(codec: &Codec, shards: &mut Vec<Option<Vec<u8>>>) -> (r: Result<
    (),
    reed_solomon_erasure::Error,
>)
    ensures
        r is Ok <==> reconstructible(
            codec_data_shards(*codec),
            codec_parity_shards(*codec),
            old(shards).deep_view(),
        ),
        r is Err ==> final(shards).deep_view() == old(shards).deep_view(),
        r is Ok ==> final(shards).deep_view() == all_present(
            reconstructed_shards(
                codec_data_shards(*codec),
                codec_parity_shards(*codec),
                old(shards).deep_view(),
            ),
        ),
        r is Ok ==> agrees(
            old(shards).deep_view(),
            reconstructed_shards(
                codec_data_shards(*codec),
                codec_parity_shards(*codec),
                old(shards).deep_view(),
            ),
        ),
        r is Ok ==> uniform(
            reconstructed_shards(
                codec_data_shards(*codec),
                codec_parity_shards(*codec),
                old(shards).deep_view(),
            ),
            reconstructed_shards(
                codec_data_shards(*codec),
                codec_parity_shards(*codec),
                old(shards).deep_view(),
            )[0].len(),
        ),
        r is Ok ==> forall|data: Seq<Seq<u8>>|
            well_formed_data(codec_data_shards(*codec), data) && agrees(
                old(shards).deep_view(),
                #[trigger] codeword(codec_data_shards(*codec), codec_parity_shards(*codec), data),
            ) ==> reconstructed_shards(
                codec_data_shards(*codec),
                codec_parity_shards(*codec),
                old(shards).deep_view(),
            ) == codeword(codec_data_shards(*codec), codec_parity_shards(*codec), data),
{
    codec.inner.reconstruct(shards)
}

} // verus!
