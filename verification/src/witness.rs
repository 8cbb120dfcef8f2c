//! Compressing a witness for transport and unpacking it again.
//!
//! The witness itself is a value of `near-primitives` that this library only carries. The
//! two functions marked as trusted call into that crate; what is said of them is believed,
//! not proved.

use crate::error::DistributionError;
use vstd::prelude::*;

verus! {

/// `ChunkStateWitness` of `near-primitives`: what a validator needs to check a chunk. It is
/// carried, never read.
#[verifier::external_type_specification]
#[verifier::external_body]
pub struct ExChunkStateWitness(near_primitives::stateless_validation::ChunkStateWitness);

/// `std::io::Error`, with which serializing and compressing fail. It is carried, never
/// read.
#[verifier::external_type_specification]
#[verifier::external_body]
pub struct ExIoError(std::io::Error);

/// A witness serialized and compressed, with the size it had before compression.
#[derive(Debug)]
pub struct EncodedChunkStateWitness {
    /// The compressed bytes.
    pub bytes: Vec<u8>,
    /// Size in bytes of the serialized witness before compression.
    pub raw_size: usize,
}

/// A witness rebuilt from its parts, with the size of its serialization.
pub struct ReconstructedWitness {
    /// The witness.
    pub witness: near_primitives::stateless_validation::ChunkStateWitness,
    /// Size in bytes of the serialized witness before compression.
    pub raw_size: usize,
}

/// The witness that the compressed bytes unpack to, with the size of its serialization;
/// nothing where the bytes are no compressed witness.
pub uninterp spec fn unpacked(bytes: Seq<u8>) -> Option<
    (near_primitives::stateless_validation::ChunkStateWitness, usize),
>;

/// The compressed serialization of a witness, with the size of the serialization before
/// compression; nothing where the witness cannot be serialized.
pub uninterp spec fn packed(
    witness: near_primitives::stateless_validation::ChunkStateWitness,
) -> Option<(Seq<u8>, usize)>;

/// `EncodedChunkStateWitness::encode`: serializes the witness and compresses the result;
/// returns the compressed bytes and the size before compression. Whether it succeeds and
/// what it returns depend on the witness alone: it fails only where the witness cannot
/// be serialized.
#[verifier::external_body]
fn encode_witness(witness: &near_primitives::stateless_validation::ChunkStateWitness) -> (r: Result<
    (Vec<u8>, usize),
    std::io::Error,
>)
    ensures
        r is Ok <==> packed(*witness) is Some,
        r is Ok ==> packed(*witness) == Some((r->Ok_0.0@, r->Ok_0.1)),
{
    match near_primitives::stateless_validation::EncodedChunkStateWitness::encode(witness) {
        Ok((encoded, raw_size)) => Ok((encoded.as_slice().to_vec(), raw_size)),
        Err(e) => Err(e),
    }
}

/// `EncodedChunkStateWitness::decode`: decompresses the bytes and reads a witness from
/// them. Whether it succeeds and what it returns depend on the bytes alone.
#[verifier::external_body]
fn decode_witness(bytes: &Vec<u8>) -> (r: Result<
    (near_primitives::stateless_validation::ChunkStateWitness, usize),
    std::io::Error,
>)
    ensures
        r is Ok <==> unpacked(bytes@) is Some,
        r is Ok ==> unpacked(bytes@) == Some(r->Ok_0),
{
    near_primitives::stateless_validation::EncodedChunkStateWitness::from_boxed_slice(
        bytes.clone().into_boxed_slice(),
    ).decode()
}

/// The encoded witness that an attempt to serialize and compress comes to.
pub open spec fn packed_from(encoded: Result<(Vec<u8>, usize), std::io::Error>) -> Result<
    EncodedChunkStateWitness,
    DistributionError,
> {
    match encoded {
        Ok((bytes, raw_size)) => Ok(EncodedChunkStateWitness { bytes, raw_size }),
        Err(_) => Err(DistributionError::SerializationError),
    }
}

/// Turns what serializing and compressing returned into an encoded witness, or into
/// `SerializationError` where it failed.
pub fn encoded_witness_from(encoded: Result<(Vec<u8>, usize), std::io::Error>) -> (r: Result<
    EncodedChunkStateWitness,
    DistributionError,
>)
    ensures
        r == packed_from(encoded),
{
    match encoded {
        Ok((bytes, raw_size)) => Ok(EncodedChunkStateWitness { bytes, raw_size }),
        Err(_) => Err(DistributionError::SerializationError),
    }
}

/// Serializes and compresses the witness. Where the witness can be serialized, the
/// result holds its compressed serialization and the size of the serialization before
/// compression. Where it cannot, the error is `SerializationError`.
pub fn compress_witness(
    witness: &near_primitives::stateless_validation::ChunkStateWitness,
) -> (r: Result<EncodedChunkStateWitness, DistributionError>)
    ensures
        match r {
            Ok(encoded) => packed(*witness) == Some((encoded.bytes@, encoded.raw_size)),
            Err(e) => e == DistributionError::SerializationError && packed(*witness) is None,
        },
{
    encoded_witness_from(encode_witness(witness))
}

/// The witness that the encoded bytes stand for, or `SerializationError`.
pub open spec fn decompressed(bytes: Seq<u8>) -> Result<
    (near_primitives::stateless_validation::ChunkStateWitness, usize),
    DistributionError,
> {
    match unpacked(bytes) {
        Some(found) => Ok(found),
        None => Err(DistributionError::SerializationError),
    }
}

/// Decompresses the bytes and reads the witness from them. Fails with
/// `SerializationError` where they are no compressed witness.
pub fn decompress_witness(bytes: &Vec<u8>) -> (r: Result<ReconstructedWitness, DistributionError>)
    ensures
        match r {
            Ok(found) => decompressed(bytes@) == Ok::<_, DistributionError>(
                (found.witness, found.raw_size),
            ),
            Err(e) => decompressed(bytes@) == Err::<
                (near_primitives::stateless_validation::ChunkStateWitness, usize),
                _,
            >(e),
        },
{
    match decode_witness(bytes) {
        Ok((witness, raw_size)) => Ok(ReconstructedWitness { witness, raw_size }),
        Err(_) => Err(DistributionError::SerializationError),
    }
}

} // verus!
