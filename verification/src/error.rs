//! The ways in which handling a message can fail.

use vstd::prelude::*;

verus! {

/// Why a request or an inbound message was dropped. None of these is fatal: the caller logs
/// the event and goes on with the next message.
#[derive(Clone, Copy, Debug, PartialEq, Eq, Structural)]
pub enum DistributionError {
    /// The node holds no validator identity at the moment.
    NotAValidator,
    /// The validators or the chunk producer for the epoch, shard and height are not known.
    AssignmentLookupFailed,
    /// The witness could not be compressed, or the rebuilt bytes could not be decompressed.
    SerializationError,
    /// The parts at hand are too few or do not fit together, or no codec exists for the
    /// number of validators.
    CodecError,
    /// The part was malformed and the validator refused to judge it.
    ValidationRejected,
}

} // verus!
