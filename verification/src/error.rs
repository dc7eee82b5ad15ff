use vstd::prelude::*;

verus! {

/// The failure taxonomy of the engine.
///
/// Payloads carry the offending value itself (an id, a pair of digests,
/// an operation index) rather than prose.
#[derive(Debug, Clone)]
pub enum BmsError {
    /// Canonical encoding or decoding failed.
    Serialization(String),
    /// A coordinate id is not 26 characters of the base32 alphabet.
    InvalidCoordinate(String),
    /// A patch operation could not be applied; the payload is the index
    /// of the offending operation.
    DeltaCompression { op_index: usize },
    /// An integrity check found a digest other than the recorded one.
    HashMismatch { expected: String, actual: String },
    /// A delta names a parent but carries no parent hash.
    MerkleChainBroken { delta_id: String },
    /// No snapshot with the given id.
    SnapshotNotFound(String),
    /// No delta with the given id.
    DeltaNotFound(String),
    /// A state is not a recognized tree value.
    InvalidState(String),
    /// Replaying deltas over a snapshot failed; the payload is the id
    /// of the delta that failed to apply.
    ReconstructionFailed(String),
    /// Fresh coordinate derivation kept landing on taken ids.
    CoordinateCollision(String),
    /// Any other failure, described in the payload.
    Other(String),
}

impl BmsError {
    /// A short, stable name for the failure kind.
    pub fn kind_name(&self) -> (r: &'static str)
        ensures
            r@ == match self {
                BmsError::Serialization(_) => "serialization"@,
                BmsError::InvalidCoordinate(_) => "invalid_coordinate"@,
                BmsError::DeltaCompression { .. } => "delta_compression"@,
                BmsError::HashMismatch { .. } => "hash_mismatch"@,
                BmsError::MerkleChainBroken { .. } => "merkle_chain_broken"@,
                BmsError::SnapshotNotFound(_) => "snapshot_not_found"@,
                BmsError::DeltaNotFound(_) => "delta_not_found"@,
                BmsError::InvalidState(_) => "invalid_state"@,
                BmsError::ReconstructionFailed(_) => "reconstruction_failed"@,
                BmsError::CoordinateCollision(_) => "coordinate_collision"@,
                BmsError::Other(_) => "other"@,
            },
    {
        match self {
            BmsError::Serialization(_) => "serialization",
            BmsError::InvalidCoordinate(_) => "invalid_coordinate",
            BmsError::DeltaCompression { .. } => "delta_compression",
            BmsError::HashMismatch { .. } => "hash_mismatch",
            BmsError::MerkleChainBroken { .. } => "merkle_chain_broken",
            BmsError::SnapshotNotFound(_) => "snapshot_not_found",
            BmsError::DeltaNotFound(_) => "delta_not_found",
            BmsError::InvalidState(_) => "invalid_state",
            BmsError::ReconstructionFailed(_) => "reconstruction_failed",
            BmsError::CoordinateCollision(_) => "coordinate_collision",
            BmsError::Other(_) => "other",
        }
    }
}

pub type BmsResult<T> = Result<T, BmsError>;

} // verus!
