//! A content-addressed, tamper-evident versioned store for structured
//! state. Every state is a tree value; each coordinate names a stream
//! whose history is an ordered chain of structural patches, linked by a
//! hash chain and punctuated by snapshots. The canonical encoding, the
//! coordinate derivation, the patch engine, the chain, the snapshots
//! and the orchestration are verified; digests, base32 and the clock
//! come from outside crates through trusted wrappers.

use vstd::prelude::*;

pub mod canonical;
pub mod clock;
pub mod coordinate;
pub mod crypto;
pub mod delta;
pub mod diff;
pub mod error;
pub mod laws;
pub mod merkle;
pub mod orchestrator;
pub mod patch;
pub mod search;
pub mod snapshot;
pub mod store;
pub mod types;
pub mod value;

pub use canonical::Canonicalizer;
pub use coordinate::CoordinateGenerator;
pub use delta::DeltaEngine;
pub use error::BmsError;
pub use merkle::MerkleChain;
pub use orchestrator::Orchestrator;
pub use snapshot::SnapshotManager;
pub use store::MemoryRepository;
pub use types::{Coordinate, CoordId, Delta, DeltaId, Snapshot, SnapshotId, StorageStats};
pub use value::Value;

verus! {

/// Number of deltas between automatic snapshots, by default.
pub const DEFAULT_SNAPSHOT_INTERVAL: u32 = 128;

/// Length in bytes of a coordinate seed (128 bits).
pub const COORD_ID_BYTES: usize = 16;

/// Length in bytes of a digest.
pub const HASH_BYTES: usize = 32;

} // verus!
