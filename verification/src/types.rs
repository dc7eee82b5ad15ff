use vstd::prelude::*;

use crate::patch::{view_ops, PatchOp, SpecOp};
use crate::value::{view_entries, SpecValue, Value};

verus! {

/// Coordinate id: 26 characters of base32, addressing one stream.
#[derive(Debug)]
pub struct CoordId(pub String);

impl View for CoordId {
    type V = Seq<char>;

    open spec fn view(&self) -> Seq<char> {
        self.0@
    }
}

impl CoordId {
    pub fn as_str(&self) -> (r: &str)
        ensures
            r@ == self@,
    {
        self.0.as_str()
    }
}

impl Clone for CoordId {
    /// A clone has the same model as the original.
    fn clone(&self) -> (r: CoordId)
        ensures
            r@ == self@,
    {
        CoordId(self.0.clone())
    }
}

/// Delta id: the first 16 digest bytes of the patch, in hex.
#[derive(Debug)]
pub struct DeltaId(pub String);

impl View for DeltaId {
    type V = Seq<char>;

    open spec fn view(&self) -> Seq<char> {
        self.0@
    }
}

impl DeltaId {
    pub fn as_str(&self) -> (r: &str)
        ensures
            r@ == self@,
    {
        self.0.as_str()
    }
}

impl Clone for DeltaId {
    /// A clone has the same model as the original.
    fn clone(&self) -> (r: DeltaId)
        ensures
            r@ == self@,
    {
        DeltaId(self.0.clone())
    }
}

/// Snapshot id: the first 32 hex digits of the state digest.
#[derive(Debug)]
pub struct SnapshotId(pub String);

impl View for SnapshotId {
    type V = Seq<char>;

    open spec fn view(&self) -> Seq<char> {
        self.0@
    }
}

impl SnapshotId {
    pub fn as_str(&self) -> (r: &str)
        ensures
            r@ == self@,
    {
        self.0.as_str()
    }
}

impl Clone for SnapshotId {
    /// A clone has the same model as the original.
    fn clone(&self) -> (r: SnapshotId)
        ensures
            r@ == self@,
    {
        SnapshotId(self.0.clone())
    }
}

/// A digest in lowercase hex (64 characters for a full digest).
#[derive(Debug)]
pub struct Hash(pub String);

impl View for Hash {
    type V = Seq<char>;

    open spec fn view(&self) -> Seq<char> {
        self.0@
    }
}

impl Hash {
    pub fn as_str(&self) -> (r: &str)
        ensures
            r@ == self@,
    {
        self.0.as_str()
    }
}

impl Clone for Hash {
    /// A clone has the same model as the original.
    fn clone(&self) -> (r: Hash)
        ensures
            r@ == self@,
    {
        Hash(self.0.clone())
    }
}

/// Model of a coordinate.
pub struct SpecCoordinate {
    pub id: Seq<char>,
    pub rune_alias: Option<Seq<char>>,
    pub created_at: Seq<char>,
    pub metadata: Option<Seq<(Seq<char>, SpecValue)>>,
}

/// A stream identity: id, optional human alias, creation time, and
/// optional opaque metadata. Never mutated once created.
#[derive(Debug)]
pub struct Coordinate {
    pub id: CoordId,
    pub rune_alias: Option<String>,
    pub created_at: String,
    pub metadata: Option<Vec<(String, Value)>>,
}

impl View for Coordinate {
    type V = SpecCoordinate;

    open spec fn view(&self) -> SpecCoordinate {
        SpecCoordinate {
            id: self.id@,
            rune_alias: match self.rune_alias {
                Some(ref s) => Some(s@),
                None => None,
            },
            created_at: self.created_at@,
            metadata: match self.metadata {
                Some(ref m) => Some(view_entries(m@)),
                None => None,
            },
        }
    }
}

impl Clone for Coordinate {
    /// A clone has the same model as the original.
    fn clone(&self) -> (r: Coordinate)
        ensures
            r@ == self@,
    {
        Coordinate {
            id: self.id.clone(),
            rune_alias: match &self.rune_alias {
                Some(s) => Some(s.clone()),
                None => None,
            },
            created_at: self.created_at.clone(),
            metadata: match &self.metadata {
                Some(m) => Some(crate::patch::clone_entries(m)),
                None => None,
            },
        }
    }
}

/// Model of a delta.
pub struct SpecDelta {
    pub id: Seq<char>,
    pub coord_id: Seq<char>,
    pub parent_id: Option<Seq<char>>,
    pub parent_hash: Option<Seq<char>>,
    pub delta_hash: Seq<char>,
    pub chain_hash: Seq<char>,
    pub ops: Seq<SpecOp>,
    pub created_at: Seq<char>,
    pub tags: Option<Seq<(Seq<char>, SpecValue)>>,
    pub author: Option<Seq<char>>,
}

/// One link of a coordinate's chain: the patch, its digest, and the
/// hash binding it to its parent.
#[derive(Debug)]
pub struct Delta {
    pub id: DeltaId,
    pub coord_id: CoordId,
    pub parent_id: Option<DeltaId>,
    pub parent_hash: Option<Hash>,
    pub delta_hash: Hash,
    pub chain_hash: Hash,
    pub ops: Vec<PatchOp>,
    pub created_at: String,
    pub tags: Option<Vec<(String, Value)>>,
    pub author: Option<String>,
}

impl View for Delta {
    type V = SpecDelta;

    open spec fn view(&self) -> SpecDelta {
        SpecDelta {
            id: self.id@,
            coord_id: self.coord_id@,
            parent_id: match self.parent_id {
                Some(ref s) => Some(s@),
                None => None,
            },
            parent_hash: match self.parent_hash {
                Some(ref s) => Some(s@),
                None => None,
            },
            delta_hash: self.delta_hash@,
            chain_hash: self.chain_hash@,
            ops: view_ops(self.ops@),
            created_at: self.created_at@,
            tags: match self.tags {
                Some(ref m) => Some(view_entries(m@)),
                None => None,
            },
            author: match self.author {
                Some(ref s) => Some(s@),
                None => None,
            },
        }
    }
}

impl Clone for Delta {
    /// A clone has the same model as the original.
    fn clone(&self) -> (r: Delta)
        ensures
            r@ == self@,
    {
        Delta {
            id: self.id.clone(),
            coord_id: self.coord_id.clone(),
            parent_id: match &self.parent_id {
                Some(s) => Some(s.clone()),
                None => None,
            },
            parent_hash: match &self.parent_hash {
                Some(s) => Some(s.clone()),
                None => None,
            },
            delta_hash: self.delta_hash.clone(),
            chain_hash: self.chain_hash.clone(),
            ops: crate::patch::clone_ops(&self.ops),
            created_at: self.created_at.clone(),
            tags: match &self.tags {
                Some(m) => Some(crate::patch::clone_entries(m)),
                None => None,
            },
            author: match &self.author {
                Some(s) => Some(s.clone()),
                None => None,
            },
        }
    }
}

/// Model of a snapshot.
pub struct SpecSnapshot {
    pub id: Seq<char>,
    pub coord_id: Seq<char>,
    pub head_delta_id: Seq<char>,
    pub state_hash: Seq<char>,
    pub state: SpecValue,
    pub created_at: Seq<char>,
}

/// A materialized full state at some delta, with its digest.
#[derive(Debug)]
pub struct Snapshot {
    pub id: SnapshotId,
    pub coord_id: CoordId,
    pub head_delta_id: DeltaId,
    pub state_hash: Hash,
    pub state: Value,
    pub created_at: String,
}

impl View for Snapshot {
    type V = SpecSnapshot;

    open spec fn view(&self) -> SpecSnapshot {
        SpecSnapshot {
            id: self.id@,
            coord_id: self.coord_id@,
            head_delta_id: self.head_delta_id@,
            state_hash: self.state_hash@,
            state: self.state@,
            created_at: self.created_at@,
        }
    }
}

impl Clone for Snapshot {
    /// A clone has the same model as the original.
    fn clone(&self) -> (r: Snapshot)
        ensures
            r@ == self@,
    {
        Snapshot {
            id: self.id.clone(),
            coord_id: self.coord_id.clone(),
            head_delta_id: self.head_delta_id.clone(),
            state_hash: self.state_hash.clone(),
            state: self.state.clone(),
            created_at: self.created_at.clone(),
        }
    }
}

/// Counts of what the store holds.
#[derive(Debug, Clone)]
pub struct StorageStats {
    pub coordinate_count: u64,
    pub delta_count: u64,
    pub snapshot_count: u64,
}

} // verus!
