use vstd::prelude::*;

use crate::merkle::view_deltas;
use crate::types::{
    Coordinate, CoordId, Delta, DeltaId, Snapshot, SnapshotId, SpecDelta, SpecSnapshot,
    StorageStats,
};

verus! {

/// A stored snapshot with the length of its coordinate's chain at the
/// moment it was taken: the deltas to replay on top of it are exactly
/// those after that position.
pub struct SnapRow {
    pub snapshot: Snapshot,
    pub head_pos: usize,
}

/// Model of a stored snapshot row.
pub struct SpecSnapRow {
    pub snapshot: SpecSnapshot,
    pub head_pos: int,
}

impl View for SnapRow {
    type V = SpecSnapRow;

    open spec fn view(&self) -> SpecSnapRow {
        SpecSnapRow { snapshot: self.snapshot@, head_pos: self.head_pos as int }
    }
}

pub open spec fn view_snap_rows(s: Seq<SnapRow>) -> Seq<SpecSnapRow> {
    Seq::new(s.len(), |i: int| s[i]@)
}

/// An in-memory store of coordinates, deltas and snapshots, in
/// insertion order. Deltas of one coordinate come back in the order
/// they were appended (their chronological order).
pub struct MemoryRepository {
    pub coords: Vec<Coordinate>,
    pub deltas: Vec<Delta>,
    pub snaps: Vec<SnapRow>,
}

/// The chain of one coordinate, in insertion order.
pub open spec fn coord_deltas(repo: MemoryRepository, cid: Seq<char>) -> Seq<SpecDelta> {
    view_deltas(repo.deltas@).filter(|d: SpecDelta| d.coord_id == cid)
}

/// The snapshot rows of one coordinate, in insertion order.
pub open spec fn coord_snap_rows(repo: MemoryRepository, cid: Seq<char>) -> Seq<SpecSnapRow> {
    view_snap_rows(repo.snaps@).filter(|r: SpecSnapRow| r.snapshot.coord_id == cid)
}

/// Some stored coordinate has this id.
pub open spec fn has_coord(repo: MemoryRepository, cid: Seq<char>) -> bool {
    exists|i: int| 0 <= i < repo.coords@.len() && (#[trigger] repo.coords@[i])@.id == cid
}

/// Filtering one more element keeps the front and appends the element
/// exactly when it matches.
pub proof fn lemma_filter_push<A>(s: Seq<A>, pred: spec_fn(A) -> bool, x: A)
    ensures
        s.push(x).filter(pred) == if pred(x) {
            s.filter(pred).push(x)
        } else {
            s.filter(pred)
        },
{
    reveal(Seq::filter);
    let p = s.push(x);
    assert(p.drop_last() =~= s);
    assert(p.last() == x);
}

impl MemoryRepository {
    /// An empty store.
    pub fn new() -> (r: MemoryRepository)
        ensures
            r.coords@.len() == 0,
            r.deltas@.len() == 0,
            r.snaps@.len() == 0,
    {
        MemoryRepository { coords: Vec::new(), deltas: Vec::new(), snaps: Vec::new() }
    }

    /// Stores a new coordinate.
    pub fn insert_coordinate(&mut self, coord: Coordinate)
        ensures
            final(self).coords@ == old(self).coords@.push(coord),
            final(self).deltas@ == old(self).deltas@,
            final(self).snaps@ == old(self).snaps@,
    {
        self.coords.push(coord);
    }

    /// Whether a coordinate with this id exists.
    #[verifier::loop_isolation(false)]
    pub fn coordinate_exists(&self, coord_id: &CoordId) -> (r: bool)
        ensures
            r == has_coord(*self, coord_id@),
    {
        let mut i: usize = 0;
        while i < self.coords.len()
            invariant
                i <= self.coords@.len(),
                forall|j: int| 0 <= j < i ==> (#[trigger] self.coords@[j])@.id != coord_id@,
            decreases self.coords@.len() - i,
        {
            if self.coords[i].id.0.eq(&coord_id.0) {
                return true;
            }
            i = i + 1;
        }
        false
    }

    /// The coordinate with this id, if any.
    #[verifier::loop_isolation(false)]
    pub fn get_coordinate(&self, coord_id: &CoordId) -> (r: Option<Coordinate>)
        ensures
            r matches Some(c) ==> c@.id == coord_id@ && has_coord(*self, coord_id@),
            r is None <==> !has_coord(*self, coord_id@),
    {
        let mut i: usize = 0;
        while i < self.coords.len()
            invariant
                i <= self.coords@.len(),
                forall|j: int| 0 <= j < i ==> (#[trigger] self.coords@[j])@.id != coord_id@,
            decreases self.coords@.len() - i,
        {
            if self.coords[i].id.0.eq(&coord_id.0) {
                return Some(self.coords[i].clone());
            }
            i = i + 1;
        }
        None
    }

    /// The most recent coordinates, newest first, at most `limit`.
    #[verifier::loop_isolation(false)]
    pub fn list_coordinates(&self, limit: usize) -> (r: Vec<Coordinate>)
        ensures
            r@.len() == vstd::math::min(limit as int, self.coords@.len() as int),
            forall|i: int|
                0 <= i < r@.len() ==> (#[trigger] r@[i])@ == self.coords@[self.coords@.len() - 1
                    - i]@,
    {
        let mut out: Vec<Coordinate> = Vec::new();
        let mut i: usize = 0;
        let n = self.coords.len();
        while i < n && i < limit
            invariant
                i <= n,
                i <= limit,
                n == self.coords@.len(),
                out@.len() == i,
                i < vstd::math::min(limit as int, n as int) + 1,
                forall|j: int|
                    0 <= j < i ==> (#[trigger] out@[j])@ == self.coords@[n - 1 - j]@,
            decreases n - i,
    {
            out.push(self.coords[n - 1 - i].clone());
            i = i + 1;
        }
        out
    }

    /// Appends a delta to its coordinate's chain.
    pub fn insert_delta(&mut self, delta: Delta)
        ensures
            final(self).deltas@ == old(self).deltas@.push(delta),
            final(self).coords@ == old(self).coords@,
            final(self).snaps@ == old(self).snaps@,
            view_deltas(final(self).deltas@) =~= view_deltas(old(self).deltas@).push(delta@),
    {
        self.deltas.push(delta);
    }

    /// The chain of one coordinate, in order.
    #[verifier::loop_isolation(false)]
    pub fn get_deltas(&self, coord_id: &CoordId) -> (r: Vec<Delta>)
        ensures
            view_deltas(r@) == coord_deltas(*self, coord_id@),
    {
        let ghost all = view_deltas(self.deltas@);
        let ghost pred = |d: SpecDelta| d.coord_id == coord_id@;
        let mut out: Vec<Delta> = Vec::new();
        let mut i: usize = 0;
        proof {
            assert(all.take(0) =~= Seq::<SpecDelta>::empty());
            reveal(Seq::filter);
            assert(view_deltas(out@) =~= all.take(0).filter(pred));
        }
        while i < self.deltas.len()
            invariant
                i <= self.deltas@.len(),
                view_deltas(out@) == all.take(i as int).filter(pred),
            decreases self.deltas@.len() - i,
        {
            let ghost pre = view_deltas(out@);
            if self.deltas[i].coord_id.0.eq(&coord_id.0) {
                out.push(self.deltas[i].clone());
                proof {
                    assert(view_deltas(out@) =~= pre.push(all[i as int]));
                }
            }
            proof {
                assert(all.take(i + 1) =~= all.take(i as int).push(all[i as int]));
                lemma_filter_push(all.take(i as int), pred, all[i as int]);
            }
            i = i + 1;
        }
        proof {
            assert(all.take(self.deltas@.len() as int) =~= all);
        }
        out
    }

    /// The delta with this id, if any.
    #[verifier::loop_isolation(false)]
    pub fn get_delta(&self, delta_id: &DeltaId) -> (r: Option<Delta>)
        ensures
            r matches Some(d) ==> d@.id == delta_id@,
            r is None <==> (forall|i: int|
                0 <= i < self.deltas@.len() ==> (#[trigger] self.deltas@[i])@.id != delta_id@),
    {
        let mut i: usize = 0;
        while i < self.deltas.len()
            invariant
                i <= self.deltas@.len(),
                forall|j: int| 0 <= j < i ==> (#[trigger] self.deltas@[j])@.id != delta_id@,
            decreases self.deltas@.len() - i,
        {
            if self.deltas[i].id.0.eq(&delta_id.0) {
                return Some(self.deltas[i].clone());
            }
            i = i + 1;
        }
        None
    }

    /// How many deltas one coordinate has.
    #[verifier::loop_isolation(false)]
    pub fn get_delta_count(&self, coord_id: &CoordId) -> (r: usize)
        ensures
            r == coord_deltas(*self, coord_id@).len(),
    {
        let ghost all = view_deltas(self.deltas@);
        let ghost pred = |d: SpecDelta| d.coord_id == coord_id@;
        let mut count: usize = 0;
        let mut i: usize = 0;
        proof {
            assert(all.take(0) =~= Seq::<SpecDelta>::empty());
            reveal(Seq::filter);
        }
        while i < self.deltas.len()
            invariant
                i <= self.deltas@.len(),
                count <= i,
                count == all.take(i as int).filter(pred).len(),
            decreases self.deltas@.len() - i,
        {
            if self.deltas[i].coord_id.0.eq(&coord_id.0) {
                count = count + 1;
            }
            proof {
                assert(all.take(i + 1) =~= all.take(i as int).push(all[i as int]));
                lemma_filter_push(all.take(i as int), pred, all[i as int]);
            }
            i = i + 1;
        }
        proof {
            assert(all.take(self.deltas@.len() as int) =~= all);
        }
        count
    }

    /// Stores a snapshot, recording the coordinate's current chain
    /// length as its replay position.
    pub fn insert_snapshot(&mut self, snapshot: Snapshot)
        ensures
            final(self).coords@ == old(self).coords@,
            final(self).deltas@ == old(self).deltas@,
            final(self).snaps@.len() == old(self).snaps@.len() + 1,
            forall|j: int|
                0 <= j < old(self).snaps@.len() ==> final(self).snaps@[j] == old(
                    self,
                ).snaps@[j],
            final(self).snaps@.last()@.snapshot == snapshot@,
            final(self).snaps@.last()@.head_pos == coord_deltas(
                *old(self),
                snapshot@.coord_id,
            ).len(),
    {
        let head_pos = self.get_delta_count(&snapshot.coord_id);
        let row = SnapRow { snapshot, head_pos };
        self.snaps.push(row);
    }

    /// The latest stored snapshot of one coordinate, with its replay
    /// position.
    #[verifier::loop_isolation(false)]
    pub fn latest_snapshot_row(&self, coord_id: &CoordId) -> (r: Option<(Snapshot, usize)>)
        ensures
            r matches Some(p) ==> {
                let rows = coord_snap_rows(*self, coord_id@);
                rows.len() > 0 && p.0@ == rows.last().snapshot && p.1 as int
                    == rows.last().head_pos
            },
            r is None <==> coord_snap_rows(*self, coord_id@).len() == 0,
    {
        let ghost all = view_snap_rows(self.snaps@);
        let ghost pred = |row: SpecSnapRow| row.snapshot.coord_id == coord_id@;
        let mut found: Option<(Snapshot, usize)> = None;
        let mut i: usize = 0;
        proof {
            assert(all.take(0) =~= Seq::<SpecSnapRow>::empty());
            reveal(Seq::filter);
        }
        while i < self.snaps.len()
            invariant
                i <= self.snaps@.len(),
                found matches Some(p) ==> {
                    let rows = all.take(i as int).filter(pred);
                    rows.len() > 0 && p.0@ == rows.last().snapshot && p.1 as int
                        == rows.last().head_pos
                },
                found is None <==> all.take(i as int).filter(pred).len() == 0,
            decreases self.snaps@.len() - i,
        {
            proof {
                assert(all.take(i + 1) =~= all.take(i as int).push(all[i as int]));
                lemma_filter_push(all.take(i as int), pred, all[i as int]);
            }
            if self.snaps[i].snapshot.coord_id.0.eq(&coord_id.0) {
                found = Some((self.snaps[i].snapshot.clone(), self.snaps[i].head_pos));
            }
            i = i + 1;
        }
        proof {
            assert(all.take(self.snaps@.len() as int) =~= all);
        }
        found
    }

    /// The latest stored snapshot of one coordinate.
    pub fn get_latest_snapshot(&self, coord_id: &CoordId) -> (r: Option<Snapshot>)
        ensures
            r matches Some(s) ==> {
                let rows = coord_snap_rows(*self, coord_id@);
                rows.len() > 0 && s@ == rows.last().snapshot
            },
            r is None <==> coord_snap_rows(*self, coord_id@).len() == 0,
    {
        match self.latest_snapshot_row(coord_id) {
            Some((s, _)) => Some(s),
            None => None,
        }
    }

    /// The snapshot with this id, if any.
    #[verifier::loop_isolation(false)]
    pub fn get_snapshot(&self, snapshot_id: &SnapshotId) -> (r: Option<Snapshot>)
        ensures
            r matches Some(s) ==> s@.id == snapshot_id@,
            r is None <==> (forall|i: int|
                0 <= i < self.snaps@.len() ==> (#[trigger] self.snaps@[i]).snapshot@.id
                    != snapshot_id@),
    {
        let mut i: usize = 0;
        while i < self.snaps.len()
            invariant
                i <= self.snaps@.len(),
                forall|j: int|
                    0 <= j < i ==> (#[trigger] self.snaps@[j]).snapshot@.id != snapshot_id@,
            decreases self.snaps@.len() - i,
        {
            if self.snaps[i].snapshot.id.0.eq(&snapshot_id.0) {
                return Some(self.snaps[i].snapshot.clone());
            }
            i = i + 1;
        }
        None
    }

    /// Counts of everything stored.
    pub fn get_stats(&self) -> (r: StorageStats)
        ensures
            r.coordinate_count == self.coords@.len(),
            r.delta_count == self.deltas@.len(),
            r.snapshot_count == self.snaps@.len(),
    {
        StorageStats {
            coordinate_count: self.coords.len() as u64,
            delta_count: self.deltas.len() as u64,
            snapshot_count: self.snaps.len() as u64,
        }
    }
}

} // verus!
