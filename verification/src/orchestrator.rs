use vstd::prelude::*;

use crate::coordinate::{attempt_id, valid_coord, CoordinateGenerator};
use crate::delta::DeltaEngine;
use crate::error::BmsError;
use crate::patch::apply_ops_spec;
use crate::merkle::{chain_ok, delta_link_ok, first_break, lemma_first_break, MerkleChain};
use crate::snapshot::{
    fold_deltas, lemma_fold_deltas_app, lemma_fold_deltas_push, SnapshotManager,
};
use crate::store::{
    coord_deltas, coord_snap_rows, has_coord, lemma_filter_push, view_snap_rows,
    MemoryRepository, SpecSnapRow,
};
use crate::types::{Coordinate, CoordId, Delta, DeltaId, SnapshotId, SpecDelta};
use crate::value::{wf_value, SpecValue, Value};

verus! {

/// The state of a coordinate with no deltas: the empty object.
pub open spec fn empty_state() -> SpecValue {
    SpecValue::Obj(Seq::empty())
}

/// A stored snapshot row is truthful: its replay position is within
/// its coordinate's chain, and its state is what that many deltas
/// produce from the empty object.
pub open spec fn snap_row_ok(repo: MemoryRepository, row: SpecSnapRow) -> bool {
    let ds = coord_deltas(repo, row.snapshot.coord_id);
    &&& 0 <= row.head_pos <= ds.len()
    &&& fold_deltas(empty_state(), ds.take(row.head_pos)) == Some(row.snapshot.state)
    &&& wf_value(row.snapshot.state)
}

/// What a store (append) hands back.
pub struct StoreResponse {
    pub coord_id: CoordId,
    pub delta_id: DeltaId,
    pub snapshot_created: bool,
}

/// What a recall hands back.
pub struct RecallResponse {
    pub state: Value,
    pub delta_count: usize,
}

/// Names a past state in a recall; the core recalls the head state
/// only, so the delta bound is carried but not interpreted here.
#[derive(Debug)]
pub struct RecallQuery {
    pub delta_id: Option<String>,
}

/// What a chain verification hands back.
#[derive(Debug)]
pub struct VerifyResponse {
    pub verified_deltas: usize,
    pub total_deltas: usize,
    pub chain_valid: bool,
    pub first_break: Option<usize>,
}

/// An element of a filtered sequence occurs in the original.
pub proof fn lemma_filter_member<A>(s: Seq<A>, pred: spec_fn(A) -> bool, i: int)
    requires
        0 <= i < s.filter(pred).len(),
    ensures
        exists|j: int| 0 <= j < s.len() && s[j] == s.filter(pred)[i],
    decreases s.len(),
{
    reveal(Seq::filter);
    if s.len() > 0 {
        let sub = s.drop_last().filter(pred);
        if pred(s.last()) && i == s.filter(pred).len() - 1 {
            assert(s[s.len() - 1] == s.filter(pred)[i]);
        } else {
            lemma_filter_member(s.drop_last(), pred, i);
            let j = choose|j: int|
                0 <= j < s.drop_last().len() && s.drop_last()[j] == s.drop_last().filter(pred)[i];
            assert(s[j] == s.drop_last()[j]);
        }
    }
}

/// How appending one delta changes each coordinate's chain.
pub proof fn lemma_coord_deltas_push(r1: MemoryRepository, r2: MemoryRepository, d: Delta)
    requires
        r2.deltas@ == r1.deltas@.push(d),
    ensures
        forall|cid: Seq<char>| #[trigger]
            coord_deltas(r2, cid) == if d@.coord_id == cid {
                coord_deltas(r1, cid).push(d@)
            } else {
                coord_deltas(r1, cid)
            },
{
    assert forall|cid: Seq<char>| #[trigger]
        coord_deltas(r2, cid) == if d@.coord_id == cid {
            coord_deltas(r1, cid).push(d@)
        } else {
            coord_deltas(r1, cid)
        } by {
        assert(crate::merkle::view_deltas(r2.deltas@) =~= crate::merkle::view_deltas(
            r1.deltas@,
        ).push(d@));
        lemma_filter_push(
            crate::merkle::view_deltas(r1.deltas@),
            |dd: SpecDelta| dd.coord_id == cid,
            d@,
        );
    }
}

/// Chains are a function of the stored delta list alone.
pub proof fn lemma_coord_deltas_same(r1: MemoryRepository, r2: MemoryRepository)
    requires
        r2.deltas@ == r1.deltas@,
    ensures
        forall|cid: Seq<char>| #[trigger] coord_deltas(r2, cid) == coord_deltas(r1, cid),
{
}

/// The append / recall / verify / snapshot use cases over an in-memory
/// store. The orchestrator maintains, as its invariant, that every
/// stored chain is sound, that replaying any chain from the empty
/// object succeeds, and that every stored snapshot is truthful.
pub struct Orchestrator {
    pub repo: MemoryRepository,
    pub manager: SnapshotManager,
}

impl Orchestrator {
    /// The orchestrator's invariant over its store.
    pub open spec fn inv(self) -> bool {
        &&& self.manager.snapshot_interval >= 1
        &&& forall|cid: Seq<char>| chain_ok(#[trigger] coord_deltas(self.repo, cid))
        &&& forall|cid: Seq<char>|
            (fold_deltas(empty_state(), #[trigger] coord_deltas(self.repo, cid))) is Some
        &&& forall|cid: Seq<char>|
            wf_value(
                fold_deltas(empty_state(), #[trigger] coord_deltas(self.repo, cid)).unwrap(),
            )
        &&& forall|j: int|
            0 <= j < self.repo.snaps@.len() ==> snap_row_ok(
                self.repo,
                (#[trigger] self.repo.snaps@[j])@,
            )
    }

    /// A fresh orchestrator over an empty store.
    pub fn new(snapshot_interval: u32) -> (r: Orchestrator)
        requires
            snapshot_interval >= 1,
        ensures
            r.inv(),
            r.repo.deltas@.len() == 0,
            r.repo.coords@.len() == 0,
            r.repo.snaps@.len() == 0,
            r.manager.snapshot_interval == snapshot_interval,
    {
        let repo = MemoryRepository::new();
        let manager = SnapshotManager::new(snapshot_interval);
        let r = Orchestrator { repo, manager };
        proof {
            assert forall|cid: Seq<char>| #[trigger]
                coord_deltas(r.repo, cid) =~= Seq::<SpecDelta>::empty() by {
                reveal(Seq::filter);
                assert(crate::merkle::view_deltas(r.repo.deltas@) =~= Seq::<
                    SpecDelta,
                >::empty());
            }
            assert(wf_value(empty_state())) by {
                assert(crate::value::entries_sorted(Seq::empty()));
            }
        }
        r
    }

    /// The current state of a coordinate: the latest snapshot plus the
    /// deltas after it, or the whole chain folded from the empty
    /// object. Both give the same state.
    #[verifier::loop_isolation(false)]
    fn head_state(&self, coord_id: &CoordId) -> (r: Value)
        requires
            self.inv(),
        ensures
            Some(r@) == fold_deltas(empty_state(), coord_deltas(self.repo, coord_id@)),
            wf_value(r@),
    {
        let ghost cds = coord_deltas(self.repo, coord_id@);
        let deltas = self.repo.get_deltas(coord_id);
        match self.repo.latest_snapshot_row(coord_id) {
            Some((snap, head_pos)) => {
                proof {
                    let rows = coord_snap_rows(self.repo, coord_id@);
                    lemma_filter_member(
                        view_snap_rows(self.repo.snaps@),
                        |row: SpecSnapRow| row.snapshot.coord_id == coord_id@,
                        rows.len() - 1,
                    );
                    let k = choose|k: int|
                        0 <= k < view_snap_rows(self.repo.snaps@).len() && view_snap_rows(
                            self.repo.snaps@,
                        )[k] == rows.last();
                    assert(self.repo.snaps@[k]@ == rows.last());
                    assert(snap_row_ok(self.repo, rows.last()));
                }
                let mut forward: Vec<Delta> = Vec::new();
                let mut i: usize = head_pos;
                proof {
                    assert(crate::merkle::view_deltas(forward@) =~= cds.subrange(
                        head_pos as int,
                        head_pos as int,
                    ));
                }
                while i < deltas.len()
                    invariant
                        head_pos <= i <= deltas@.len(),
                        crate::merkle::view_deltas(forward@) == cds.subrange(
                            head_pos as int,
                            i as int,
                        ),
                    decreases deltas@.len() - i,
                {
                    forward.push(deltas[i].clone());
                    proof {
                        assert(crate::merkle::view_deltas(forward@) =~= cds.subrange(
                            head_pos as int,
                            i + 1,
                        ));
                    }
                    i = i + 1;
                }
                proof {
                    assert(cds =~= cds.take(head_pos as int) + cds.subrange(
                        head_pos as int,
                        cds.len() as int,
                    ));
                    lemma_fold_deltas_app(
                        empty_state(),
                        cds.take(head_pos as int),
                        cds.subrange(head_pos as int, cds.len() as int),
                    );
                }
                match SnapshotManager::reconstruct(&snap, &forward) {
                    Ok(state) => state,
                    Err(_) => {
                        // replay cannot fail: the snapshot is truthful and the
                        // whole chain folds
                        Value::empty_object()
                    },
                }
            },
            None => {
                let mut state = Value::empty_object();
                let mut i: usize = 0;
                proof {
                    assert(cds.take(0) =~= Seq::<SpecDelta>::empty());
                }
                while i < deltas.len()
                    invariant
                        i <= deltas@.len(),
                        fold_deltas(empty_state(), cds.take(i as int)) == Some(state@),
                    decreases deltas@.len() - i,
                {
                    proof {
                        assert(cds =~= cds.take(i as int) + cds.skip(i as int));
                        lemma_fold_deltas_app(
                            empty_state(),
                            cds.take(i as int),
                            cds.skip(i as int),
                        );
                        assert(cds.skip(i as int)[0] == cds[i as int]);
                    }
                    match DeltaEngine::apply_delta(&mut state, &deltas[i].ops) {
                        Ok(_) => {
                            proof {
                                assert(cds.take(i + 1) =~= cds.take(i as int).push(
                                    cds[i as int],
                                ));
                                lemma_fold_deltas_push(
                                    empty_state(),
                                    cds.take(i as int),
                                    cds[i as int],
                                );
                            }
                        },
                        Err(_) => {
                            // cannot happen: the whole chain folds
                        },
                    }
                    i = i + 1;
                }
                proof {
                    assert(cds.take(cds.len() as int) =~= cds);
                }
                state
            },
        }
    }

    /// A fresh coordinate id for `state` at `now`: the plain
    /// derivation first, then nonce retries, up to 16 attempts; the
    /// first attempt whose id is free wins, and only a store holding
    /// all 16 candidates makes the derivation fail.
    fn resolve_fresh(&self, state: &Value, now: &str) -> (r: Result<CoordId, BmsError>)
        ensures
            r matches Ok(c) ==> valid_coord(c@) && !has_coord(self.repo, c@),
            r matches Ok(c) ==> exists|n: u32|
                n < 16 && c@ == #[trigger] attempt_id(state@, now@, n) && (forall|m: u32|
                    m < n ==> has_coord(self.repo, #[trigger] attempt_id(state@, now@, m))),
            r is Err ==> forall|m: u32|
                m < 16 ==> has_coord(self.repo, #[trigger] attempt_id(state@, now@, m)),
            r matches Err(e) ==> e is CoordinateCollision,
    {
        let mut attempt: u32 = 0;
        let mut last = String::new();
        while attempt < 16
            invariant
                attempt <= 16,
                forall|m: u32|
                    m < attempt ==> has_coord(self.repo, #[trigger] attempt_id(state@, now@, m)),
            decreases 16 - attempt,
        {
            let cand = if attempt == 0 {
                CoordinateGenerator::generate(state, now)
            } else {
                CoordinateGenerator::generate_with_nonce(state, now, attempt)
            };
            match cand {
                Ok(c) => {
                    proof {
                        assert(c@ == attempt_id(state@, now@, attempt));
                    }
                    if !self.repo.coordinate_exists(&c) {
                        return Ok(c);
                    }
                    last = c.0;
                },
                Err(_) => {
                    // derivation cannot fail
                },
            }
            attempt = attempt + 1;
        }
        Err(BmsError::CoordinateCollision(last))
    }

    /// Appends `state` to the coordinate named by the hint, or to a
    /// freshly derived coordinate. A hint is adopted verbatim: it is
    /// not held to the 26-character id shape, so hinted streams may
    /// carry ids `validate` would refuse. The new delta extends the
    /// chain, carries the digest of its own patch and the binding to
    /// the previous head, and the coordinate's state becomes exactly
    /// `state`. A snapshot of the new state is stored when the chain
    /// length reaches a multiple of the interval. Nothing else in the
    /// store changes.
    #[verifier::rlimit(100)]
    pub fn append(
        &mut self,
        state: &Value,
        coord_hint: Option<&String>,
        metadata: Option<Vec<(String, Value)>>,
        author: Option<String>,
        now: &str,
    ) -> (r: Result<StoreResponse, BmsError>)
        requires
            old(self).inv(),
            wf_value(state@),
        ensures
            final(self).inv(),
            final(self).manager == old(self).manager,
            r matches Ok(o) ==> {
                let ds = coord_deltas(final(self).repo, o.coord_id@);
                let old_ds = coord_deltas(old(self).repo, o.coord_id@);
                let d = ds.last();
                &&& ds.len() == old_ds.len() + 1
                &&& ds.take(old_ds.len() as int) == old_ds
                &&& fold_deltas(empty_state(), ds) == Some(state@)
                &&& chain_ok(ds)
                &&& d.id == o.delta_id@
                &&& d.coord_id == o.coord_id@
                &&& d.created_at == now@
                &&& (author matches Some(a) ==> d.author == Some(a@))
                &&& (author is None ==> d.author is None)
                &&& d.delta_hash == crate::delta::hash_delta_of(d.ops)
                &&& d.id == crate::delta::delta_id_of(d.ops)
                &&& d.id == d.delta_hash.take(32)
                &&& apply_ops_spec(
                    fold_deltas(empty_state(), old_ds).unwrap(),
                    d.ops,
                ) == Some(state@)
                &&& (old_ds.len() == 0 ==> d.parent_id is None && d.parent_hash is None
                    && d.chain_hash == d.delta_hash)
                &&& (old_ds.len() > 0 ==> d.parent_id == Some(old_ds.last().id)
                    && d.parent_hash == Some(old_ds.last().chain_hash) && d.chain_hash
                    == crate::merkle::chain_hash_of(old_ds.last().chain_hash, d.delta_hash))
                &&& (coord_hint matches Some(h) ==> o.coord_id@ == h@)
                &&& (coord_hint is None ==> valid_coord(o.coord_id@))
                &&& (coord_hint is None ==> exists|n: u32|
                    n < 16 && o.coord_id@ == #[trigger] attempt_id(state@, now@, n) && (
                    forall|m: u32|
                        m < n ==> has_coord(
                            old(self).repo,
                            #[trigger] attempt_id(state@, now@, m),
                        )))
                &&& o.snapshot_created == (ds.len() <= 0xffffffff && ds.len() as int
                    % old(self).manager.snapshot_interval as int == 0)
                &&& has_coord(final(self).repo, o.coord_id@)
            },
            r matches Ok(o) ==> final(self).repo.deltas@.len() == old(self).repo.deltas@.len() + 1 && (forall|j: int|
                0 <= j < old(self).repo.deltas@.len() ==> final(self).repo.deltas@[j]
                    == #[trigger] old(self).repo.deltas@[j]) && (forall|cid: Seq<char>|
                cid != o.coord_id@ ==> #[trigger] coord_deltas(final(self).repo, cid)
                    == coord_deltas(old(self).repo, cid)),
            r matches Ok(o) ==> (has_coord(old(self).repo, o.coord_id@) ==> final(self).repo.coords@ == old(self).repo.coords@),
            r matches Ok(o) ==> (!has_coord(old(self).repo, o.coord_id@) ==> {
                let c = final(self).repo.coords@.last();
                &&& final(self).repo.coords@.len() == old(self).repo.coords@.len() + 1
                &&& (forall|j: int|
                    0 <= j < old(self).repo.coords@.len() ==> final(self).repo.coords@[j]
                        == #[trigger] old(self).repo.coords@[j])
                &&& c@.id == o.coord_id@
                &&& c@.created_at == now@
                &&& c@.rune_alias is None
                &&& (metadata matches Some(m) ==> c@.metadata == Some(
                    crate::value::view_entries(m@),
                ))
                &&& (metadata is None ==> c@.metadata is None)
            }),
            forall|j: int|
                0 <= j < old(self).repo.snaps@.len() ==> final(self).repo.snaps@[j]
                    == #[trigger] old(self).repo.snaps@[j],
            r matches Ok(o) ==> (!o.snapshot_created ==> final(self).repo.snaps@ == old(self).repo.snaps@),
            r matches Ok(o) ==> (o.snapshot_created ==> {
                let row = final(self).repo.snaps@.last()@;
                &&& final(self).repo.snaps@.len() == old(self).repo.snaps@.len() + 1
                &&& row.snapshot.coord_id == o.coord_id@
                &&& row.snapshot.head_delta_id == o.delta_id@
                &&& row.snapshot.state == state@
                &&& row.snapshot.state_hash == crate::delta::state_hash_of(state@)
                &&& row.snapshot.id == crate::delta::state_hash_of(state@).take(32)
                &&& row.head_pos == coord_deltas(final(self).repo, o.coord_id@).len()
            }),
            r is Err ==> final(self).repo.coords@ == old(self).repo.coords@ && final(self).repo.deltas@ == old(self).repo.deltas@ && final(self).repo.snaps@ == old(self).repo.snaps@,
            r matches Err(e) ==> e is CoordinateCollision,
            coord_hint is Some ==> r is Ok,
            coord_hint is None && r is Err ==> forall|m: u32|
                m < 16 ==> has_coord(old(self).repo, #[trigger] attempt_id(state@, now@, m)),
    {
        // resolve the coordinate id: a hint is adopted verbatim
        let coord_id: CoordId = match coord_hint {
            Some(h) => CoordId(h.clone()),
            None => {
                match self.resolve_fresh(state, now) {
                    Ok(c) => c,
                    Err(e) => {
                        return Err(e);
                    },
                }
            },
        };
        // make sure the coordinate exists
        if !self.repo.coordinate_exists(&coord_id) {
            let coordinate = Coordinate {
                id: coord_id.clone(),
                rune_alias: None,
                created_at: now.to_owned(),
                metadata,
            };
            let ghost repo0 = self.repo;
            self.repo.insert_coordinate(coordinate);
            proof {
                lemma_coord_deltas_same(repo0, self.repo);
                assert(self.repo.coords@[self.repo.coords@.len() - 1]@.id == coord_id@);
                assert(has_coord(self.repo, coord_id@));
                assert forall|j: int|
                    0 <= j < self.repo.snaps@.len() implies snap_row_ok(
                    self.repo,
                    (#[trigger] self.repo.snaps@[j])@,
                ) by {
                    assert(snap_row_ok(repo0, self.repo.snaps@[j]@));
                }
            }
        }
        let ghost repo1 = self.repo;
        proof {
            assert(has_coord(repo1, coord_id@));
        }
        // previous state and chain head
        let deltas = self.repo.get_deltas(&coord_id);
        let n = deltas.len();
        let prev_state = self.head_state(&coord_id);
        let ghost cds = coord_deltas(self.repo, coord_id@);
        // the patch and its digests
        let ops = match DeltaEngine::compute_delta(&prev_state, state) {
            Ok(o) => o,
            Err(_) => {
                return Err(BmsError::CoordinateCollision(String::new()));
            },
        };
        let delta_hash = match DeltaEngine::hash_delta(&ops) {
            Ok(h) => h,
            Err(_) => {
                return Err(BmsError::CoordinateCollision(String::new()));
            },
        };
        let delta_id = match DeltaEngine::generate_delta_id(&ops) {
            Ok(id) => id,
            Err(_) => {
                return Err(BmsError::CoordinateCollision(String::new()));
            },
        };
        // bind to the previous head
        let (parent_id, parent_hash) = if n > 0 {
            (Some(deltas[n - 1].id.clone()), Some(deltas[n - 1].chain_hash.clone()))
        } else {
            (None, None)
        };
        let chain_hash = match &parent_hash {
            Some(ph) => MerkleChain::compute_chain_hash(ph, &delta_hash),
            None => delta_hash.clone(),
        };
        let delta = Delta {
            id: delta_id.clone(),
            coord_id: coord_id.clone(),
            parent_id,
            parent_hash,
            delta_hash,
            chain_hash,
            ops,
            created_at: now.to_owned(),
            tags: None,
            author,
        };
        let ghost dv = delta@;
        proof {
            assert(delta_link_ok(dv));
        }
        self.repo.insert_delta(delta);
        proof {
            assert(has_coord(self.repo, coord_id@)) by {
                let w = choose|w: int|
                    0 <= w < repo1.coords@.len() && (#[trigger] repo1.coords@[w])@.id
                        == coord_id@;
                assert(self.repo.coords@[w]@.id == coord_id@);
            }
            lemma_coord_deltas_push(repo1, self.repo, delta);
            let ds2 = coord_deltas(self.repo, coord_id@);
            assert(ds2 == cds.push(dv));
            assert forall|cid2: Seq<char>| chain_ok(
                #[trigger] coord_deltas(self.repo, cid2),
            ) by {
                if cid2 == coord_id@ {
                    assert forall|i: int|
                        0 <= i < ds2.len() implies delta_link_ok(#[trigger] ds2[i]) by {
                        if i < cds.len() {
                            assert(ds2[i] == cds[i]);
                            assert(delta_link_ok(cds[i]));
                        }
                    }
                } else {
                    assert(coord_deltas(self.repo, cid2) == coord_deltas(repo1, cid2));
                }
            }
            lemma_fold_deltas_push(empty_state(), cds, dv);
            assert(fold_deltas(empty_state(), ds2) == Some(state@));
            assert forall|j: int|
                0 <= j < self.repo.snaps@.len() implies snap_row_ok(
                self.repo,
                (#[trigger] self.repo.snaps@[j])@,
            ) by {
                let row = self.repo.snaps@[j]@;
                assert(snap_row_ok(repo1, row));
                let old_row_ds = coord_deltas(repo1, row.snapshot.coord_id);
                let new_row_ds = coord_deltas(self.repo, row.snapshot.coord_id);
                if row.snapshot.coord_id == coord_id@ {
                    assert(new_row_ds.take(row.head_pos) =~= old_row_ds.take(row.head_pos));
                } else {
                    assert(new_row_ds == old_row_ds);
                }
            }
            assert(ds2.take(cds.len() as int) =~= cds);
        }
        // cadence
        let new_count = self.repo.get_delta_count(&coord_id);
        let due = if new_count <= 0xffffffffusize {
            self.manager.should_snapshot(new_count as u32)
        } else {
            false
        };
        let mut snapshot_created = false;
        if due {
            let snap = match self.manager.create_snapshot(
                coord_id.clone(),
                delta_id.clone(),
                state.clone(),
            ) {
                Ok(s) => s,
                Err(_) => {
                    return Err(BmsError::CoordinateCollision(String::new()));
                },
            };
            let ghost repo2 = self.repo;
            self.repo.insert_snapshot(snap);
            snapshot_created = true;
            proof {
                lemma_coord_deltas_same(repo2, self.repo);
                assert(has_coord(self.repo, coord_id@)) by {
                    let w = choose|w: int|
                        0 <= w < repo2.coords@.len() && (#[trigger] repo2.coords@[w])@.id
                            == coord_id@;
                    assert(self.repo.coords@[w]@.id == coord_id@);
                }
                let ds2 = coord_deltas(self.repo, coord_id@);
                assert forall|j: int|
                    0 <= j < self.repo.snaps@.len() implies snap_row_ok(
                    self.repo,
                    (#[trigger] self.repo.snaps@[j])@,
                ) by {
                    if j < self.repo.snaps@.len() - 1 {
                        assert(self.repo.snaps@[j] == repo2.snaps@[j]);
                        assert(snap_row_ok(repo2, self.repo.snaps@[j]@));
                    } else {
                        let row = self.repo.snaps@[j]@;
                        assert(row.head_pos == ds2.len());
                        assert(ds2.take(row.head_pos) =~= ds2);
                    }
                }
            }
        }
        Ok(StoreResponse { coord_id, delta_id, snapshot_created })
    }

    /// The current state of a coordinate and its delta count; a
    /// coordinate with no deltas is not found.
    pub fn recall(&self, coord_id: &str) -> (r: Result<RecallResponse, BmsError>)
        requires
            self.inv(),
        ensures
            r is Err <==> coord_deltas(self.repo, coord_id@).len() == 0,
            r matches Err(e) ==> e is DeltaNotFound,
            r matches Ok(o) ==> Some(o.state@) == fold_deltas(
                empty_state(),
                coord_deltas(self.repo, coord_id@),
            ) && o.delta_count == coord_deltas(self.repo, coord_id@).len() && wf_value(
                o.state@,
            ),
    {
        let cid = CoordId(coord_id.to_owned());
        let n = self.repo.get_delta_count(&cid);
        if n == 0 {
            return Err(BmsError::DeltaNotFound(coord_id.to_owned()));
        }
        let state = self.head_state(&cid);
        Ok(RecallResponse { state, delta_count: n })
    }

    /// Verifies the stored chain of a coordinate, whatever its state:
    /// the count of sound leading links and the first break, if any.
    /// On a store this orchestrator built (its invariant intact) the
    /// report is always fully valid.
    pub fn verify(&self, coord_id: &str) -> (r: VerifyResponse)
        ensures
            r.total_deltas == coord_deltas(self.repo, coord_id@).len(),
            r.verified_deltas == first_break(coord_deltas(self.repo, coord_id@)),
            r.chain_valid == chain_ok(coord_deltas(self.repo, coord_id@)),
            r.chain_valid <==> r.first_break is None,
            r.first_break matches Some(i) ==> i == first_break(
                coord_deltas(self.repo, coord_id@),
            ),
            self.inv() ==> r.chain_valid && r.verified_deltas == r.total_deltas,
    {
        let cid = CoordId(coord_id.to_owned());
        let deltas = self.repo.get_deltas(&cid);
        let total = deltas.len();
        let (verified, err) = MerkleChain::verify_chain_integrity(&deltas);
        proof {
            lemma_first_break(crate::merkle::view_deltas(deltas@));
        }
        let chain_valid = err.is_none();
        let first_break_at = if err.is_some() {
            Some(verified)
        } else {
            None
        };
        VerifyResponse { verified_deltas: verified, total_deltas: total, chain_valid, first_break: first_break_at }
    }

    /// Materializes and stores a snapshot of a coordinate's current
    /// state, returning the snapshot id (the state digest's first 32
    /// hex digits) and the state digest; a coordinate with no deltas is
    /// not found. Deltas, coordinates and existing snapshots are
    /// untouched.
    pub fn force_snapshot(&mut self, coord_id: &str) -> (r: Result<
        (SnapshotId, crate::types::Hash),
        BmsError,
    >)
        requires
            old(self).inv(),
        ensures
            final(self).inv(),
            r is Err <==> coord_deltas(old(self).repo, coord_id@).len() == 0,
            r matches Err(e) ==> e is DeltaNotFound,
            r is Ok ==> final(self).repo.snaps@.len() == old(self).repo.snaps@.len() + 1,
            r is Err ==> final(self).repo.snaps@ == old(self).repo.snaps@,
            final(self).repo.deltas@ == old(self).repo.deltas@,
            final(self).repo.coords@ == old(self).repo.coords@,
            forall|j: int|
                0 <= j < old(self).repo.snaps@.len() ==> final(self).repo.snaps@[j]
                    == #[trigger] old(self).repo.snaps@[j],
            r matches Ok(p) ==> {
                let row = final(self).repo.snaps@.last()@;
                let ds = coord_deltas(final(self).repo, coord_id@);
                &&& ds.len() > 0
                &&& row.snapshot.coord_id == coord_id@
                &&& row.snapshot.head_delta_id == ds.last().id
                &&& Some(row.snapshot.state) == fold_deltas(empty_state(), ds)
                &&& row.snapshot.state_hash == crate::delta::state_hash_of(
                    row.snapshot.state,
                )
                &&& row.snapshot.id == crate::delta::state_hash_of(row.snapshot.state).take(
                    32,
                )
                &&& row.head_pos == ds.len()
                &&& p.0@ == row.snapshot.id
                &&& p.1@ == row.snapshot.state_hash
            },
            r matches Ok(p) ==> p.1@ == crate::delta::state_hash_of(
                fold_deltas(
                    empty_state(),
                    coord_deltas(final(self).repo, coord_id@),
                ).unwrap(),
            ),
            r matches Ok(p) ==> p.0@ == crate::delta::state_hash_of(
                fold_deltas(
                    empty_state(),
                    coord_deltas(final(self).repo, coord_id@),
                ).unwrap(),
            ).take(32),
    {
        let cid = CoordId(coord_id.to_owned());
        let deltas = self.repo.get_deltas(&cid);
        if deltas.len() == 0 {
            return Err(BmsError::DeltaNotFound(coord_id.to_owned()));
        }
        let state = self.head_state(&cid);
        let head_delta_id = deltas[deltas.len() - 1].id.clone();
        let snap = match self.manager.create_snapshot(cid, head_delta_id, state) {
            Ok(s) => s,
            Err(_) => {
                return Err(BmsError::DeltaNotFound(coord_id.to_owned()));
            },
        };
        let snap_id = snap.id.clone();
        let state_hash = snap.state_hash.clone();
        let ghost repo2 = self.repo;
        self.repo.insert_snapshot(snap);
        proof {
            lemma_coord_deltas_same(repo2, self.repo);
            let ds2 = coord_deltas(self.repo, coord_id@);
            assert forall|j: int|
                0 <= j < self.repo.snaps@.len() implies snap_row_ok(
                self.repo,
                (#[trigger] self.repo.snaps@[j])@,
            ) by {
                if j < self.repo.snaps@.len() - 1 {
                    assert(self.repo.snaps@[j] == repo2.snaps@[j]);
                    assert(snap_row_ok(repo2, self.repo.snaps@[j]@));
                } else {
                    let row = self.repo.snaps@[j]@;
                    assert(row.head_pos == ds2.len());
                    assert(ds2.take(row.head_pos) =~= ds2);
                }
            }
        }
        Ok((snap_id, state_hash))
    }
}

} // verus!
