use vstd::prelude::*;

use crate::clock::now_rfc3339;
use crate::delta::{state_hash_of, DeltaEngine};
use crate::error::BmsError;
use crate::merkle::view_deltas;
use crate::patch::apply_ops_spec;
use crate::types::{CoordId, Delta, DeltaId, Snapshot, SnapshotId, SpecDelta, SpecSnapshot};
use crate::value::{SpecValue, Value};

verus! {

/// The state reached by applying each delta's patch in order, or
/// `None` as soon as one fails.
pub open spec fn fold_deltas(s: SpecValue, ds: Seq<SpecDelta>) -> Option<SpecValue>
    decreases ds.len(),
{
    if ds.len() == 0 {
        Some(s)
    } else {
        match apply_ops_spec(s, ds[0].ops) {
            Some(m) => fold_deltas(m, ds.drop_first()),
            None => None,
        }
    }
}

/// The index of the first delta whose patch fails, or the length.
pub open spec fn fold_break(s: SpecValue, ds: Seq<SpecDelta>) -> int
    decreases ds.len(),
{
    if ds.len() == 0 {
        0
    } else {
        match apply_ops_spec(s, ds[0].ops) {
            Some(m) => 1 + fold_break(m, ds.drop_first()),
            None => 0,
        }
    }
}

/// Splitting a fold over a concatenation.
pub proof fn lemma_fold_deltas_app(s: SpecValue, a: Seq<SpecDelta>, b: Seq<SpecDelta>)
    ensures
        fold_deltas(s, a + b) == match fold_deltas(s, a) {
            Some(m) => fold_deltas(m, b),
            None => None,
        },
    decreases a.len(),
{
    if a.len() == 0 {
        assert(a + b =~= b);
    } else {
        assert((a + b)[0] == a[0]);
        match apply_ops_spec(s, a[0].ops) {
            Some(m) => {
                lemma_fold_deltas_app(m, a.drop_first(), b);
                assert((a + b).drop_first() =~= a.drop_first() + b);
            },
            None => {
                assert((a + b).len() > 0);
            },
        }
    }
}

/// Folding one more delta.
pub proof fn lemma_fold_deltas_push(s: SpecValue, a: Seq<SpecDelta>, d: SpecDelta)
    ensures
        fold_deltas(s, a.push(d)) == match fold_deltas(s, a) {
            Some(m) => apply_ops_spec(m, d.ops),
            None => None,
        },
{
    lemma_fold_deltas_app(s, a, seq![d]);
    assert(a.push(d) =~= a + seq![d]);
    match fold_deltas(s, a) {
        Some(m) => {
            match apply_ops_spec(m, d.ops) {
                Some(m2) => {
                    assert(seq![d].drop_first() =~= Seq::<SpecDelta>::empty());
                    assert(fold_deltas(m2, Seq::<SpecDelta>::empty()) == Some(m2));
                    assert(seq![d][0] == d);
                },
                None => {
                    assert(seq![d][0] == d);
                },
            }
        },
        None => {},
    }
}

/// Where the replay's failure index lies: at the first delta whose
/// patch fails after a sound prefix.
pub proof fn lemma_fold_break_at(s: SpecValue, ds: Seq<SpecDelta>, i: int)
    requires
        0 <= i < ds.len(),
        fold_deltas(s, ds.take(i)) is Some,
        apply_ops_spec(fold_deltas(s, ds.take(i)).unwrap(), ds[i].ops) is None,
    ensures
        fold_break(s, ds) == i,
    decreases i,
{
    if i == 0 {
        assert(ds.take(0) =~= Seq::<SpecDelta>::empty());
        assert(fold_deltas(s, ds.take(0)) == Some(s));
    } else {
        assert(ds.take(i)[0] == ds[0]);
        match apply_ops_spec(s, ds[0].ops) {
            Some(m) => {
                assert(ds.take(i).drop_first() =~= ds.drop_first().take(i - 1));
                assert(ds.drop_first()[i - 1] == ds[i]);
                lemma_fold_break_at(m, ds.drop_first(), i - 1);
            },
            None => {
                assert(fold_deltas(s, ds.take(i)) is None);
            },
        }
    }
}

pub proof fn lemma_fold_break(s: SpecValue, ds: Seq<SpecDelta>)
    ensures
        0 <= fold_break(s, ds) <= ds.len(),
        (fold_break(s, ds) == ds.len()) == (fold_deltas(s, ds) is Some),
        fold_break(s, ds) < ds.len() ==> fold_deltas(s, ds.take(fold_break(s, ds))) is Some
            && apply_ops_spec(
            fold_deltas(s, ds.take(fold_break(s, ds))).unwrap(),
            ds[fold_break(s, ds)].ops,
        ) is None,
    decreases ds.len(),
{
    if ds.len() > 0 {
        match apply_ops_spec(s, ds[0].ops) {
            Some(m) => {
                lemma_fold_break(m, ds.drop_first());
                let p = fold_break(s, ds);
                let pt = fold_break(m, ds.drop_first());
                assert(p == 1 + pt);
                if p < ds.len() {
                    assert(ds.take(p).drop_first() =~= ds.drop_first().take(pt));
                    assert(ds.drop_first()[pt] == ds[p]);
                }
            },
            None => {
                assert(ds.take(0) =~= Seq::<SpecDelta>::empty());
            },
        }
    }
}

/// A snapshot's recorded digest matches its embedded state.
pub open spec fn snapshot_ok(s: SpecSnapshot) -> bool {
    s.state_hash == state_hash_of(s.state)
}

/// Decides snapshot cadence, materializes snapshots, and replays
/// deltas over them.
pub struct SnapshotManager {
    pub snapshot_interval: u32,
}

impl SnapshotManager {
    /// A manager that snapshots every `snapshot_interval` deltas.
    pub fn new(snapshot_interval: u32) -> (r: SnapshotManager)
        requires
            snapshot_interval >= 1,
        ensures
            r.snapshot_interval == snapshot_interval,
    {
        SnapshotManager { snapshot_interval }
    }

    /// Whether a chain of `delta_count` deltas is due for a snapshot.
    pub fn should_snapshot(&self, delta_count: u32) -> (r: bool)
        requires
            self.snapshot_interval >= 1,
        ensures
            r == (delta_count % self.snapshot_interval == 0),
    {
        delta_count % self.snapshot_interval == 0
    }

    /// Materializes a snapshot of `state` at `head_delta_id`: the
    /// recorded digest is the state's digest, and the id is its first
    /// 32 hex digits.
    pub fn create_snapshot(
        &self,
        coord_id: CoordId,
        head_delta_id: DeltaId,
        state: Value,
    ) -> (r: Result<Snapshot, BmsError>)
        ensures
            r is Ok,
            r matches Ok(s) ==> s@.coord_id == coord_id@ && s@.head_delta_id == head_delta_id@
                && s@.state == state@ && snapshot_ok(s@) && s@.id == state_hash_of(
                state@,
            ).take(32),
    {
        let state_hash = match DeltaEngine::hash_state(&state) {
            Ok(h) => h,
            Err(e) => {
                return Err(e);
            },
        };
        let mut id_chars: Vec<char> = Vec::new();
        let mut t: usize = 0;
        while t < 32
            invariant
                t <= 32,
                state_hash@.len() == 64,
                state_hash@ == state_hash_of(state@),
                id_chars@ == state_hash@.take(t as int),
            decreases 32 - t,
        {
            let c = state_hash.0.as_str().get_char(t);
            id_chars.push(c);
            proof {
                assert(state_hash@.take(t + 1) =~= state_hash@.take(t as int).push(
                    state_hash@[t as int],
                ));
            }
            t = t + 1;
        }
        let id = SnapshotId(crate::canonical::chars_to_string(&id_chars));
        Ok(
            Snapshot {
                id,
                coord_id,
                head_delta_id,
                state_hash,
                state,
                created_at: now_rfc3339(),
            },
        )
    }

    /// Replays `deltas` in order over the snapshot's state. A failing
    /// delta aborts with its id.
    #[verifier::loop_isolation(false)]
    pub fn reconstruct(snapshot: &Snapshot, deltas: &Vec<Delta>) -> (r: Result<Value, BmsError>)
        ensures
            fold_deltas(snapshot@.state, view_deltas(deltas@)) matches Some(s) ==> (
            r matches Ok(v) && v@ == s),
            fold_deltas(snapshot@.state, view_deltas(deltas@)) is None ==> (r matches Err(e)
                && (e matches BmsError::ReconstructionFailed(id) ==> id@ == view_deltas(
                deltas@,
            )[fold_break(snapshot@.state, view_deltas(deltas@))].id)),
            r is Err ==> fold_deltas(snapshot@.state, view_deltas(deltas@)) is None,
            r matches Err(e) ==> e is ReconstructionFailed,
    {
        let ghost ds = view_deltas(deltas@);
        let ghost s0 = snapshot@.state;
        proof {
            lemma_fold_break(s0, ds);
        }
        let mut state = snapshot.state.clone();
        let mut i: usize = 0;
        proof {
            assert(ds.take(0) =~= Seq::<SpecDelta>::empty());
        }
        while i < deltas.len()
            invariant
                i <= ds.len(),
                fold_deltas(s0, ds.take(i as int)) == Some(state@),
            decreases ds.len() - i,
        {
            match DeltaEngine::apply_delta(&mut state, &deltas[i].ops) {
                Ok(_) => {
                    proof {
                        assert(ds.take(i + 1) =~= ds.take(i as int).push(ds[i as int]));
                        lemma_fold_deltas_push(s0, ds.take(i as int), ds[i as int]);
                    }
                },
                Err(_) => {
                    proof {
                        assert(ds =~= ds.take(i as int) + ds.skip(i as int));
                        lemma_fold_deltas_app(s0, ds.take(i as int), ds.skip(i as int));
                        assert(ds.skip(i as int)[0] == ds[i as int]);
                        assert(fold_deltas(s0, ds) is None);
                        lemma_fold_break_at(s0, ds, i as int);
                    }
                    return Err(BmsError::ReconstructionFailed(deltas[i].id.0.clone()));
                },
            }
            i = i + 1;
        }
        proof {
            assert(ds.take(ds.len() as int) =~= ds);
        }
        Ok(state)
    }

    /// Recomputes the state digest and holds it against the recorded
    /// one: `Ok` exactly on a match.
    pub fn verify_snapshot(&self, snapshot: &Snapshot) -> (r: Result<(), BmsError>)
        ensures
            r is Ok <==> snapshot_ok(snapshot@),
            r matches Err(e) ==> e matches BmsError::HashMismatch { expected, actual }
                && expected@ == snapshot@.state_hash && actual@ == state_hash_of(
                snapshot@.state,
            ),
    {
        let computed = match DeltaEngine::hash_state(&snapshot.state) {
            Ok(h) => h,
            Err(e) => {
                return Err(e);
            },
        };
        if computed.0.eq(&snapshot.state_hash.0) {
            Ok(())
        } else {
            Err(
                BmsError::HashMismatch {
                    expected: snapshot.state_hash.0.clone(),
                    actual: computed.0,
                },
            )
        }
    }

    /// The latest snapshot, if any (snapshots are kept in creation
    /// order).
    pub fn find_nearest_snapshot<'a>(
        snapshots: &'a Vec<Snapshot>,
        _target_delta_id: &DeltaId,
    ) -> (r: Option<&'a Snapshot>)
        ensures
            r matches Some(s) ==> snapshots@.len() > 0 && s@ == snapshots@[snapshots@.len()
                - 1]@,
            r is None <==> snapshots@.len() == 0,
    {
        if snapshots.len() == 0 {
            None
        } else {
            Some(&snapshots[snapshots.len() - 1])
        }
    }
}

} // verus!
