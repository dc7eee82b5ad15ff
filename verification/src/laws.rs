use vstd::prelude::*;

use crate::canonical::canon_bytes;
use crate::delta::{hash_delta_of, state_hash_of};
use crate::diff::{key_pos, lemma_key_pos};
use crate::orchestrator::empty_state;
use crate::patch::SpecOp;
use crate::snapshot::{fold_deltas, lemma_fold_deltas_app, snapshot_ok};
use crate::types::{SpecDelta, SpecSnapshot};
use crate::value::{
    entries_of_pairs, entries_sorted, insert_entry, lemma_entries_of_pairs_sorted,
    lemma_str_lt_asym, lookup_entry, SpecValue,
};

verus! {

/// Canonicalization is deterministic: values with the same model have
/// the same canonical bytes. In particular a value and its clone
/// canonicalize identically.
pub proof fn lemma_canonicalization_deterministic(a: SpecValue, b: SpecValue)
    requires
        a == b,
    ensures
        canon_bytes(a) == canon_bytes(b),
{
}

/// Patch digests are deterministic: the digest is a function of the
/// operations' model alone, so it is the same in every run.
pub proof fn lemma_hash_deterministic(ops1: Seq<SpecOp>, ops2: Seq<SpecOp>)
    requires
        ops1 == ops2,
    ensures
        hash_delta_of(ops1) == hash_delta_of(ops2),
{
}

/// A snapshot whose recorded digest matches its state (as every
/// snapshot built by `create_snapshot` does) passes verification.
pub proof fn lemma_snapshot_soundness(s: SpecSnapshot)
    requires
        snapshot_ok(s),
    ensures
        s.state_hash == state_hash_of(s.state),
{
}

/// Reconstruction agreement: folding a whole chain from the empty
/// object equals folding the deltas after position `k` on top of the
/// state the first `k` deltas produce - the state a snapshot taken at
/// `k` embeds.
pub proof fn lemma_reconstruction_agreement(ds: Seq<SpecDelta>, k: int)
    requires
        0 <= k <= ds.len(),
        fold_deltas(empty_state(), ds.take(k)) is Some,
    ensures
        fold_deltas(empty_state(), ds) == fold_deltas(
            fold_deltas(empty_state(), ds.take(k)).unwrap(),
            ds.skip(k),
        ),
{
    assert(ds =~= ds.take(k) + ds.skip(k));
    lemma_fold_deltas_app(empty_state(), ds.take(k), ds.skip(k));
}

/// Looking a key up behind one appended pair.
proof fn lemma_lookup_push(
    s: Seq<(Seq<char>, SpecValue)>,
    x: (Seq<char>, SpecValue),
    k: Seq<char>,
)
    ensures
        lookup_entry(s.push(x), k) == if lookup_entry(s, k) is Some {
            lookup_entry(s, k)
        } else if x.0 == k {
            Some(x.1)
        } else {
            None::<SpecValue>
        },
    decreases s.len(),
{
    let p = s.push(x);
    if s.len() == 0 {
        assert(p[0] == x);
        assert(p.drop_first() =~= Seq::<(Seq<char>, SpecValue)>::empty());
        assert(lookup_entry(Seq::<(Seq<char>, SpecValue)>::empty(), k) is None);
        assert(lookup_entry(s, k) is None);
    } else {
        assert(p[0] == s[0]);
        if s[0].0 != k {
            assert(p.drop_first() =~= s.drop_first().push(x));
            lemma_lookup_push(s.drop_first(), x, k);
        }
    }
}

/// With unique keys, a lookup finds a pair exactly when the pair is in
/// the sequence.
proof fn lemma_lookup_contains(ps: Seq<(Seq<char>, SpecValue)>, k: Seq<char>, v: SpecValue)
    requires
        forall|i: int, j: int|
            0 <= i < j < ps.len() ==> (#[trigger] ps[i]).0 != (#[trigger] ps[j]).0,
    ensures
        (lookup_entry(ps, k) == Some(v)) <==> ps.contains((k, v)),
{
    lemma_key_pos(ps, k);
    let pos = key_pos(ps, k);
    if lookup_entry(ps, k) == Some(v) {
        crate::patch::lemma_entry_pos(ps, k, pos);
        assert(ps[pos] == (ps[pos].0, ps[pos].1));
        assert(ps[pos] == (k, v));
        assert(ps.contains((k, v)));
    }
    if ps.contains((k, v)) {
        let i = choose|i: int| 0 <= i < ps.len() && ps[i] == (k, v);
        assert(ps[i].0 == k);
        assert(pos < ps.len());
        crate::patch::lemma_entry_pos(ps, k, pos);
        assert(pos == i) by {
            if pos < i {
                assert(ps[pos].0 != ps[i].0);
            }
            if i < pos {
                assert(ps[i].0 != k);
            }
        }
        assert(lookup_entry(ps, k) == Some(ps[i].1));
    }
}

/// Inserting a pair rebinds its key and leaves every other key alone.
proof fn lemma_insert_lookup(
    es: Seq<(Seq<char>, SpecValue)>,
    k: Seq<char>,
    v: SpecValue,
)
    ensures
        lookup_entry(insert_entry(es, k, v), k) == Some(v),
        forall|k2: Seq<char>|
            k2 != k ==> #[trigger] lookup_entry(insert_entry(es, k, v), k2) == lookup_entry(
                es,
                k2,
            ),
    decreases es.len(),
{
    let r = insert_entry(es, k, v);
    if es.len() == 0 {
        assert(r[0] == (k, v));
        assert(r.drop_first() =~= Seq::<(Seq<char>, SpecValue)>::empty());
        assert forall|k2: Seq<char>| k2 != k implies #[trigger] lookup_entry(r, k2)
            == lookup_entry(es, k2) by {
            assert(lookup_entry(r.drop_first(), k2) == None::<SpecValue>);
        }
    } else if crate::value::str_lt_spec(k, es[0].0) {
        assert(r[0] == (k, v));
        assert(r.drop_first() =~= es);
        assert forall|k2: Seq<char>| k2 != k implies #[trigger] lookup_entry(r, k2)
            == lookup_entry(es, k2) by {
            assert(lookup_entry(r, k2) == lookup_entry(r.drop_first(), k2));
        }
    } else if k == es[0].0 {
        assert(r[0] == (k, v));
        assert(r.drop_first() =~= es.drop_first());
        assert forall|k2: Seq<char>| k2 != k implies #[trigger] lookup_entry(r, k2)
            == lookup_entry(es, k2) by {
            assert(lookup_entry(es, k2) == lookup_entry(es.drop_first(), k2));
        }
    } else {
        crate::value::lemma_str_lt_connex(k, es[0].0);
        lemma_str_lt_asym(es[0].0, k);
        lemma_insert_lookup(es.drop_first(), k, v);
        assert(r[0] == es[0]);
        assert(r.drop_first() =~= insert_entry(es.drop_first(), k, v));
        assert(lookup_entry(r, k) == Some(v));
        assert forall|k2: Seq<char>| k2 != k implies #[trigger] lookup_entry(r, k2)
            == lookup_entry(es, k2) by {
            if es[0].0 != k2 {
                assert(lookup_entry(r, k2) == lookup_entry(r.drop_first(), k2));
                assert(lookup_entry(es, k2) == lookup_entry(es.drop_first(), k2));
            }
        }
    }
}

/// With unique keys, the built entries answer lookups exactly like the
/// pairs themselves.
proof fn lemma_entries_lookup(ps: Seq<(Seq<char>, SpecValue)>, k: Seq<char>)
    requires
        forall|i: int, j: int|
            0 <= i < j < ps.len() ==> (#[trigger] ps[i]).0 != (#[trigger] ps[j]).0,
    ensures
        lookup_entry(entries_of_pairs(ps), k) == lookup_entry(ps, k),
    decreases ps.len(),
{
    if ps.len() == 0 {
    } else {
        let ps0 = ps.drop_last();
        let p = ps.last();
        assert forall|i: int, j: int|
            0 <= i < j < ps0.len() implies (#[trigger] ps0[i]).0 != (#[trigger] ps0[j]).0 by {
            assert(ps0[i] == ps[i]);
            assert(ps0[j] == ps[j]);
        }
        lemma_entries_lookup(ps0, k);
        lemma_insert_lookup(entries_of_pairs(ps0), p.0, p.1);
        assert(ps0.push(p) =~= ps);
        lemma_lookup_push(ps0, p, k);
        if k == p.0 {
            // the last pair's key occurs nowhere earlier
            lemma_key_pos(ps0, k);
            if key_pos(ps0, k) < ps0.len() {
                assert(ps0[key_pos(ps0, k)].0 == ps[ps.len() - 1].0);
            }
            assert(lookup_entry(ps0, k) is None);
        }
    }
}

/// Two sorted entry sequences that answer every lookup alike are
/// equal.
proof fn lemma_sorted_lookup_eq(
    es1: Seq<(Seq<char>, SpecValue)>,
    es2: Seq<(Seq<char>, SpecValue)>,
)
    requires
        entries_sorted(es1),
        entries_sorted(es2),
        forall|k: Seq<char>| #[trigger] lookup_entry(es1, k) == lookup_entry(es2, k),
    ensures
        es1 == es2,
    decreases es1.len(),
{
    if es1.len() == 0 {
        if es2.len() > 0 {
            assert(lookup_entry(es2, es2[0].0) == Some(es2[0].1));
            assert(lookup_entry(es1, es2[0].0) is None);
        }
        assert(es1 =~= es2);
    } else if es2.len() == 0 {
        assert(lookup_entry(es1, es1[0].0) == Some(es1[0].1));
        assert(lookup_entry(es2, es1[0].0) is None);
    } else {
        let k1 = es1[0].0;
        let k2 = es2[0].0;
        assert(lookup_entry(es1, k1) == Some(es1[0].1));
        assert(lookup_entry(es2, k2) == Some(es2[0].1));
        lemma_key_pos(es2, k1);
        lemma_key_pos(es1, k2);
        assert(k1 == k2) by {
            if k1 != k2 {
                let p2 = key_pos(es2, k1);
                assert(p2 < es2.len());
                assert(es2[p2].0 == k1);
                assert(p2 != 0);
                assert(crate::value::str_lt_spec(k2, k1));
                let p1 = key_pos(es1, k2);
                assert(p1 < es1.len());
                assert(es1[p1].0 == k2);
                assert(p1 != 0);
                assert(crate::value::str_lt_spec(k1, k2));
                lemma_str_lt_asym(k1, k2);
            }
        }
        assert(es1[0].1 == es2[0].1) by {
            assert(lookup_entry(es1, k1) == lookup_entry(es2, k1));
        }
        let t1 = es1.drop_first();
        let t2 = es2.drop_first();
        assert(entries_sorted(t1)) by {
            assert forall|i: int, j: int|
                0 <= i < j < t1.len() implies crate::value::str_lt_spec(
                (#[trigger] t1[i]).0,
                (#[trigger] t1[j]).0,
            ) by {
                assert(t1[i] == es1[i + 1]);
                assert(t1[j] == es1[j + 1]);
            }
        }
        assert(entries_sorted(t2)) by {
            assert forall|i: int, j: int|
                0 <= i < j < t2.len() implies crate::value::str_lt_spec(
                (#[trigger] t2[i]).0,
                (#[trigger] t2[j]).0,
            ) by {
                assert(t2[i] == es2[i + 1]);
                assert(t2[j] == es2[j + 1]);
            }
        }
        assert forall|k: Seq<char>| #[trigger] lookup_entry(t1, k) == lookup_entry(
            t2,
            k,
        ) by {
            if k == k1 {
                lemma_key_pos(t1, k);
                if key_pos(t1, k) < t1.len() {
                    assert(crate::value::str_lt_spec(es1[0].0, t1[key_pos(t1, k)].0)) by {
                        assert(t1[key_pos(t1, k)] == es1[key_pos(t1, k) + 1]);
                    }
                    lemma_str_lt_asym(es1[0].0, t1[key_pos(t1, k)].0);
                }
                assert(lookup_entry(t1, k) is None);
                lemma_key_pos(t2, k);
                if key_pos(t2, k) < t2.len() {
                    assert(crate::value::str_lt_spec(es2[0].0, t2[key_pos(t2, k)].0)) by {
                        assert(t2[key_pos(t2, k)] == es2[key_pos(t2, k) + 1]);
                    }
                    lemma_str_lt_asym(es2[0].0, t2[key_pos(t2, k)].0);
                }
                assert(lookup_entry(t2, k) is None);
            } else {
                assert(lookup_entry(es1, k) == lookup_entry(t1, k));
                assert(lookup_entry(es2, k) == lookup_entry(t2, k));
            }
        }
        lemma_sorted_lookup_eq(t1, t2);
        assert(es1[0] == es2[0]);
        assert forall|i: int| 0 <= i < es1.len() implies es1[i] == es2[i] by {
            if i > 0 {
                assert(t1[i - 1] == es1[i]);
                assert(t2[i - 1] == es2[i]);
            }
        }
        assert(es1 =~= es2);
    }
}

/// Object construction is order independent: any permutation of pairs
/// with pairwise distinct keys builds the same sorted entries, and so
/// the same object and the same canonical bytes.
pub proof fn lemma_object_order_independent(
    ps1: Seq<(Seq<char>, SpecValue)>,
    ps2: Seq<(Seq<char>, SpecValue)>,
)
    requires
        ps1.to_multiset() == ps2.to_multiset(),
        forall|i: int, j: int|
            0 <= i < j < ps1.len() ==> (#[trigger] ps1[i]).0 != (#[trigger] ps1[j]).0,
    ensures
        entries_of_pairs(ps1) == entries_of_pairs(ps2),
{
    broadcast use vstd::seq_lib::group_to_multiset_ensures;

    // the pairs of ps1 are pairwise distinct, so each occurs once
    assert(ps1.no_duplicates()) by {
        assert forall|i: int, j: int|
            0 <= i < ps1.len() && 0 <= j < ps1.len() && i != j implies ps1[i] != ps1[j] by {
            if i < j {
                assert(ps1[i].0 != ps1[j].0);
            } else {
                assert(ps1[j].0 != ps1[i].0);
            }
        }
    }
    ps1.lemma_multiset_has_no_duplicates();
    ps2.lemma_multiset_has_no_duplicates_conv();
    // ps2 also has pairwise distinct keys
    assert forall|i: int, j: int|
        0 <= i < j < ps2.len() implies (#[trigger] ps2[i]).0 != (#[trigger] ps2[j]).0 by {
        if ps2[i].0 == ps2[j].0 {
            assert(ps2[i] != ps2[j]);
            assert(ps2.contains(ps2[i]));
            assert(ps2.contains(ps2[j]));
            assert(ps2.to_multiset().count(ps2[i]) > 0);
            assert(ps2.to_multiset().count(ps2[j]) > 0);
            assert(ps1.to_multiset().count(ps2[i]) > 0);
            assert(ps1.to_multiset().count(ps2[j]) > 0);
            assert(ps1.contains(ps2[i]));
            assert(ps1.contains(ps2[j]));
            let a = choose|a: int| 0 <= a < ps1.len() && ps1[a] == ps2[i];
            let b = choose|b: int| 0 <= b < ps1.len() && ps1[b] == ps2[j];
            assert(a != b);
            if a < b {
                assert(ps1[a].0 != ps1[b].0);
            } else {
                assert(ps1[b].0 != ps1[a].0);
            }
        }
    }
    // the two pair lists answer every lookup alike
    assert forall|k: Seq<char>| #[trigger] lookup_entry(ps1, k) == lookup_entry(ps2, k) by {
        match lookup_entry(ps1, k) {
            Some(v) => {
                lemma_lookup_contains(ps1, k, v);
                assert(ps1.contains((k, v)));
                assert(ps1.to_multiset().count((k, v)) > 0);
                assert(ps2.to_multiset().count((k, v)) > 0);
                assert(ps2.contains((k, v)));
                lemma_lookup_contains(ps2, k, v);
            },
            None => {
                match lookup_entry(ps2, k) {
                    Some(v) => {
                        lemma_lookup_contains(ps2, k, v);
                        assert(ps2.contains((k, v)));
                        assert(ps2.to_multiset().count((k, v)) > 0);
                        assert(ps1.to_multiset().count((k, v)) > 0);
                        assert(ps1.contains((k, v)));
                        lemma_lookup_contains(ps1, k, v);
                    },
                    None => {},
                }
            },
        }
    }
    // so do the built entry sequences, which are sorted
    assert forall|k: Seq<char>| #[trigger] lookup_entry(entries_of_pairs(ps1), k)
        == lookup_entry(entries_of_pairs(ps2), k) by {
        lemma_entries_lookup(ps1, k);
        lemma_entries_lookup(ps2, k);
    }
    lemma_entries_of_pairs_sorted(ps1);
    lemma_entries_of_pairs_sorted(ps2);
    lemma_sorted_lookup_eq(entries_of_pairs(ps1), entries_of_pairs(ps2));
}

} // verus!
