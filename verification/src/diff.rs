use vstd::prelude::*;

use crate::patch::{
    add_at, apply_op_spec, apply_ops_spec, lemma_apply_ops_app, lemma_apply_ops_push,
    lemma_entry_pos, remove_at, view_ops, view_tokens, PatchOp, PathToken, SpecOp, SpecToken,
};
use crate::value::{
    entries_sorted, insert_entry, lemma_insert_entry_at, lemma_str_lt_asym, lemma_str_lt_connex,
    lemma_view_elems, lemma_view_entries, lookup_entry, remove_entry, set_entry, str_lt,
    str_lt_spec, view_elems, view_entries, wf_value, SpecValue, Value,
};

verus! {

/// An operation a recursive diff may emit: `add` and `remove` always
/// name an entry or element, never the whole document.
pub open spec fn rooted_ok(op: SpecOp) -> bool {
    match op {
        SpecOp::Replace { .. } => true,
        SpecOp::Add { path, .. } => path.len() > 0,
        SpecOp::Remove { path } => path.len() > 0,
    }
}

pub open spec fn all_rooted_ok(ops: Seq<SpecOp>) -> bool {
    forall|i: int| 0 <= i < ops.len() ==> rooted_ok(#[trigger] ops[i])
}

/// The operation with one more leading path token.
pub open spec fn prefix_op(t: SpecToken, op: SpecOp) -> SpecOp {
    match op {
        SpecOp::Add { path, value } => SpecOp::Add { path: seq![t] + path, value },
        SpecOp::Remove { path } => SpecOp::Remove { path: seq![t] + path },
        SpecOp::Replace { path, value } => SpecOp::Replace { path: seq![t] + path, value },
    }
}

pub open spec fn prefix_all(t: SpecToken, ops: Seq<SpecOp>) -> Seq<SpecOp> {
    Seq::new(ops.len(), |i: int| prefix_op(t, ops[i]))
}

/// The position of the first entry with key `k` (the length if none).
pub open spec fn key_pos(es: Seq<(Seq<char>, SpecValue)>, k: Seq<char>) -> int
    decreases es.len(),
{
    if es.len() == 0 {
        0
    } else if es[0].0 == k {
        0
    } else {
        1 + key_pos(es.drop_first(), k)
    }
}

pub proof fn lemma_key_pos(es: Seq<(Seq<char>, SpecValue)>, k: Seq<char>)
    ensures
        0 <= key_pos(es, k) <= es.len(),
        forall|i: int| 0 <= i < key_pos(es, k) ==> (#[trigger] es[i]).0 != k,
        key_pos(es, k) < es.len() ==> es[key_pos(es, k)].0 == k,
        (key_pos(es, k) < es.len()) == (lookup_entry(es, k) is Some),
    decreases es.len(),
{
    if es.len() > 0 && es[0].0 != k {
        lemma_key_pos(es.drop_first(), k);
        let p = key_pos(es, k);
        assert forall|i: int| 0 <= i < p implies (#[trigger] es[i]).0 != k by {
            if i > 0 {
                assert(es.drop_first()[i - 1].0 != k);
            }
        }
    }
}

/// Applying an operation under one more object key: navigate to the
/// child, apply there, put the result back. Holds for operations that
/// do not add or remove the whole child.
pub proof fn lemma_step_obj_child(
    es: Seq<(Seq<char>, SpecValue)>,
    k: Seq<char>,
    child: SpecValue,
    op: SpecOp,
)
    requires
        lookup_entry(es, k) == Some(child),
        rooted_ok(op),
    ensures
        apply_op_spec(SpecValue::Obj(es), prefix_op(SpecToken::Key(k), op)) == match apply_op_spec(
            child,
            op,
        ) {
            Some(c2) => Some(SpecValue::Obj(set_entry(es, k, c2))),
            None => None,
        },
{
    lemma_key_pos(es, k);
    let pos = key_pos(es, k);
    lemma_entry_pos(es, k, pos);
    match op {
        SpecOp::Add { path, value } => {
            let p2 = seq![SpecToken::Key(k)] + path;
            assert(p2[0] == SpecToken::Key(k));
            assert(p2.drop_first() =~= path);
            assert(path.len() > 0);
            assert(p2.len() > 1);
        },
        SpecOp::Remove { path } => {
            let p2 = seq![SpecToken::Key(k)] + path;
            assert(p2[0] == SpecToken::Key(k));
            assert(p2.drop_first() =~= path);
            assert(path.len() > 0);
            assert(p2.len() > 1);
        },
        SpecOp::Replace { path, value } => {
            let p2 = seq![SpecToken::Key(k)] + path;
            assert(p2[0] == SpecToken::Key(k));
            assert(p2.drop_first() =~= path);
        },
    }
}

/// The array counterpart of `lemma_step_obj_child`.
pub proof fn lemma_step_arr_child(elems: Seq<SpecValue>, i: int, op: SpecOp)
    requires
        0 <= i < elems.len(),
        rooted_ok(op),
    ensures
        apply_op_spec(SpecValue::Arr(elems), prefix_op(SpecToken::Index(i), op)) == match
            apply_op_spec(elems[i], op) {
            Some(c2) => Some(SpecValue::Arr(elems.update(i, c2))),
            None => None,
        },
{
    match op {
        SpecOp::Add { path, value } => {
            let p2 = seq![SpecToken::Index(i)] + path;
            assert(p2[0] == SpecToken::Index(i));
            assert(p2.drop_first() =~= path);
            assert(path.len() > 0);
            assert(p2.len() > 1);
        },
        SpecOp::Remove { path } => {
            let p2 = seq![SpecToken::Index(i)] + path;
            assert(p2[0] == SpecToken::Index(i));
            assert(p2.drop_first() =~= path);
            assert(path.len() > 0);
            assert(p2.len() > 1);
        },
        SpecOp::Replace { path, value } => {
            let p2 = seq![SpecToken::Index(i)] + path;
            assert(p2[0] == SpecToken::Index(i));
            assert(p2.drop_first() =~= path);
        },
    }
}

/// Replacing a child keeps the keys, and so the entry positions.
pub proof fn lemma_set_entry_frame(
    es: Seq<(Seq<char>, SpecValue)>,
    k: Seq<char>,
    v: SpecValue,
)
    requires
        lookup_entry(es, k) is Some,
    ensures
        lookup_entry(set_entry(es, k, v), k) == Some(v),
        forall|v2: SpecValue| #[trigger] set_entry(set_entry(es, k, v), k, v2) == set_entry(
            es,
            k,
            v2,
        ),
{
    lemma_key_pos(es, k);
    let pos = key_pos(es, k);
    lemma_entry_pos(es, k, pos);
    let s1 = set_entry(es, k, v);
    assert(s1 =~= es.update(pos, (k, v)));
    assert forall|i: int| 0 <= i < pos implies (#[trigger] s1[i]).0 != k by {
        assert(s1[i] == es[i]);
    }
    assert(s1[pos].0 == k);
    lemma_entry_pos(s1, k, pos);
    assert forall|v2: SpecValue| #[trigger] set_entry(set_entry(es, k, v), k, v2) == set_entry(
        es,
        k,
        v2,
    ) by {
        assert(set_entry(s1, k, v2) =~= s1.update(pos, (k, v2)));
        assert(set_entry(es, k, v2) =~= es.update(pos, (k, v2)));
        assert(s1.update(pos, (k, v2)) =~= es.update(pos, (k, v2)));
    }
}

/// Lifting a whole operation list under an object key.
pub proof fn lemma_prefix_ops_obj(
    es: Seq<(Seq<char>, SpecValue)>,
    k: Seq<char>,
    child: SpecValue,
    ops: Seq<SpecOp>,
)
    requires
        lookup_entry(es, k) == Some(child),
        all_rooted_ok(ops),
    ensures
        apply_ops_spec(SpecValue::Obj(es), prefix_all(SpecToken::Key(k), ops)) == match
            apply_ops_spec(child, ops) {
            Some(c2) => Some(SpecValue::Obj(set_entry(es, k, c2))),
            None => None,
        },
    decreases ops.len(),
{
    let pa = prefix_all(SpecToken::Key(k), ops);
    if ops.len() == 0 {
        assert(pa.len() == 0);
        lemma_key_pos(es, k);
        lemma_entry_pos(es, k, key_pos(es, k));
        assert(set_entry(es, k, child) =~= es);
    } else {
        assert(rooted_ok(ops[0]));
        lemma_step_obj_child(es, k, child, ops[0]);
        assert(pa[0] == prefix_op(SpecToken::Key(k), ops[0]));
        assert(pa.drop_first() =~= prefix_all(SpecToken::Key(k), ops.drop_first()));
        assert(all_rooted_ok(ops.drop_first())) by {
            assert(forall|i: int|
                0 <= i < ops.drop_first().len() ==> ops.drop_first()[i] == ops[i + 1]);
        }
        match apply_op_spec(child, ops[0]) {
            Some(c1) => {
                lemma_set_entry_frame(es, k, c1);
                let es1 = set_entry(es, k, c1);
                lemma_prefix_ops_obj(es1, k, c1, ops.drop_first());
                match apply_ops_spec(c1, ops.drop_first()) {
                    Some(c2) => {
                        assert(set_entry(es1, k, c2) == set_entry(es, k, c2));
                    },
                    None => {},
                }
            },
            None => {},
        }
    }
}

/// Lifting a whole operation list under an array index.
pub proof fn lemma_prefix_ops_arr(elems: Seq<SpecValue>, i: int, ops: Seq<SpecOp>)
    requires
        0 <= i < elems.len(),
        all_rooted_ok(ops),
    ensures
        apply_ops_spec(SpecValue::Arr(elems), prefix_all(SpecToken::Index(i), ops)) == match
            apply_ops_spec(elems[i], ops) {
            Some(c2) => Some(SpecValue::Arr(elems.update(i, c2))),
            None => None,
        },
    decreases ops.len(),
{
    let pa = prefix_all(SpecToken::Index(i), ops);
    if ops.len() == 0 {
        assert(pa.len() == 0);
        assert(elems.update(i, elems[i]) =~= elems);
    } else {
        assert(rooted_ok(ops[0]));
        lemma_step_arr_child(elems, i, ops[0]);
        assert(pa[0] == prefix_op(SpecToken::Index(i), ops[0]));
        assert(pa.drop_first() =~= prefix_all(SpecToken::Index(i), ops.drop_first()));
        assert(all_rooted_ok(ops.drop_first())) by {
            assert(forall|j: int|
                0 <= j < ops.drop_first().len() ==> ops.drop_first()[j] == ops[j + 1]);
        }
        match apply_op_spec(elems[i], ops[0]) {
            Some(c1) => {
                let e1 = elems.update(i, c1);
                lemma_prefix_ops_arr(e1, i, ops.drop_first());
                match apply_ops_spec(c1, ops.drop_first()) {
                    Some(c2) => {
                        assert(e1.update(i, c2) =~= elems.update(i, c2));
                    },
                    None => {},
                }
            },
            None => {},
        }
    }
}

impl Clone for PathToken {
    /// A clone has the same model as the original.
    fn clone(&self) -> (r: PathToken)
        ensures
            r@ == self@,
    {
        match self {
            PathToken::Key(k) => PathToken::Key(k.clone()),
            PathToken::Index(i) => PathToken::Index(*i),
        }
    }
}

/// Pushes `tok` in front of every operation's path.
fn prefix_ops(tok: &PathToken, ops: Vec<PatchOp>) -> (r: Vec<PatchOp>)
    ensures
        view_ops(r@) == prefix_all(tok@, view_ops(ops@)),
{
    let ghost orig = view_ops(ops@);
    let mut rest = ops;
    let mut out: Vec<PatchOp> = Vec::new();
    while rest.len() > 0
        invariant
            out@.len() + rest@.len() == orig.len(),
            forall|i: int|
                0 <= i < rest@.len() ==> #[trigger] rest@[i]@ == orig[out@.len() + i],
            forall|i: int| 0 <= i < out@.len() ==> #[trigger] out@[i]@ == prefix_op(tok@, orig[i]),
        decreases rest@.len(),
    {
        let ghost t = out@.len() as int;
        let op = rest.remove(0);
        proof {
            assert(op@ == orig[t]);
        }
        let new_op = match op {
            PatchOp::Add { mut path, value } => {
                let ghost p0 = path@;
                path.insert(0, tok.clone());
                proof {
                    assert(path@.drop_first() =~= p0);
                    assert(view_tokens(path@) =~= seq![tok@] + view_tokens(p0));
                }
                PatchOp::Add { path, value }
            },
            PatchOp::Remove { mut path } => {
                let ghost p0 = path@;
                path.insert(0, tok.clone());
                proof {
                    assert(path@.drop_first() =~= p0);
                    assert(view_tokens(path@) =~= seq![tok@] + view_tokens(p0));
                }
                PatchOp::Remove { path }
            },
            PatchOp::Replace { mut path, value } => {
                let ghost p0 = path@;
                path.insert(0, tok.clone());
                proof {
                    assert(path@.drop_first() =~= p0);
                    assert(view_tokens(path@) =~= seq![tok@] + view_tokens(p0));
                }
                PatchOp::Replace { path, value }
            },
        };
        proof {
            assert(new_op@ == prefix_op(tok@, orig[t]));
        }
        out.push(new_op);
    }
    proof {
        assert(view_ops(out@) =~= prefix_all(tok@, orig));
    }
    out
}

/// An element of a well-formed array is well formed.
pub proof fn lemma_wf_arr_elem(elems: Seq<SpecValue>, i: int)
    requires
        wf_value(SpecValue::Arr(elems)),
        0 <= i < elems.len(),
    ensures
        wf_value(elems[i]),
{
    crate::value::lemma_wf_elems(elems);
}

/// A child of a well-formed object is well formed.
pub proof fn lemma_wf_obj_entry(es: Seq<(Seq<char>, SpecValue)>, i: int)
    requires
        wf_value(SpecValue::Obj(es)),
        0 <= i < es.len(),
    ensures
        wf_value(es[i].1),
{
    crate::value::lemma_wf_entry_values(es);
}

/// One merge step that removes a key the previous state alone has.
proof fn lemma_obj_step_remove(
    pv: Seq<(Seq<char>, SpecValue)>,
    cv: Seq<(Seq<char>, SpecValue)>,
    i: int,
    j: int,
    pre_ops: Seq<SpecOp>,
)
    requires
        0 <= i < pv.len(),
        0 <= j <= cv.len(),
        forall|m: int, n: int|
            0 <= m < j && i <= n < pv.len() ==> str_lt_spec(
                (#[trigger] cv[m]).0,
                (#[trigger] pv[n]).0,
            ),
        apply_ops_spec(SpecValue::Obj(pv), pre_ops) == Some(
            SpecValue::Obj(cv.take(j) + pv.skip(i)),
        ),
    ensures
        apply_ops_spec(
            SpecValue::Obj(pv),
            pre_ops.push(SpecOp::Remove { path: seq![SpecToken::Key(pv[i].0)] }),
        ) == Some(SpecValue::Obj(cv.take(j) + pv.skip(i + 1))),
{
    let k = pv[i].0;
    let mid = cv.take(j) + pv.skip(i);
    assert(mid[j] == pv[i]);
    assert forall|m: int| 0 <= m < j implies (#[trigger] mid[m]).0 != k by {
        assert(mid[m] == cv[m]);
        lemma_str_lt_asym(cv[m].0, pv[i].0);
    }
    lemma_entry_pos(mid, k, j);
    lemma_apply_ops_push(
        SpecValue::Obj(pv),
        pre_ops,
        SpecOp::Remove { path: seq![SpecToken::Key(k)] },
    );
    assert(remove_at(SpecValue::Obj(mid), seq![SpecToken::Key(k)]) == Some(
        SpecValue::Obj(remove_entry(mid, k)),
    ));
    assert(remove_entry(mid, k) =~= mid.remove(j));
    assert(mid.remove(j) =~= cv.take(j) + pv.skip(i + 1));
}

/// One merge step that adds a key the current state alone has.
proof fn lemma_obj_step_add(
    pv: Seq<(Seq<char>, SpecValue)>,
    cv: Seq<(Seq<char>, SpecValue)>,
    i: int,
    j: int,
    pre_ops: Seq<SpecOp>,
)
    requires
        0 <= i <= pv.len(),
        0 <= j < cv.len(),
        entries_sorted(cv),
        i < pv.len() ==> str_lt_spec(cv[j].0, pv[i].0),
        apply_ops_spec(SpecValue::Obj(pv), pre_ops) == Some(
            SpecValue::Obj(cv.take(j) + pv.skip(i)),
        ),
    ensures
        apply_ops_spec(
            SpecValue::Obj(pv),
            pre_ops.push(SpecOp::Add { path: seq![SpecToken::Key(cv[j].0)], value: cv[j].1 }),
        ) == Some(SpecValue::Obj(cv.take(j + 1) + pv.skip(i))),
{
    let k = cv[j].0;
    let nvv = cv[j].1;
    let mid = cv.take(j) + pv.skip(i);
    lemma_apply_ops_push(
        SpecValue::Obj(pv),
        pre_ops,
        SpecOp::Add { path: seq![SpecToken::Key(k)], value: nvv },
    );
    assert forall|m: int| 0 <= m < j implies str_lt_spec((#[trigger] mid[m]).0, k) by {
        assert(mid[m] == cv[m]);
        assert(str_lt_spec(cv[m].0, cv[j].0));
    }
    if i < pv.len() {
        assert(mid[j] == pv[i]);
        lemma_str_lt_asym(k, pv[i].0);
    }
    lemma_insert_entry_at(mid, k, nvv, j);
    assert(add_at(SpecValue::Obj(mid), seq![SpecToken::Key(k)], nvv) == Some(
        SpecValue::Obj(insert_entry(mid, k, nvv)),
    ));
    assert(mid.take(j) =~= cv.take(j));
    assert(mid.skip(j) =~= pv.skip(i));
    assert(insert_entry(mid, k, nvv) =~= cv.take(j + 1) + pv.skip(i));
}

/// One merge step that rewrites the child under a key both states
/// have.
proof fn lemma_obj_step_child(
    pv: Seq<(Seq<char>, SpecValue)>,
    cv: Seq<(Seq<char>, SpecValue)>,
    i: int,
    j: int,
    pre_ops: Seq<SpecOp>,
    co: Seq<SpecOp>,
)
    requires
        0 <= i < pv.len(),
        0 <= j < cv.len(),
        pv[i].0 == cv[j].0,
        forall|m: int, n: int|
            0 <= m < j && i <= n < pv.len() ==> str_lt_spec(
                (#[trigger] cv[m]).0,
                (#[trigger] pv[n]).0,
            ),
        apply_ops_spec(SpecValue::Obj(pv), pre_ops) == Some(
            SpecValue::Obj(cv.take(j) + pv.skip(i)),
        ),
        apply_ops_spec(pv[i].1, co) == Some(cv[j].1),
        all_rooted_ok(co),
    ensures
        apply_ops_spec(
            SpecValue::Obj(pv),
            pre_ops + prefix_all(SpecToken::Key(pv[i].0), co),
        ) == Some(SpecValue::Obj(cv.take(j + 1) + pv.skip(i + 1))),
{
    let k = pv[i].0;
    let mid = cv.take(j) + pv.skip(i);
    assert(mid[j] == pv[i]);
    assert forall|m: int| 0 <= m < j implies (#[trigger] mid[m]).0 != k by {
        assert(mid[m] == cv[m]);
        lemma_str_lt_asym(cv[m].0, pv[i].0);
    }
    lemma_entry_pos(mid, k, j);
    lemma_prefix_ops_obj(mid, k, pv[i].1, co);
    lemma_apply_ops_app(SpecValue::Obj(pv), pre_ops, prefix_all(SpecToken::Key(k), co));
    assert(set_entry(mid, k, cv[j].1) =~= mid.update(j, (k, cv[j].1)));
    assert(mid.update(j, (k, cv[j].1)) =~= cv.take(j + 1) + pv.skip(i + 1)) by {
        assert(cv[j].0 == k);
    }
}

/// One aligned array step that rewrites the element at `j`.
proof fn lemma_arr_step_child(
    pv: Seq<SpecValue>,
    cv: Seq<SpecValue>,
    j: int,
    pre_ops: Seq<SpecOp>,
    co: Seq<SpecOp>,
)
    requires
        0 <= j < pv.len(),
        0 <= j < cv.len(),
        apply_ops_spec(SpecValue::Arr(pv), pre_ops) == Some(
            SpecValue::Arr(cv.take(j) + pv.skip(j)),
        ),
        apply_ops_spec(pv[j], co) == Some(cv[j]),
        all_rooted_ok(co),
    ensures
        apply_ops_spec(
            SpecValue::Arr(pv),
            pre_ops + prefix_all(SpecToken::Index(j), co),
        ) == Some(SpecValue::Arr(cv.take(j + 1) + pv.skip(j + 1))),
{
    let mid = cv.take(j) + pv.skip(j);
    assert(mid.len() == pv.len());
    assert(mid[j] == pv[j]);
    lemma_prefix_ops_arr(mid, j, co);
    lemma_apply_ops_app(SpecValue::Arr(pv), pre_ops, prefix_all(SpecToken::Index(j), co));
    assert(mid.update(j, cv[j]) =~= cv.take(j + 1) + pv.skip(j + 1));
}

/// One step appending a trailing element the current state alone has.
proof fn lemma_arr_step_push(
    pv: Seq<SpecValue>,
    cv: Seq<SpecValue>,
    t: int,
    pre_ops: Seq<SpecOp>,
)
    requires
        0 <= t < cv.len(),
        apply_ops_spec(SpecValue::Arr(pv), pre_ops) == Some(SpecValue::Arr(cv.take(t))),
    ensures
        apply_ops_spec(
            SpecValue::Arr(pv),
            pre_ops.push(SpecOp::Add { path: seq![SpecToken::Index(t)], value: cv[t] }),
        ) == Some(SpecValue::Arr(cv.take(t + 1))),
{
    let mid = cv.take(t);
    lemma_apply_ops_push(
        SpecValue::Arr(pv),
        pre_ops,
        SpecOp::Add { path: seq![SpecToken::Index(t)], value: cv[t] },
    );
    assert(mid.len() == t);
    assert(mid.insert(t, cv[t]) =~= cv.take(t + 1));
}

/// One step dropping the trailing element, by decreasing index.
proof fn lemma_arr_step_pop(
    pv: Seq<SpecValue>,
    cv: Seq<SpecValue>,
    cn: int,
    r: int,
    pre_ops: Seq<SpecOp>,
)
    requires
        0 <= cn < r <= pv.len(),
        apply_ops_spec(SpecValue::Arr(pv), pre_ops) == Some(
            SpecValue::Arr(cv + pv.subrange(cn, r)),
        ),
    ensures
        apply_ops_spec(
            SpecValue::Arr(pv),
            pre_ops.push(SpecOp::Remove { path: seq![SpecToken::Index(cv.len() + r - cn - 1)] }),
        ) == Some(SpecValue::Arr(cv + pv.subrange(cn, r - 1))),
{
    let mid = cv + pv.subrange(cn, r);
    let idx = cv.len() + r - cn - 1;
    lemma_apply_ops_push(
        SpecValue::Arr(pv),
        pre_ops,
        SpecOp::Remove { path: seq![SpecToken::Index(idx)] },
    );
    assert(mid.len() == cv.len() + r - cn);
    assert(mid.remove(idx) =~= cv + pv.subrange(cn, r - 1));
}

/// The object part of the diff: a merge over two key-sorted entry
/// sequences.
#[verifier::loop_isolation(false)]
#[verifier::rlimit(100)]
fn diff_obj_vecs(pes: &Vec<(String, Value)>, ces: &Vec<(String, Value)>) -> (ops: Vec<PatchOp>)
    requires
        wf_value(SpecValue::Obj(view_entries(pes@))),
        wf_value(SpecValue::Obj(view_entries(ces@))),
    ensures
        apply_ops_spec(SpecValue::Obj(view_entries(pes@)), view_ops(ops@)) == Some(
            SpecValue::Obj(view_entries(ces@)),
        ),
        all_rooted_ok(view_ops(ops@)),
    decreases *pes,
{
    proof {
        lemma_view_entries(pes@);
        lemma_view_entries(ces@);
    }
    let ghost pv = view_entries(pes@);
    let ghost cv = view_entries(ces@);
    let mut out: Vec<PatchOp> = Vec::new();
    let mut i: usize = 0;
    let mut j: usize = 0;
    proof {
        assert(cv.take(0) + pv.skip(0) =~= pv);
        assert(view_ops(out@) =~= Seq::<SpecOp>::empty());
    }
    while i < pes.len() || j < ces.len()
        invariant
            i <= pv.len(),
            j <= cv.len(),
            forall|m: int, n: int|
                0 <= m < j && i <= n < pv.len() ==> str_lt_spec(
                    (#[trigger] cv[m]).0,
                    (#[trigger] pv[n]).0,
                ),
            apply_ops_spec(SpecValue::Obj(pv), view_ops(out@)) == Some(
                SpecValue::Obj(cv.take(j as int) + pv.skip(i as int)),
            ),
            all_rooted_ok(view_ops(out@)),
        decreases pv.len() - i + cv.len() - j,
    {
        let ghost pre_ops = view_ops(out@);
        let is_equal_key = i < pes.len() && j < ces.len() && pes[i].0.eq(&ces[j].0);
        let is_prev_only = !is_equal_key && i < pes.len() && (j == ces.len() || str_lt(
            pes[i].0.as_str(),
            ces[j].0.as_str(),
        ));
        if is_equal_key {
            let ghost k = pv[i as int].0;
            let vals_eq = pes[i].1.eq(&ces[j].1);
            if vals_eq {
                proof {
                    assert(cv[j as int] == pv[i as int]);
                    assert(cv.take(j + 1) + pv.skip(i + 1) =~= cv.take(j as int) + pv.skip(
                        i as int,
                    ));
                }
            } else {
                proof {
                    lemma_wf_obj_entry(pv, i as int);
                    lemma_wf_obj_entry(cv, j as int);
                }
                let c_ops = diff_values(&pes[i].1, &ces[j].1);
                let ghost co = view_ops(c_ops@);
                let tok = PathToken::Key(pes[i].0.clone());
                let mut prefixed = prefix_ops(&tok, c_ops);
                let ghost pfv = view_ops(prefixed@);
                out.append(&mut prefixed);
                proof {
                    assert(view_ops(out@) =~= pre_ops + pfv);
                    lemma_obj_step_child(pv, cv, i as int, j as int, pre_ops, co);
                    assert(all_rooted_ok(view_ops(out@))) by {
                        assert forall|x: int|
                            0 <= x < view_ops(out@).len() implies rooted_ok(
                            #[trigger] view_ops(out@)[x],
                        ) by {
                            if x >= pre_ops.len() {
                                assert(view_ops(out@)[x] == prefix_op(
                                    SpecToken::Key(k),
                                    co[x - pre_ops.len()],
                                ));
                            }
                        }
                    }
                }
            }
            proof {
                assert forall|m: int, n: int|
                    0 <= m < j + 1 && i + 1 <= n < pv.len() implies str_lt_spec(
                    (#[trigger] cv[m]).0,
                    (#[trigger] pv[n]).0,
                ) by {
                    if m == j {
                        assert(cv[m].0 == pv[i as int].0);
                        assert(str_lt_spec(pv[i as int].0, pv[n].0));
                    }
                }
            }
            i = i + 1;
            j = j + 1;
        } else if is_prev_only {
            let ghost k = pv[i as int].0;
            proof {
                if j < cv.len() {
                    lemma_str_lt_asym(pv[i as int].0, cv[j as int].0);
                }
            }
            let mut path: Vec<PathToken> = Vec::new();
            path.push(PathToken::Key(pes[i].0.clone()));
            let op = PatchOp::Remove { path };
            proof {
                assert(view_tokens(op->Remove_path@) =~= seq![SpecToken::Key(k)]);
            }
            out.push(op);
            proof {
                assert(view_ops(out@) =~= pre_ops.push(
                    SpecOp::Remove { path: seq![SpecToken::Key(k)] },
                ));
                lemma_obj_step_remove(pv, cv, i as int, j as int, pre_ops);
            }
            i = i + 1;
        } else {
            let ghost k = cv[j as int].0;
            proof {
                assert(j < cv.len());
                if i < pv.len() {
                    lemma_str_lt_connex(pv[i as int].0, cv[j as int].0);
                    assert(str_lt_spec(cv[j as int].0, pv[i as int].0));
                }
            }
            let mut path: Vec<PathToken> = Vec::new();
            path.push(PathToken::Key(ces[j].0.clone()));
            let nv = ces[j].1.clone();
            let ghost nvv = nv@;
            let op = PatchOp::Add { path, value: nv };
            proof {
                assert(view_tokens(op->Add_path@) =~= seq![SpecToken::Key(k)]);
                assert(nvv == cv[j as int].1);
            }
            out.push(op);
            proof {
                assert(view_ops(out@) =~= pre_ops.push(
                    SpecOp::Add { path: seq![SpecToken::Key(k)], value: nvv },
                ));
                lemma_obj_step_add(pv, cv, i as int, j as int, pre_ops);
                assert forall|m: int, n: int|
                    0 <= m < j + 1 && i <= n < pv.len() implies str_lt_spec(
                    (#[trigger] cv[m]).0,
                    (#[trigger] pv[n]).0,
                ) by {
                    if m == j {
                        assert(str_lt_spec(cv[j as int].0, pv[i as int].0));
                        if n > i {
                            crate::value::lemma_str_lt_trans(
                                cv[j as int].0,
                                pv[i as int].0,
                                pv[n].0,
                            );
                        }
                    }
                }
            }
            j = j + 1;
        }
    }
    proof {
        assert(cv.take(cv.len() as int) + pv.skip(pv.len() as int) =~= cv);
    }
    out
}

/// The array part of the diff: aligned elements are diffed in place,
/// the length difference is appended or removed at the tail.
#[verifier::loop_isolation(false)]
#[verifier::rlimit(100)]
fn diff_arr_vecs(pvs: &Vec<Value>, cvs: &Vec<Value>) -> (ops: Vec<PatchOp>)
    requires
        wf_value(SpecValue::Arr(view_elems(pvs@))),
        wf_value(SpecValue::Arr(view_elems(cvs@))),
    ensures
        apply_ops_spec(SpecValue::Arr(view_elems(pvs@)), view_ops(ops@)) == Some(
            SpecValue::Arr(view_elems(cvs@)),
        ),
        all_rooted_ok(view_ops(ops@)),
    decreases *pvs,
{
    proof {
        lemma_view_elems(pvs@);
        lemma_view_elems(cvs@);
    }
    let ghost pv = view_elems(pvs@);
    let ghost cv = view_elems(cvs@);
    let pn = pvs.len();
    let cn = cvs.len();
    let min = if pn < cn {
        pn
    } else {
        cn
    };
    let mut out: Vec<PatchOp> = Vec::new();
    let mut j: usize = 0;
    proof {
        assert(cv.take(0) + pv.skip(0) =~= pv);
        assert(view_ops(out@) =~= Seq::<SpecOp>::empty());
    }
    while j < min
        invariant
            j <= min,
            apply_ops_spec(SpecValue::Arr(pv), view_ops(out@)) == Some(
                SpecValue::Arr(cv.take(j as int) + pv.skip(j as int)),
            ),
            all_rooted_ok(view_ops(out@)),
        decreases min - j,
    {
        let ghost pre_ops = view_ops(out@);
        let elems_eq = pvs[j].eq(&cvs[j]);
        if !elems_eq {
            proof {
                lemma_wf_arr_elem(pv, j as int);
                lemma_wf_arr_elem(cv, j as int);
            }
            let c_ops = diff_values(&pvs[j], &cvs[j]);
            let ghost co = view_ops(c_ops@);
            let tok = PathToken::Index(j);
            let mut prefixed = prefix_ops(&tok, c_ops);
            let ghost pfv = view_ops(prefixed@);
            out.append(&mut prefixed);
            proof {
                assert(view_ops(out@) =~= pre_ops + pfv);
                lemma_arr_step_child(pv, cv, j as int, pre_ops, co);
                assert(all_rooted_ok(view_ops(out@))) by {
                    assert forall|x: int|
                        0 <= x < view_ops(out@).len() implies rooted_ok(
                        #[trigger] view_ops(out@)[x],
                    ) by {
                        if x >= pre_ops.len() {
                            assert(view_ops(out@)[x] == prefix_op(
                                SpecToken::Index(j as int),
                                co[x - pre_ops.len()],
                            ));
                        }
                    }
                }
            }
        } else {
            proof {
                assert(cv[j as int] == pv[j as int]);
                assert(cv.take(j + 1) + pv.skip(j + 1) =~= cv.take(j as int) + pv.skip(
                    j as int,
                ));
            }
        }
        j = j + 1;
    }
    if cn > pn {
        proof {
            assert(cv.take(pn as int) + pv.skip(pn as int) =~= cv.take(pn as int));
        }
        let mut t = pn;
        while t < cn
            invariant
                pn <= t <= cn,
                apply_ops_spec(SpecValue::Arr(pv), view_ops(out@)) == Some(
                    SpecValue::Arr(cv.take(t as int)),
                ),
                all_rooted_ok(view_ops(out@)),
            decreases cn - t,
        {
            let ghost pre_ops = view_ops(out@);
            let mut path: Vec<PathToken> = Vec::new();
            path.push(PathToken::Index(t));
            let nv = cvs[t].clone();
            let ghost nvv = nv@;
            let op = PatchOp::Add { path, value: nv };
            proof {
                assert(view_tokens(op->Add_path@) =~= seq![SpecToken::Index(t as int)]);
                assert(nvv == cv[t as int]);
            }
            out.push(op);
            proof {
                assert(view_ops(out@) =~= pre_ops.push(
                    SpecOp::Add { path: seq![SpecToken::Index(t as int)], value: nvv },
                ));
                lemma_arr_step_push(pv, cv, t as int, pre_ops);
            }
            t = t + 1;
        }
        proof {
            assert(cv.take(cn as int) =~= cv);
        }
    } else if pn > cn {
        proof {
            assert(cv.take(cn as int) + pv.skip(cn as int) =~= cv + pv.subrange(
                cn as int,
                pn as int,
            ));
        }
        let mut r = pn;
        while r > cn
            invariant
                cn <= r <= pn,
                apply_ops_spec(SpecValue::Arr(pv), view_ops(out@)) == Some(
                    SpecValue::Arr(cv + pv.subrange(cn as int, r as int)),
                ),
                all_rooted_ok(view_ops(out@)),
            decreases r,
        {
            let ghost pre_ops = view_ops(out@);
            let mut path: Vec<PathToken> = Vec::new();
            path.push(PathToken::Index(r - 1));
            let op = PatchOp::Remove { path };
            proof {
                assert(cv.len() == cn as int);
                assert(view_tokens(op->Remove_path@) =~= seq![SpecToken::Index(r - 1)]);
            }
            out.push(op);
            proof {
                assert(view_ops(out@) =~= pre_ops.push(
                    SpecOp::Remove { path: seq![SpecToken::Index(r - 1)] },
                ));
                assert(cv.len() + r - cn - 1 == r - 1);
                lemma_arr_step_pop(pv, cv, cn as int, r as int, pre_ops);
            }
            r = r - 1;
        }
        proof {
            assert(cv + pv.subrange(cn as int, cn as int) =~= cv);
        }
    } else {
        proof {
            assert(cv.take(cn as int) + pv.skip(pn as int) =~= cv);
        }
    }
    out
}

/// Recursive structural diff. The returned operations, applied to
/// `prev` in order, produce exactly `cur`: objects are compared entry
/// by entry over the union of their keys, arrays element by element
/// with the length difference appended or removed at the tail, and any
/// other difference becomes one `replace`.
#[verifier::rlimit(30)]
pub fn diff_values(prev: &Value, cur: &Value) -> (ops: Vec<PatchOp>)
    requires
        wf_value(prev@),
        wf_value(cur@),
    ensures
        apply_ops_spec(prev@, view_ops(ops@)) == Some(cur@),
        all_rooted_ok(view_ops(ops@)),
        prev@ == cur@ ==> ops@.len() == 0,
    decreases *prev,
{
    if prev.eq(cur) {
        let r: Vec<PatchOp> = Vec::new();
        proof {
            assert(view_ops(r@) =~= Seq::<SpecOp>::empty());
        }
        return r;
    }
    match (prev, cur) {
        (Value::Obj(pes), Value::Obj(ces)) => diff_obj_vecs(pes, ces),
        (Value::Arr(pvs), Value::Arr(cvs)) => diff_arr_vecs(pvs, cvs),
        _ => {
            let mut out: Vec<PatchOp> = Vec::new();
            let path: Vec<PathToken> = Vec::new();
            let nv = cur.clone();
            let ghost nvv = nv@;
            let op = PatchOp::Replace { path, value: nv };
            proof {
                assert(view_tokens(op->Replace_path@) =~= Seq::<SpecToken>::empty());
            }
            out.push(op);
            proof {
                assert(view_ops(out@) =~= seq![
                    SpecOp::Replace { path: Seq::empty(), value: nvv },
                ]);
                lemma_apply_ops_push(
                    prev@,
                    Seq::empty(),
                    SpecOp::Replace { path: Seq::empty(), value: nvv },
                );
                assert(Seq::<SpecOp>::empty().push(
                    SpecOp::Replace { path: Seq::empty(), value: nvv },
                ) =~= view_ops(out@));
            }
            out
        },
    }
}

} // verus!
