use vstd::prelude::*;

use crate::value::{
    insert_entry, insert_pair, lemma_view_elems, lemma_view_entries, lookup_entry, remove_entry,
    set_entry, view_elems, view_entries, SpecValue, Value,
};

verus! {

/// One step of a patch path: an object key or an array index.
#[derive(Debug)]
pub enum PathToken {
    Key(String),
    Index(usize),
}

/// Model of a path token.
pub enum SpecToken {
    Key(Seq<char>),
    Index(int),
}

impl View for PathToken {
    type V = SpecToken;

    open spec fn view(&self) -> SpecToken {
        match self {
            PathToken::Key(k) => SpecToken::Key(k@),
            PathToken::Index(i) => SpecToken::Index(*i as int),
        }
    }
}

/// One structural patch operation. Paths are token sequences from the
/// document root; an empty path names the whole document.
#[derive(Debug)]
pub enum PatchOp {
    Add { path: Vec<PathToken>, value: Value },
    Remove { path: Vec<PathToken> },
    Replace { path: Vec<PathToken>, value: Value },
}

/// Model of a patch operation.
pub enum SpecOp {
    Add { path: Seq<SpecToken>, value: SpecValue },
    Remove { path: Seq<SpecToken> },
    Replace { path: Seq<SpecToken>, value: SpecValue },
}

pub open spec fn view_tokens(s: Seq<PathToken>) -> Seq<SpecToken> {
    Seq::new(s.len(), |i: int| s[i]@)
}

impl View for PatchOp {
    type V = SpecOp;

    open spec fn view(&self) -> SpecOp {
        match self {
            PatchOp::Add { path, value } => SpecOp::Add {
                path: view_tokens(path@),
                value: value@,
            },
            PatchOp::Remove { path } => SpecOp::Remove { path: view_tokens(path@) },
            PatchOp::Replace { path, value } => SpecOp::Replace {
                path: view_tokens(path@),
                value: value@,
            },
        }
    }
}

pub open spec fn view_ops(s: Seq<PatchOp>) -> Seq<SpecOp> {
    Seq::new(s.len(), |i: int| s[i]@)
}

/// `add` semantics: at the empty path the document itself is replaced;
/// at `k` under an object the pair is inserted (replacing an equal
/// key); at `i` under an array the value is inserted before index `i`,
/// where `i` may equal the length to append. Fails on a missing parent,
/// a token against the wrong container, or an index past the end.
pub open spec fn add_at(v: SpecValue, path: Seq<SpecToken>, nv: SpecValue) -> Option<SpecValue>
    decreases path.len(),
{
    if path.len() == 0 {
        Some(nv)
    } else {
        match (v, path[0]) {
            (SpecValue::Obj(es), SpecToken::Key(k)) => {
                if path.len() == 1 {
                    Some(SpecValue::Obj(insert_entry(es, k, nv)))
                } else {
                    match lookup_entry(es, k) {
                        Some(child) => match add_at(child, path.drop_first(), nv) {
                            Some(c2) => Some(SpecValue::Obj(set_entry(es, k, c2))),
                            None => None,
                        },
                        None => None,
                    }
                }
            },
            (SpecValue::Arr(elems), SpecToken::Index(i)) => {
                if path.len() == 1 {
                    if 0 <= i <= elems.len() {
                        Some(SpecValue::Arr(elems.insert(i, nv)))
                    } else {
                        None
                    }
                } else {
                    if 0 <= i < elems.len() {
                        match add_at(elems[i], path.drop_first(), nv) {
                            Some(c2) => Some(SpecValue::Arr(elems.update(i, c2))),
                            None => None,
                        }
                    } else {
                        None
                    }
                }
            },
            _ => None,
        }
    }
}

/// `remove` semantics: the target must exist; the whole document
/// cannot be removed.
pub open spec fn remove_at(v: SpecValue, path: Seq<SpecToken>) -> Option<SpecValue>
    decreases path.len(),
{
    if path.len() == 0 {
        None
    } else {
        match (v, path[0]) {
            (SpecValue::Obj(es), SpecToken::Key(k)) => {
                if path.len() == 1 {
                    match lookup_entry(es, k) {
                        Some(_) => Some(SpecValue::Obj(remove_entry(es, k))),
                        None => None,
                    }
                } else {
                    match lookup_entry(es, k) {
                        Some(child) => match remove_at(child, path.drop_first()) {
                            Some(c2) => Some(SpecValue::Obj(set_entry(es, k, c2))),
                            None => None,
                        },
                        None => None,
                    }
                }
            },
            (SpecValue::Arr(elems), SpecToken::Index(i)) => {
                if path.len() == 1 {
                    if 0 <= i < elems.len() {
                        Some(SpecValue::Arr(elems.remove(i)))
                    } else {
                        None
                    }
                } else {
                    if 0 <= i < elems.len() {
                        match remove_at(elems[i], path.drop_first()) {
                            Some(c2) => Some(SpecValue::Arr(elems.update(i, c2))),
                            None => None,
                        }
                    } else {
                        None
                    }
                }
            },
            _ => None,
        }
    }
}

/// `replace` semantics: the target must exist and is replaced; the
/// empty path replaces the whole document.
pub open spec fn replace_at(v: SpecValue, path: Seq<SpecToken>, nv: SpecValue) -> Option<
    SpecValue,
>
    decreases path.len(),
{
    if path.len() == 0 {
        Some(nv)
    } else {
        match (v, path[0]) {
            (SpecValue::Obj(es), SpecToken::Key(k)) => {
                match lookup_entry(es, k) {
                    Some(child) => if path.len() == 1 {
                        Some(SpecValue::Obj(set_entry(es, k, nv)))
                    } else {
                        match replace_at(child, path.drop_first(), nv) {
                            Some(c2) => Some(SpecValue::Obj(set_entry(es, k, c2))),
                            None => None,
                        }
                    },
                    None => None,
                }
            },
            (SpecValue::Arr(elems), SpecToken::Index(i)) => {
                if 0 <= i < elems.len() {
                    if path.len() == 1 {
                        Some(SpecValue::Arr(elems.update(i, nv)))
                    } else {
                        match replace_at(elems[i], path.drop_first(), nv) {
                            Some(c2) => Some(SpecValue::Arr(elems.update(i, c2))),
                            None => None,
                        }
                    }
                } else {
                    None
                }
            },
            _ => None,
        }
    }
}

/// What one operation does to a document, or `None` if it fails.
pub open spec fn apply_op_spec(v: SpecValue, op: SpecOp) -> Option<SpecValue> {
    match op {
        SpecOp::Add { path, value } => add_at(v, path, value),
        SpecOp::Remove { path } => remove_at(v, path),
        SpecOp::Replace { path, value } => replace_at(v, path, value),
    }
}

/// What a sequence of operations does, applied in order; `None` as
/// soon as one fails.
pub open spec fn apply_ops_spec(v: SpecValue, ops: Seq<SpecOp>) -> Option<SpecValue>
    decreases ops.len(),
{
    if ops.len() == 0 {
        Some(v)
    } else {
        match apply_op_spec(v, ops[0]) {
            Some(m) => apply_ops_spec(m, ops.drop_first()),
            None => None,
        }
    }
}

/// Applying a concatenation is applying the parts in turn.
pub proof fn lemma_apply_ops_app(v: SpecValue, a: Seq<SpecOp>, b: Seq<SpecOp>)
    ensures
        apply_ops_spec(v, a + b) == match apply_ops_spec(v, a) {
            Some(m) => apply_ops_spec(m, b),
            None => None,
        },
    decreases a.len(),
{
    if a.len() == 0 {
        assert(a + b =~= b);
    } else {
        assert((a + b)[0] == a[0]);
        match apply_op_spec(v, a[0]) {
            Some(m) => {
                lemma_apply_ops_app(m, a.drop_first(), b);
                assert((a + b).drop_first() =~= a.drop_first() + b);
            },
            None => {
                assert((a + b).len() > 0);
            },
        }
    }
}

/// Applying one more operation.
pub proof fn lemma_apply_ops_push(v: SpecValue, a: Seq<SpecOp>, op: SpecOp)
    ensures
        apply_ops_spec(v, a.push(op)) == match apply_ops_spec(v, a) {
            Some(m) => apply_op_spec(m, op),
            None => None,
        },
{
    lemma_apply_ops_app(v, a, seq![op]);
    assert(a.push(op) =~= a + seq![op]);
    match apply_ops_spec(v, a) {
        Some(m) => {
            assert(apply_ops_spec(m, seq![op]) == match apply_op_spec(m, op) {
                Some(m2) => apply_ops_spec(m2, seq![op].drop_first()),
                None => None,
            });
            match apply_op_spec(m, op) {
                Some(m2) => {
                    assert(seq![op].drop_first() =~= Seq::empty());
                    assert(apply_ops_spec(m2, Seq::empty()) == Some(m2));
                },
                None => {},
            }
        },
        None => {},
    }
}

/// What lookup, replace and remove mean at the position of the first
/// entry whose key is `k` (or at the end, when no entry has key `k`).
pub proof fn lemma_entry_pos(es: Seq<(Seq<char>, SpecValue)>, k: Seq<char>, pos: int)
    requires
        0 <= pos <= es.len(),
        forall|i: int| 0 <= i < pos ==> (#[trigger] es[i]).0 != k,
        pos < es.len() ==> es[pos].0 == k,
    ensures
        pos < es.len() ==> lookup_entry(es, k) == Some(es[pos].1),
        pos < es.len() ==> remove_entry(es, k) =~= es.remove(pos),
        pos < es.len() ==> forall|v: SpecValue| #[trigger] set_entry(es, k, v) =~= es.update(
            pos,
            (k, v),
        ),
        pos == es.len() ==> lookup_entry(es, k) is None,
    decreases es.len(),
{
    if pos == 0 {
        if es.len() == 0 {
        } else if es[0].0 == k {
            assert forall|v: SpecValue| #[trigger] set_entry(es, k, v) =~= es.update(
                0,
                (k, v),
            ) by {}
        }
    } else {
        let tail = es.drop_first();
        assert forall|i: int| 0 <= i < pos - 1 implies (#[trigger] tail[i]).0 != k by {
            assert(tail[i] == es[i + 1]);
        }
        lemma_entry_pos(tail, k, pos - 1);
        if pos < es.len() {
            assert(remove_entry(es, k) =~= es.remove(pos));
            assert forall|v: SpecValue| #[trigger] set_entry(es, k, v) =~= es.update(
                pos,
                (k, v),
            ) by {
                assert(set_entry(tail, k, v) =~= tail.update(pos - 1, (k, v)));
            }
        }
    }
}

/// Clones a vector of values, keeping the model.
fn clone_values(elems: &Vec<Value>) -> (r: Vec<Value>)
    ensures
        view_elems(r@) == view_elems(elems@),
        r@.len() == elems@.len(),
{
    let mut out: Vec<Value> = Vec::new();
    let mut i: usize = 0;
    while i < elems.len()
        invariant
            i <= elems@.len(),
            out@.len() == i,
            forall|j: int| 0 <= j < i ==> (#[trigger] out@[j])@ == elems@[j]@,
        decreases elems@.len() - i,
    {
        out.push(elems[i].clone());
        i = i + 1;
    }
    proof {
        lemma_view_elems(out@);
        lemma_view_elems(elems@);
        assert(view_elems(out@) =~= view_elems(elems@));
    }
    out
}

/// Clones a vector of object entries, keeping the model.
pub(crate) fn clone_entries(entries: &Vec<(String, Value)>) -> (r: Vec<(String, Value)>)
    ensures
        view_entries(r@) == view_entries(entries@),
        r@.len() == entries@.len(),
{
    let mut out: Vec<(String, Value)> = Vec::new();
    let mut i: usize = 0;
    while i < entries.len()
        invariant
            i <= entries@.len(),
            out@.len() == i,
            forall|j: int|
                0 <= j < i ==> (#[trigger] out@[j]).0@ == entries@[j].0@ && out@[j].1@
                    == entries@[j].1@,
        decreases entries@.len() - i,
    {
        let k = entries[i].0.clone();
        let v = entries[i].1.clone();
        out.push((k, v));
        i = i + 1;
    }
    proof {
        lemma_view_entries(out@);
        lemma_view_entries(entries@);
        assert(view_entries(out@) =~= view_entries(entries@));
    }
    out
}

/// The position of the first entry whose key is `k`, or the length.
#[verifier::loop_isolation(false)]
fn find_key_pos(entries: &Vec<(String, Value)>, k: &String) -> (pos: usize)
    ensures
        pos <= entries@.len(),
        forall|i: int| 0 <= i < pos ==> (#[trigger] view_entries(entries@)[i]).0 != k@,
        pos < entries@.len() ==> view_entries(entries@)[pos as int].0 == k@,
{
    proof {
        lemma_view_entries(entries@);
    }
    let mut pos: usize = 0;
    while pos < entries.len() && !entries[pos].0.eq(k)
        invariant
            pos <= entries@.len(),
            forall|i: int| 0 <= i < pos ==> (#[trigger] view_entries(entries@)[i]).0 != k@,
        decreases entries@.len() - pos,
    {
        pos = pos + 1;
    }
    pos
}

/// What `op` does at the path suffix `path`, regardless of the path
/// the operation itself carries.
pub open spec fn step_at(v: SpecValue, path: Seq<SpecToken>, op: SpecOp) -> Option<SpecValue> {
    match op {
        SpecOp::Add { value, .. } => add_at(v, path, value),
        SpecOp::Remove { .. } => remove_at(v, path),
        SpecOp::Replace { value, .. } => replace_at(v, path, value),
    }
}

/// Applies `op` below `depth` tokens of its path, functionally.
#[verifier::loop_isolation(false)]
fn step_exec(v: &Value, path: &Vec<PathToken>, depth: usize, op: &PatchOp) -> (r: Option<
    Value,
>)
    requires
        depth <= path@.len(),
        op matches PatchOp::Add { path: p, .. } ==> p == path,
        op matches PatchOp::Remove { path: p } ==> p == path,
        op matches PatchOp::Replace { path: p, .. } ==> p == path,
    ensures
        step_at(v@, view_tokens(path@).skip(depth as int), op@) matches Some(x) ==> r matches Some(
            rv,
        ) && rv@ == x,
        step_at(v@, view_tokens(path@).skip(depth as int), op@) is None ==> r is None,
    decreases path@.len() - depth,
{
    let ghost p = view_tokens(path@).skip(depth as int);
    if depth == path.len() {
        proof {
            assert(p.len() == 0);
        }
        match op {
            PatchOp::Add { value, .. } => Some(value.clone()),
            PatchOp::Remove { .. } => None,
            PatchOp::Replace { value, .. } => Some(value.clone()),
        }
    } else {
        proof {
            assert(p[0] == path@[depth as int]@);
            assert(p.drop_first() =~= view_tokens(path@).skip(depth as int + 1));
        }
        let last = depth + 1 == path.len();
        proof {
            if last {
                assert(p.len() == 1);
            }
        }
        match (v, &path[depth]) {
            (Value::Obj(entries), PathToken::Key(k)) => {
                proof {
                    lemma_view_entries(entries@);
                }
                let ghost es = view_entries(entries@);
                let pos = find_key_pos(entries, k);
                proof {
                    lemma_entry_pos(es, k@, pos as int);
                }
                if last {
                    match op {
                        PatchOp::Add { value, .. } => {
                            let mut out = clone_entries(entries);
                            insert_pair(&mut out, k.clone(), value.clone());
                            Some(Value::Obj(out))
                        },
                        PatchOp::Remove { .. } => {
                            if pos < entries.len() {
                                let mut out = clone_entries(entries);
                                proof {
                                    lemma_view_entries(out@);
                                }
                                out.remove(pos);
                                proof {
                                    lemma_view_entries(out@);
                                    assert(view_entries(out@) =~= es.remove(pos as int));
                                }
                                Some(Value::Obj(out))
                            } else {
                                None
                            }
                        },
                        PatchOp::Replace { value, .. } => {
                            if pos < entries.len() {
                                let mut out = clone_entries(entries);
                                proof {
                                    lemma_view_entries(out@);
                                }
                                out.remove(pos);
                                out.insert(pos, (k.clone(), value.clone()));
                                proof {
                                    lemma_view_entries(out@);
                                    assert(view_entries(out@) =~= es.update(
                                        pos as int,
                                        (k@, value@),
                                    ));
                                }
                                Some(Value::Obj(out))
                            } else {
                                None
                            }
                        },
                    }
                } else {
                    if pos < entries.len() {
                        match step_exec(&entries[pos].1, path, depth + 1, op) {
                            Some(c2) => {
                                let mut out = clone_entries(entries);
                                proof {
                                    lemma_view_entries(out@);
                                }
                                out.remove(pos);
                                let ghost c2v = c2@;
                                out.insert(pos, (k.clone(), c2));
                                proof {
                                    lemma_view_entries(out@);
                                    assert(view_entries(out@) =~= es.update(
                                        pos as int,
                                        (k@, c2v),
                                    ));
                                }
                                Some(Value::Obj(out))
                            },
                            None => None,
                        }
                    } else {
                        None
                    }
                }
            },
            (Value::Arr(elems), PathToken::Index(idx)) => {
                proof {
                    lemma_view_elems(elems@);
                }
                let ghost vs = view_elems(elems@);
                let i = *idx;
                if last {
                    match op {
                        PatchOp::Add { value, .. } => {
                            if i <= elems.len() {
                                let mut out = clone_values(elems);
                                proof {
                                    lemma_view_elems(out@);
                                }
                                out.insert(i, value.clone());
                                proof {
                                    lemma_view_elems(out@);
                                    assert(view_elems(out@) =~= vs.insert(i as int, value@));
                                }
                                Some(Value::Arr(out))
                            } else {
                                None
                            }
                        },
                        PatchOp::Remove { .. } => {
                            if i < elems.len() {
                                let mut out = clone_values(elems);
                                proof {
                                    lemma_view_elems(out@);
                                }
                                out.remove(i);
                                proof {
                                    lemma_view_elems(out@);
                                    assert(view_elems(out@) =~= vs.remove(i as int));
                                }
                                Some(Value::Arr(out))
                            } else {
                                None
                            }
                        },
                        PatchOp::Replace { value, .. } => {
                            if i < elems.len() {
                                let mut out = clone_values(elems);
                                proof {
                                    lemma_view_elems(out@);
                                }
                                out.remove(i);
                                out.insert(i, value.clone());
                                proof {
                                    lemma_view_elems(out@);
                                    assert(view_elems(out@) =~= vs.update(i as int, value@));
                                }
                                Some(Value::Arr(out))
                            } else {
                                None
                            }
                        },
                    }
                } else {
                    if i < elems.len() {
                        match step_exec(&elems[i], path, depth + 1, op) {
                            Some(c2) => {
                                let mut out = clone_values(elems);
                                proof {
                                    lemma_view_elems(out@);
                                }
                                out.remove(i);
                                let ghost c2v = c2@;
                                out.insert(i, c2);
                                proof {
                                    lemma_view_elems(out@);
                                    assert(view_elems(out@) =~= vs.update(i as int, c2v));
                                }
                                Some(Value::Arr(out))
                            },
                            None => None,
                        }
                    } else {
                        None
                    }
                }
            },
            _ => None,
        }
    }
}

/// Applies one operation to a value, functionally: the result is what
/// the operation's model says, or `None` where the model fails.
pub fn apply_one(v: &Value, op: &PatchOp) -> (r: Option<Value>)
    ensures
        apply_op_spec(v@, op@) matches Some(x) ==> r matches Some(rv) && rv@ == x,
        apply_op_spec(v@, op@) is None ==> r is None,
{
    proof {
        match op@ {
            SpecOp::Add { path, .. } => {
                assert(path.skip(0) =~= path);
            },
            SpecOp::Remove { path } => {
                assert(path.skip(0) =~= path);
            },
            SpecOp::Replace { path, .. } => {
                assert(path.skip(0) =~= path);
            },
        }
    }
    match op {
        PatchOp::Add { path, .. } => step_exec(v, path, 0, op),
        PatchOp::Remove { path } => step_exec(v, path, 0, op),
        PatchOp::Replace { path, .. } => step_exec(v, path, 0, op),
    }
}

/// Clones a token path, keeping the model.
pub(crate) fn clone_tokens(path: &Vec<PathToken>) -> (r: Vec<PathToken>)
    ensures
        view_tokens(r@) == view_tokens(path@),
{
    let mut out: Vec<PathToken> = Vec::new();
    let mut i: usize = 0;
    while i < path.len()
        invariant
            i <= path@.len(),
            out@.len() == i,
            forall|j: int| 0 <= j < i ==> (#[trigger] out@[j])@ == path@[j]@,
        decreases path@.len() - i,
    {
        out.push(path[i].clone());
        i = i + 1;
    }
    proof {
        assert(view_tokens(out@) =~= view_tokens(path@));
    }
    out
}

impl Clone for PatchOp {
    /// A clone has the same model as the original.
    fn clone(&self) -> (r: PatchOp)
        ensures
            r@ == self@,
    {
        match self {
            PatchOp::Add { path, value } => PatchOp::Add {
                path: clone_tokens(path),
                value: value.clone(),
            },
            PatchOp::Remove { path } => PatchOp::Remove { path: clone_tokens(path) },
            PatchOp::Replace { path, value } => PatchOp::Replace {
                path: clone_tokens(path),
                value: value.clone(),
            },
        }
    }
}

/// Clones an operation list, keeping the model.
pub(crate) fn clone_ops(ops: &Vec<PatchOp>) -> (r: Vec<PatchOp>)
    ensures
        view_ops(r@) == view_ops(ops@),
{
    let mut out: Vec<PatchOp> = Vec::new();
    let mut i: usize = 0;
    while i < ops.len()
        invariant
            i <= ops@.len(),
            out@.len() == i,
            forall|j: int| 0 <= j < i ==> (#[trigger] out@[j])@ == ops@[j]@,
        decreases ops@.len() - i,
    {
        out.push(ops[i].clone());
        i = i + 1;
    }
    proof {
        assert(view_ops(out@) =~= view_ops(ops@));
    }
    out
}

} // verus!
