use vstd::prelude::*;

verus! {

/// A structured tree value: the unit of state stored under a coordinate.
///
/// Objects hold their entries sorted strictly by key (code-point order),
/// so a value's shape is canonical: two objects with the same key-value
/// mapping are structurally equal. `Value::object` establishes the order.
/// Numbers keep the exact text they were given; the canonical encoding
/// emits them verbatim.
#[derive(Debug)]
pub enum Value {
    Null,
    Bool(bool),
    Num(String),
    Str(String),
    Arr(Vec<Value>),
    Obj(Vec<(String, Value)>),
}

/// Mathematical model of a `Value`.
#[verifier::ext_equal]
pub enum SpecValue {
    Null,
    Bool(bool),
    Num(Seq<char>),
    Str(Seq<char>),
    Arr(Seq<SpecValue>),
    Obj(Seq<(Seq<char>, SpecValue)>),
}

pub open spec fn view_value(v: Value) -> SpecValue
    decreases v,
{
    match v {
        Value::Null => SpecValue::Null,
        Value::Bool(b) => SpecValue::Bool(b),
        Value::Num(s) => SpecValue::Num(s@),
        Value::Str(s) => SpecValue::Str(s@),
        Value::Arr(elems) => SpecValue::Arr(view_elems(elems@)),
        Value::Obj(entries) => SpecValue::Obj(view_entries(entries@)),
    }
}

pub open spec fn view_elems(s: Seq<Value>) -> Seq<SpecValue>
    decreases s,
{
    if s.len() == 0 {
        Seq::empty()
    } else {
        seq![view_value(s[0])] + view_elems(s.drop_first())
    }
}

pub open spec fn view_entries(s: Seq<(String, Value)>) -> Seq<(Seq<char>, SpecValue)>
    decreases s,
{
    if s.len() == 0 {
        Seq::empty()
    } else {
        seq![(s[0].0@, view_value(s[0].1))] + view_entries(s.drop_first())
    }
}

/// `view_elems` maps the view over the elements, position by position.
pub broadcast proof fn lemma_view_elems(s: Seq<Value>)
    ensures
        (#[trigger] view_elems(s)).len() == s.len(),
        forall|i: int| 0 <= i < s.len() ==> view_elems(s)[i] == view_value(s[i]),
    decreases s.len(),
{
    if s.len() > 0 {
        lemma_view_elems(s.drop_first());
    }
}

/// `view_entries` maps the view over the entries, position by position.
pub broadcast proof fn lemma_view_entries(s: Seq<(String, Value)>)
    ensures
        (#[trigger] view_entries(s)).len() == s.len(),
        forall|i: int|
            0 <= i < s.len() ==> view_entries(s)[i] == (s[i].0@, view_value(s[i].1)),
    decreases s.len(),
{
    if s.len() > 0 {
        lemma_view_entries(s.drop_first());
    }
}

impl View for Value {
    type V = SpecValue;

    open spec fn view(&self) -> SpecValue {
        view_value(*self)
    }
}

/// Strict lexicographic order on key strings (by code point).
pub open spec fn str_lt_spec(a: Seq<char>, b: Seq<char>) -> bool
    decreases a.len(),
{
    if b.len() == 0 {
        false
    } else if a.len() == 0 {
        true
    } else if a[0] != b[0] {
        a[0] < b[0]
    } else {
        str_lt_spec(a.drop_first(), b.drop_first())
    }
}

/// Entries of an object are strictly sorted by key.
pub open spec fn entries_sorted(es: Seq<(Seq<char>, SpecValue)>) -> bool {
    forall|i: int, j: int|
        0 <= i < j < es.len() ==> str_lt_spec(#[trigger] es[i].0, #[trigger] es[j].0)
}

/// The key order is connex: two keys are ordered one way or the other,
/// unless they are equal.
pub proof fn lemma_str_lt_connex(a: Seq<char>, b: Seq<char>)
    ensures
        str_lt_spec(a, b) || str_lt_spec(b, a) || a == b,
    decreases a.len(),
{
    if a.len() != 0 && b.len() != 0 && a[0] == b[0] {
        lemma_str_lt_connex(a.drop_first(), b.drop_first());
        if a.drop_first() == b.drop_first() {
            assert(a.len() == b.len());
            assert forall|i: int| 0 <= i < a.len() implies a[i] == b[i] by {
                if i > 0 {
                    assert(a.drop_first()[i - 1] == b.drop_first()[i - 1]);
                }
            }
            assert(a =~= b);
        }
    } else if a.len() == 0 && b.len() == 0 {
        assert(a =~= b);
    }
}

/// The key order is asymmetric, and ordered keys are distinct.
pub proof fn lemma_str_lt_asym(a: Seq<char>, b: Seq<char>)
    requires
        str_lt_spec(a, b),
    ensures
        !str_lt_spec(b, a),
        a != b,
    decreases a.len(),
{
    if a.len() != 0 && b.len() != 0 && a[0] == b[0] {
        lemma_str_lt_asym(a.drop_first(), b.drop_first());
        assert(a != b) by {
            if a == b {
                assert(a.drop_first() == b.drop_first());
            }
        }
    }
}

/// The key order is transitive.
pub proof fn lemma_str_lt_trans(a: Seq<char>, b: Seq<char>, c: Seq<char>)
    requires
        str_lt_spec(a, b),
        str_lt_spec(b, c),
    ensures
        str_lt_spec(a, c),
    decreases a.len(),
{
    if a.len() != 0 && b.len() != 0 && c.len() != 0 && a[0] == b[0] && b[0] == c[0] {
        lemma_str_lt_trans(a.drop_first(), b.drop_first(), c.drop_first());
    }
}

/// Compares two strings in the key order.
pub fn str_lt(a: &str, b: &str) -> (r: bool)
    ensures
        r == str_lt_spec(a@, b@),
{
    let alen = a.unicode_len();
    let blen = b.unicode_len();
    let mut i: usize = 0;
    proof {
        assert(a@.skip(0) =~= a@);
        assert(b@.skip(0) =~= b@);
    }
    loop
        invariant
            i <= alen,
            i <= blen,
            alen == a@.len(),
            blen == b@.len(),
            str_lt_spec(a@, b@) == str_lt_spec(a@.skip(i as int), b@.skip(i as int)),
        decreases alen - i,
    {
        if i == blen {
            return false;
        }
        if i == alen {
            return true;
        }
        let ca = a.get_char(i);
        let cb = b.get_char(i);
        if ca != cb {
            return ca < cb;
        }
        proof {
            assert(a@.skip(i as int).drop_first() =~= a@.skip(i + 1));
            assert(b@.skip(i as int).drop_first() =~= b@.skip(i + 1));
        }
        i = i + 1;
    }
}

/// Every object in the tree is strictly sorted by key.
pub open spec fn wf_value(v: SpecValue) -> bool
    decreases v,
{
    match v {
        SpecValue::Null => true,
        SpecValue::Bool(_) => true,
        SpecValue::Num(_) => true,
        SpecValue::Str(_) => true,
        SpecValue::Arr(elems) => wf_elems(elems),
        SpecValue::Obj(es) => entries_sorted(es) && wf_entry_values(es),
    }
}

pub open spec fn wf_elems(elems: Seq<SpecValue>) -> bool
    decreases elems,
{
    if elems.len() == 0 {
        true
    } else {
        wf_value(elems[0]) && wf_elems(elems.drop_first())
    }
}

pub open spec fn wf_entry_values(es: Seq<(Seq<char>, SpecValue)>) -> bool
    decreases es,
{
    if es.len() == 0 {
        true
    } else {
        wf_value(es[0].1) && wf_entry_values(es.drop_first())
    }
}

/// `wf_elems` holds exactly when every element is well formed.
pub proof fn lemma_wf_elems(elems: Seq<SpecValue>)
    ensures
        wf_elems(elems) == (forall|i: int|
            0 <= i < elems.len() ==> wf_value(#[trigger] elems[i])),
    decreases elems.len(),
{
    if elems.len() > 0 {
        lemma_wf_elems(elems.drop_first());
        if wf_elems(elems) {
            assert forall|i: int| 0 <= i < elems.len() implies wf_value(
                #[trigger] elems[i],
            ) by {
                if i > 0 {
                    assert(wf_value(elems.drop_first()[i - 1]));
                }
            }
        } else {
            if forall|i: int| 0 <= i < elems.len() ==> wf_value(#[trigger] elems[i]) {
                assert forall|i: int| 0 <= i < elems.drop_first().len() implies wf_value(
                    #[trigger] elems.drop_first()[i],
                ) by {
                    assert(elems.drop_first()[i] == elems[i + 1]);
                    assert(wf_value(elems[i + 1]));
                }
                assert(wf_value(elems[0]));
                assert(false);
            }
        }
    }
}

/// `wf_entry_values` holds exactly when every entry value is well
/// formed.
pub proof fn lemma_wf_entry_values(es: Seq<(Seq<char>, SpecValue)>)
    ensures
        wf_entry_values(es) == (forall|i: int|
            0 <= i < es.len() ==> wf_value((#[trigger] es[i]).1)),
    decreases es.len(),
{
    if es.len() > 0 {
        lemma_wf_entry_values(es.drop_first());
        if wf_entry_values(es) {
            assert forall|i: int| 0 <= i < es.len() implies wf_value(
                (#[trigger] es[i]).1,
            ) by {
                if i > 0 {
                    assert(wf_value(es.drop_first()[i - 1].1));
                }
            }
        } else {
            if forall|i: int| 0 <= i < es.len() ==> wf_value((#[trigger] es[i]).1) {
                assert forall|i: int| 0 <= i < es.drop_first().len() implies wf_value(
                    (#[trigger] es.drop_first()[i]).1,
                ) by {
                    assert(es.drop_first()[i] == es[i + 1]);
                    assert(wf_value(es[i + 1].1));
                }
                assert(wf_value(es[0].1));
                assert(false);
            }
        }
    }
}

/// The value bound to key `k`, looking at the first matching entry.
pub open spec fn lookup_entry(es: Seq<(Seq<char>, SpecValue)>, k: Seq<char>) -> Option<
    SpecValue,
>
    decreases es.len(),
{
    if es.len() == 0 {
        None
    } else if es[0].0 == k {
        Some(es[0].1)
    } else {
        lookup_entry(es.drop_first(), k)
    }
}

/// Replaces the first entry with key `k`; identity if `k` is absent.
pub open spec fn set_entry(
    es: Seq<(Seq<char>, SpecValue)>,
    k: Seq<char>,
    v: SpecValue,
) -> Seq<(Seq<char>, SpecValue)>
    decreases es.len(),
{
    if es.len() == 0 {
        es
    } else if es[0].0 == k {
        seq![(k, v)] + es.drop_first()
    } else {
        seq![es[0]] + set_entry(es.drop_first(), k, v)
    }
}

/// Removes the first entry with key `k`; identity if `k` is absent.
pub open spec fn remove_entry(es: Seq<(Seq<char>, SpecValue)>, k: Seq<char>) -> Seq<
    (Seq<char>, SpecValue),
>
    decreases es.len(),
{
    if es.len() == 0 {
        es
    } else if es[0].0 == k {
        es.drop_first()
    } else {
        seq![es[0]] + remove_entry(es.drop_first(), k)
    }
}

/// Inserts `(k, v)` at its sorted position, replacing an equal key.
pub open spec fn insert_entry(
    es: Seq<(Seq<char>, SpecValue)>,
    k: Seq<char>,
    v: SpecValue,
) -> Seq<(Seq<char>, SpecValue)>
    decreases es.len(),
{
    if es.len() == 0 {
        seq![(k, v)]
    } else if str_lt_spec(k, es[0].0) {
        seq![(k, v)] + es
    } else if k == es[0].0 {
        seq![(k, v)] + es.drop_first()
    } else {
        seq![es[0]] + insert_entry(es.drop_first(), k, v)
    }
}

/// The sorted entry sequence built from `ps`, later pairs winning on
/// equal keys.
pub open spec fn entries_of_pairs(ps: Seq<(Seq<char>, SpecValue)>) -> Seq<
    (Seq<char>, SpecValue),
>
    decreases ps.len(),
{
    if ps.len() == 0 {
        Seq::empty()
    } else {
        insert_entry(entries_of_pairs(ps.drop_last()), ps.last().0, ps.last().1)
    }
}

/// Some entry of `es` has key `k`.
pub open spec fn has_key(es: Seq<(Seq<char>, SpecValue)>, k: Seq<char>) -> bool {
    exists|j: int| 0 <= j < es.len() && (#[trigger] es[j]).0 == k
}

/// The pair `p` occurs in `es`.
pub open spec fn has_pair(es: Seq<(Seq<char>, SpecValue)>, p: (Seq<char>, SpecValue)) -> bool {
    exists|j: int| 0 <= j < es.len() && #[trigger] es[j] == p
}

/// Inserting into a sorted entry sequence keeps it sorted, and every
/// resulting pair is the inserted one or one of the originals.
pub proof fn lemma_insert_entry_sorted(
    es: Seq<(Seq<char>, SpecValue)>,
    k: Seq<char>,
    v: SpecValue,
)
    requires
        entries_sorted(es),
    ensures
        entries_sorted(insert_entry(es, k, v)),
        forall|i: int|
            0 <= i < insert_entry(es, k, v).len() ==> #[trigger] insert_entry(es, k, v)[i] == (
            k,
            v,
            ) || has_pair(es, insert_entry(es, k, v)[i]),
    decreases es.len(),
{
    let r = insert_entry(es, k, v);
    if es.len() == 0 {
        assert(r =~= seq![(k, v)]);
    } else if str_lt_spec(k, es[0].0) {
        assert forall|i: int, j: int| 0 <= i < j < r.len() implies str_lt_spec(
            r[i].0,
            r[j].0,
        ) by {
            if i == 0 && j > 1 {
                lemma_str_lt_trans(k, es[0].0, es[j - 1].0);
            }
        }
        assert forall|i: int| 0 <= i < r.len() implies r[i] == (k, v) || has_pair(
            es,
            r[i],
        ) by {
            if i > 0 {
                assert(es[i - 1] == r[i]);
            }
        }
    } else if k == es[0].0 {
        assert forall|i: int, j: int| 0 <= i < j < r.len() implies str_lt_spec(
            r[i].0,
            r[j].0,
        ) by {
            if i == 0 {
                assert(str_lt_spec(es[0].0, es[j].0));
            }
        }
        assert forall|i: int| 0 <= i < r.len() implies r[i] == (k, v) || has_pair(
            es,
            r[i],
        ) by {
            if i > 0 {
                assert(es[i] == r[i]);
            }
        }
    } else {
        lemma_str_lt_connex(k, es[0].0);
        assert(str_lt_spec(es[0].0, k));
        let tail = es.drop_first();
        assert(entries_sorted(tail)) by {
            assert forall|i: int, j: int| 0 <= i < j < tail.len() implies str_lt_spec(
                tail[i].0,
                tail[j].0,
            ) by {
                assert(str_lt_spec(es[i + 1].0, es[j + 1].0));
            }
        }
        lemma_insert_entry_sorted(tail, k, v);
        let rt = insert_entry(tail, k, v);
        assert forall|i: int, j: int| 0 <= i < j < r.len() implies str_lt_spec(
            r[i].0,
            r[j].0,
        ) by {
            if i == 0 {
                assert(r[j] == rt[j - 1]);
                if rt[j - 1] == (k, v) {
                    assert(str_lt_spec(es[0].0, k));
                } else {
                    assert(has_pair(tail, rt[j - 1]));
                    let m = choose|m: int| 0 <= m < tail.len() && #[trigger] tail[m] == rt[j
                        - 1];
                    assert(tail[m] == es[m + 1]);
                    assert(str_lt_spec(es[0].0, es[m + 1].0));
                }
            } else {
                assert(r[i] == rt[i - 1] && r[j] == rt[j - 1]);
            }
        }
        assert forall|i: int| 0 <= i < r.len() implies r[i] == (k, v) || has_pair(
            es,
            r[i],
        ) by {
            if i == 0 {
                assert(es[0] == r[0]);
            } else {
                assert(r[i] == rt[i - 1]);
                if rt[i - 1] != (k, v) {
                    let m = choose|m: int| 0 <= m < tail.len() && #[trigger] tail[m] == rt[i
                        - 1];
                    assert(es[m + 1] == r[i]);
                }
            }
        }
    }
}

/// Entry sequences built from pairs are sorted, and every resulting
/// pair occurs among the pairs.
pub proof fn lemma_entries_of_pairs_sorted(ps: Seq<(Seq<char>, SpecValue)>)
    ensures
        entries_sorted(entries_of_pairs(ps)),
        forall|i: int|
            0 <= i < entries_of_pairs(ps).len() ==> has_pair(
                ps,
                #[trigger] entries_of_pairs(ps)[i],
            ),
    decreases ps.len(),
{
    if ps.len() > 0 {
        lemma_entries_of_pairs_sorted(ps.drop_last());
        let prev = entries_of_pairs(ps.drop_last());
        lemma_insert_entry_sorted(prev, ps.last().0, ps.last().1);
        let r = entries_of_pairs(ps);
        assert forall|i: int| 0 <= i < r.len() implies has_pair(ps, r[i]) by {
            if r[i] == (ps.last().0, ps.last().1) {
                assert(ps[ps.len() - 1] == r[i]);
            } else {
                assert(has_pair(prev, r[i]));
                let m = choose|m: int| 0 <= m < prev.len() && #[trigger] prev[m] == r[i];
                assert(has_pair(ps.drop_last(), r[i]));
                let n = choose|n: int|
                    0 <= n < ps.drop_last().len() && #[trigger] ps.drop_last()[n] == r[i];
                assert(ps[n] == r[i]);
            }
        }
    }
}

/// Where the scan stopped is where the insertion lands: the result is
/// the prefix, the new pair, then the rest (the matching entry, if the
/// key was already there, is dropped).
pub proof fn lemma_insert_entry_at(
    es: Seq<(Seq<char>, SpecValue)>,
    k: Seq<char>,
    v: SpecValue,
    pos: int,
)
    requires
        0 <= pos <= es.len(),
        forall|i: int| 0 <= i < pos ==> str_lt_spec((#[trigger] es[i]).0, k),
        pos < es.len() ==> !str_lt_spec(es[pos].0, k),
    ensures
        pos < es.len() && es[pos].0 == k ==> insert_entry(es, k, v) =~= es.take(pos) + seq![
            (k, v),
        ] + es.skip(pos + 1),
        !(pos < es.len() && es[pos].0 == k) ==> insert_entry(es, k, v) =~= es.take(pos)
            + seq![(k, v)] + es.skip(pos),
    decreases es.len(),
{
    if pos == 0 {
        if es.len() == 0 {
        } else if es[0].0 == k {
        } else {
            lemma_str_lt_connex(k, es[0].0);
        }
    } else {
        assert(str_lt_spec(es[0].0, k));
        lemma_str_lt_asym(es[0].0, k);
        let tail = es.drop_first();
        assert forall|i: int| 0 <= i < pos - 1 implies str_lt_spec(
            (#[trigger] tail[i]).0,
            k,
        ) by {
            assert(es[i + 1] == tail[i]);
        }
        lemma_insert_entry_at(tail, k, v, pos - 1);
        assert(es.take(pos).drop_first() =~= tail.take(pos - 1));
        if pos < es.len() && es[pos].0 == k {
            assert(es.skip(pos + 1) =~= tail.skip(pos));
            assert(insert_entry(es, k, v) =~= es.take(pos) + seq![(k, v)] + es.skip(pos + 1));
        } else {
            assert(es.skip(pos) =~= tail.skip(pos - 1));
            assert(insert_entry(es, k, v) =~= es.take(pos) + seq![(k, v)] + es.skip(pos));
        }
    }
}

/// Inserts the pair at its sorted position, replacing an entry with an
/// equal key.
pub(crate) fn insert_pair(out: &mut Vec<(String, Value)>, k: String, v: Value)
    ensures
        view_entries(final(out)@) == insert_entry(view_entries(old(out)@), k@, v@),
{
    let ghost es = view_entries(old(out)@);
    proof {
        lemma_view_entries(old(out)@);
    }
    let mut pos: usize = 0;
    while pos < out.len() && str_lt(out[pos].0.as_str(), k.as_str())
        invariant
            pos <= out@.len(),
            out@ == old(out)@,
            es == view_entries(out@),
            es.len() == out@.len(),
            forall|i: int| 0 <= i < out@.len() ==> #[trigger] es[i] == (out@[i].0@, out@[i].1@),
            forall|i: int| 0 <= i < pos ==> str_lt_spec((#[trigger] es[i]).0, k@),
        decreases out@.len() - pos,
    {
        pos = pos + 1;
    }
    let is_replace = if pos < out.len() {
        out[pos].0.eq(&k)
    } else {
        false
    };
    proof {
        lemma_insert_entry_at(es, k@, v@, pos as int);
    }
    if is_replace {
        out.remove(pos);
        out.insert(pos, (k, v));
        proof {
            lemma_view_entries(out@);
            assert(view_entries(out@) =~= es.take(pos as int) + seq![(k@, v@)] + es.skip(
                pos as int + 1,
            ));
        }
    } else {
        out.insert(pos, (k, v));
        proof {
            lemma_view_entries(out@);
            assert(view_entries(out@) =~= es.take(pos as int) + seq![(k@, v@)] + es.skip(
                pos as int,
            ));
        }
    }
}

impl Value {
    /// The empty object.
    pub fn empty_object() -> (r: Value)
        ensures
            r@ == SpecValue::Obj(Seq::empty()),
            wf_value(r@),
    {
        let out: Vec<(String, Value)> = Vec::new();
        proof {
            assert(view_entries(out@) =~= Seq::empty());
        }
        Value::Obj(out)
    }

    /// Builds an object from key-value pairs: entries come out sorted
    /// by key, and of two pairs with the same key the later one wins.
    pub fn object(pairs: Vec<(String, Value)>) -> (r: Value)
        ensures
            r@ == SpecValue::Obj(entries_of_pairs(view_entries(pairs@))),
    {
        let ghost pview = view_entries(pairs@);
        proof {
            lemma_view_entries(pairs@);
        }
        let mut out: Vec<(String, Value)> = Vec::new();
        let mut i: usize = 0;
        proof {
            assert(view_entries(out@) =~= Seq::empty());
            assert(pview.take(0) =~= Seq::empty());
        }
        while i < pairs.len()
            invariant
                i <= pairs@.len(),
                pview == view_entries(pairs@),
                pview.len() == pairs@.len(),
                forall|j: int|
                    0 <= j < pairs@.len() ==> #[trigger] pview[j] == (
                        pairs@[j].0@,
                        pairs@[j].1@,
                    ),
                view_entries(out@) == entries_of_pairs(pview.take(i as int)),
            decreases pairs@.len() - i,
        {
            let k = pairs[i].0.clone();
            let v = pairs[i].1.clone();
            insert_pair(&mut out, k, v);
            proof {
                let t1 = pview.take(i + 1);
                assert(t1.drop_last() =~= pview.take(i as int));
                assert(t1.last() == pview[i as int]);
            }
            i = i + 1;
        }
        proof {
            assert(pview.take(pairs@.len() as int) =~= pview);
        }
        Value::Obj(out)
    }
}

impl Clone for Value {
    /// A clone has the same model as the original.
    #[verifier::loop_isolation(false)]
    fn clone(&self) -> (r: Value)
        ensures
            r@ == self@,
        decreases *self,
    {
        match self {
            Value::Null => Value::Null,
            Value::Bool(b) => Value::Bool(*b),
            Value::Num(s) => Value::Num(s.clone()),
            Value::Str(s) => Value::Str(s.clone()),
            Value::Arr(elems) => {
                let mut out: Vec<Value> = Vec::new();
                let mut i: usize = 0;
                while i < elems.len()
                    invariant
                        i <= elems@.len(),
                        out@.len() == i,
                        forall|j: int| 0 <= j < i ==> (#[trigger] out@[j])@ == elems@[j]@,
                    decreases elems@.len() - i,
                {
                    out.push(elems[i].clone());
                    i = i + 1;
                }
                proof {
                    lemma_view_elems(out@);
                    lemma_view_elems(elems@);
                    assert(view_elems(out@) =~= view_elems(elems@));
                }
                Value::Arr(out)
            },
            Value::Obj(entries) => {
                let mut out: Vec<(String, Value)> = Vec::new();
                let mut i: usize = 0;
                while i < entries.len()
                    invariant
                        i <= entries@.len(),
                        out@.len() == i,
                        forall|j: int|
                            0 <= j < i ==> (#[trigger] out@[j]).0@ == entries@[j].0@
                                && out@[j].1@ == entries@[j].1@,
                    decreases entries@.len() - i,
                {
                    let k = entries[i].0.clone();
                    let v = entries[i].1.clone();
                    out.push((k, v));
                    i = i + 1;
                }
                proof {
                    lemma_view_entries(out@);
                    lemma_view_entries(entries@);
                    assert(view_entries(out@) =~= view_entries(entries@));
                }
                Value::Obj(out)
            },
        }
    }
}

impl PartialEq for Value {
    /// Structural equality decides equality of the models.
    #[verifier::loop_isolation(false)]
    fn eq(&self, other: &Value) -> (r: bool)
        decreases *self,
    {
        match (self, other) {
            (Value::Null, Value::Null) => {
                proof {
                    assert(self@ == other@);
                }
                true
            },
            (Value::Bool(a), Value::Bool(b)) => {
                let r = *a == *b;
                proof {
                    assert(r == (self@ == other@));
                }
                r
            },
            (Value::Num(a), Value::Num(b)) => {
                let r = a.eq(b);
                proof {
                    assert(r == (self@ == other@));
                }
                r
            },
            (Value::Str(a), Value::Str(b)) => {
                let r = a.eq(b);
                proof {
                    assert(r == (self@ == other@));
                }
                r
            },
            (Value::Arr(a), Value::Arr(b)) => {
                proof {
                    lemma_view_elems(a@);
                    lemma_view_elems(b@);
                }
                if a.len() != b.len() {
                    return false;
                }
                let mut i: usize = 0;
                while i < a.len()
                    invariant
                        i <= a@.len(),
                        a@.len() == b@.len(),
                        view_elems(a@).len() == a@.len(),
                        view_elems(b@).len() == b@.len(),
                        forall|j: int| 0 <= j < a@.len() ==> view_elems(a@)[j] == a@[j]@,
                        forall|j: int| 0 <= j < b@.len() ==> view_elems(b@)[j] == b@[j]@,
                        forall|j: int| 0 <= j < i ==> (#[trigger] a@[j])@ == b@[j]@,
                    decreases a@.len() - i,
                {
                    if !(a[i].eq(&b[i])) {
                        proof {
                            assert(self@ == SpecValue::Arr(view_elems(a@)));
                            assert(other@ == SpecValue::Arr(view_elems(b@)));
                            assert(view_elems(a@)[i as int] != view_elems(b@)[i as int]);
                        }
                        return false;
                    }
                    i = i + 1;
                }
                proof {
                    assert(view_elems(a@) =~= view_elems(b@));
                }
                true
            },
            (Value::Obj(a), Value::Obj(b)) => {
                proof {
                    lemma_view_entries(a@);
                    lemma_view_entries(b@);
                }
                if a.len() != b.len() {
                    return false;
                }
                let mut i: usize = 0;
                while i < a.len()
                    invariant
                        i <= a@.len(),
                        a@.len() == b@.len(),
                        view_entries(a@).len() == a@.len(),
                        view_entries(b@).len() == b@.len(),
                        forall|j: int|
                            0 <= j < a@.len() ==> view_entries(a@)[j] == (a@[j].0@, a@[j].1@),
                        forall|j: int|
                            0 <= j < b@.len() ==> view_entries(b@)[j] == (b@[j].0@, b@[j].1@),
                        forall|j: int|
                            0 <= j < i ==> (#[trigger] a@[j]).0@ == b@[j].0@
                                && a@[j].1@ == b@[j].1@,
                    decreases a@.len() - i,
                {
                    let keys_eq = a[i].0.eq(&b[i].0);
                    let vals_eq = a[i].1.eq(&b[i].1);
                    if !keys_eq || !vals_eq {
                        proof {
                            assert(self@ == SpecValue::Obj(view_entries(a@)));
                            assert(other@ == SpecValue::Obj(view_entries(b@)));
                            assert(view_entries(a@)[i as int] != view_entries(b@)[i as int]);
                        }
                        return false;
                    }
                    i = i + 1;
                }
                proof {
                    assert(view_entries(a@) =~= view_entries(b@));
                }
                true
            },
            _ => {
                proof {
                    assert(self@ != other@);
                }
                false
            },
        }
    }
}

impl vstd::std_specs::cmp::PartialEqSpecImpl for Value {
    open spec fn obeys_eq_spec() -> bool {
        true
    }

    open spec fn eq_spec(&self, other: &Value) -> bool {
        self@ == other@
    }
}

} // verus!
