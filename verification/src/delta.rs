use vstd::prelude::*;

use crate::canonical::{canon_bytes, chars_to_string, hex_digit, Canonicalizer};
use crate::crypto::{hex_encode, hex_of, lemma_hex_of_len, sha3_256, sha3_of};
use crate::diff::{all_rooted_ok, diff_values};
use crate::error::BmsError;
use crate::patch::{
    apply_one, apply_op_spec, apply_ops_spec, lemma_apply_ops_app, lemma_apply_ops_push,
    view_ops, view_tokens, PatchOp, PathToken, SpecOp, SpecToken,
};
use crate::types::DeltaId;
use crate::value::{view_elems, view_entries, wf_value, SpecValue, Value};

verus! {

/// Decimal digits of an index.
pub open spec fn dec_chars(n: nat) -> Seq<char>
    decreases n,
{
    if n < 10 {
        seq![hex_digit(n as int)]
    } else {
        dec_chars(n / 10) + seq![hex_digit((n % 10) as int)]
    }
}

/// One path token escaped for a pointer string: `~` becomes `~0`, `/`
/// becomes `~1`.
pub open spec fn ptr_escape_char(c: char) -> Seq<char> {
    if c == '~' {
        seq!['~', '0']
    } else if c == '/' {
        seq!['~', '1']
    } else {
        seq![c]
    }
}

pub open spec fn ptr_escape(s: Seq<char>) -> Seq<char>
    decreases s.len(),
{
    if s.len() == 0 {
        Seq::empty()
    } else {
        ptr_escape_char(s[0]) + ptr_escape(s.drop_first())
    }
}

/// One token rendered for a pointer string.
pub open spec fn token_chars(t: SpecToken) -> Seq<char> {
    match t {
        SpecToken::Key(k) => ptr_escape(k),
        SpecToken::Index(i) => if i >= 0 {
            dec_chars(i as nat)
        } else {
            Seq::empty()
        },
    }
}

/// The pointer string of a path: `/` then each escaped token; the
/// empty path is the empty string.
pub open spec fn path_chars(path: Seq<SpecToken>) -> Seq<char>
    decreases path.len(),
{
    if path.len() == 0 {
        Seq::empty()
    } else {
        seq!['/'] + token_chars(path[0]) + path_chars(path.drop_first())
    }
}

/// One operation rendered as an object value, keys in sorted order.
pub open spec fn op_value(op: SpecOp) -> SpecValue {
    match op {
        SpecOp::Add { path, value } => SpecValue::Obj(
            seq![
                (seq!['o', 'p'], SpecValue::Str(seq!['a', 'd', 'd'])),
                (seq!['p', 'a', 't', 'h'], SpecValue::Str(path_chars(path))),
                (seq!['v', 'a', 'l', 'u', 'e'], value),
            ],
        ),
        SpecOp::Remove { path } => SpecValue::Obj(
            seq![
                (seq!['o', 'p'], SpecValue::Str(seq!['r', 'e', 'm', 'o', 'v', 'e'])),
                (seq!['p', 'a', 't', 'h'], SpecValue::Str(path_chars(path))),
            ],
        ),
        SpecOp::Replace { path, value } => SpecValue::Obj(
            seq![
                (seq!['o', 'p'], SpecValue::Str(seq!['r', 'e', 'p', 'l', 'a', 'c', 'e'])),
                (seq!['p', 'a', 't', 'h'], SpecValue::Str(path_chars(path))),
                (seq!['v', 'a', 'l', 'u', 'e'], value),
            ],
        ),
    }
}

/// A patch rendered as an array of operation objects.
pub open spec fn ops_value(ops: Seq<SpecOp>) -> SpecValue {
    SpecValue::Arr(Seq::new(ops.len(), |i: int| op_value(ops[i])))
}

/// The digest of a patch: the digest of its canonical rendering.
pub open spec fn hash_delta_of(ops: Seq<SpecOp>) -> Seq<char> {
    hex_of(sha3_of(canon_bytes(ops_value(ops))))
}

/// The id of a patch: the first 16 digest bytes, in hex.
pub open spec fn delta_id_of(ops: Seq<SpecOp>) -> Seq<char> {
    hex_of(sha3_of(canon_bytes(ops_value(ops))).take(16))
}

/// The digest of a state: the digest of its canonical bytes.
pub open spec fn state_hash_of(v: SpecValue) -> Seq<char> {
    hex_of(sha3_of(canon_bytes(v)))
}

/// Appends the decimal digits of `n`.
fn push_dec(n: usize, out: &mut Vec<char>)
    ensures
        final(out)@ == old(out)@ + dec_chars(n as nat),
    decreases n,
{
    if n < 10 {
        out.push(crate::canonical::hex_digit_char(n as u32));
        proof {
            assert(final(out)@ =~= old(out)@ + dec_chars(n as nat));
        }
    } else {
        push_dec(n / 10, out);
        out.push(crate::canonical::hex_digit_char((n % 10) as u32));
        proof {
            assert(final(out)@ =~= old(out)@ + dec_chars(n as nat));
        }
    }
}

/// Taking one more character extends the escaped pointer prefix.
proof fn lemma_ptr_escape_take(s: Seq<char>, i: int)
    requires
        0 <= i < s.len(),
    ensures
        ptr_escape(s.take(i + 1)) == ptr_escape(s.take(i)) + ptr_escape_char(s[i]),
    decreases i,
{
    let a = s.take(i + 1);
    let b = s.take(i);
    if i == 0 {
        assert(b =~= Seq::empty());
        assert(a.drop_first() =~= Seq::empty());
        assert(ptr_escape(Seq::<char>::empty()) =~= Seq::empty());
        assert(a[0] == s[0]);
        assert(ptr_escape(a) =~= ptr_escape_char(s[0]));
        assert(ptr_escape(b) + ptr_escape_char(s[0]) =~= ptr_escape_char(s[0]));
    } else {
        lemma_ptr_escape_take(s.drop_first(), i - 1);
        assert(a.drop_first() =~= s.drop_first().take(i));
        assert(b.drop_first() =~= s.drop_first().take(i - 1));
        assert(s.drop_first()[i - 1] == s[i]);
        assert(ptr_escape(a) =~= ptr_escape(b) + ptr_escape_char(s[i]));
    }
}

/// Appends the escaped pointer form of a key.
#[verifier::loop_isolation(false)]
fn push_ptr_escaped(s: &str, out: &mut Vec<char>)
    ensures
        final(out)@ == old(out)@ + ptr_escape(s@),
{
    let len = s.unicode_len();
    let mut i: usize = 0;
    proof {
        assert(s@.take(0) =~= Seq::empty());
        assert(old(out)@ + ptr_escape(s@.take(0)) =~= old(out)@);
    }
    while i < len
        invariant
            i <= len,
            out@ == old(out)@ + ptr_escape(s@.take(i as int)),
        decreases len - i,
    {
        let c = s.get_char(i);
        if c == '~' {
            out.push('~');
            out.push('0');
        } else if c == '/' {
            out.push('~');
            out.push('1');
        } else {
            out.push(c);
        }
        proof {
            lemma_ptr_escape_take(s@, i as int);
            assert(out@ =~= old(out)@ + ptr_escape(s@.take(i + 1)));
        }
        i = i + 1;
    }
    proof {
        assert(s@.take(len as int) =~= s@);
    }
}

/// The pointer string of a path.
#[verifier::loop_isolation(false)]
fn path_to_string(path: &Vec<PathToken>) -> (r: String)
    ensures
        r@ == path_chars(view_tokens(path@)),
{
    let mut out: Vec<char> = Vec::new();
    let mut i: usize = 0;
    proof {
        assert(view_tokens(path@).skip(0) =~= view_tokens(path@));
    }
    while i < path.len()
        invariant
            i <= path@.len(),
            path_chars(view_tokens(path@)) == out@ + path_chars(
                view_tokens(path@).skip(i as int),
            ),
        decreases path@.len() - i,
    {
        let ghost rest = view_tokens(path@).skip(i as int);
        proof {
            assert(rest[0] == path@[i as int]@);
            assert(rest.drop_first() =~= view_tokens(path@).skip(i + 1));
        }
        out.push('/');
        match &path[i] {
            PathToken::Key(k) => {
                push_ptr_escaped(k.as_str(), &mut out);
            },
            PathToken::Index(idx) => {
                push_dec(*idx, &mut out);
            },
        }
        proof {
            assert(path_chars(view_tokens(path@)) =~= out@ + path_chars(
                view_tokens(path@).skip(i + 1),
            ));
        }
        i = i + 1;
    }
    proof {
        assert(path_chars(view_tokens(path@).skip(path@.len() as int)) =~= Seq::<
            char,
        >::empty());
        assert(path_chars(view_tokens(path@)) =~= out@);
    }
    chars_to_string(&out)
}

/// Builds the string value of an operation kind.
fn kind_string(op: &PatchOp) -> (r: String)
    ensures
        op is Add ==> r@ == seq!['a', 'd', 'd'],
        op is Remove ==> r@ == seq!['r', 'e', 'm', 'o', 'v', 'e'],
        op is Replace ==> r@ == seq!['r', 'e', 'p', 'l', 'a', 'c', 'e'],
{
    let mut cs: Vec<char> = Vec::new();
    match op {
        PatchOp::Add { .. } => {
            cs.push('a');
            cs.push('d');
            cs.push('d');
            proof {
                assert(cs@ =~= seq!['a', 'd', 'd']);
            }
        },
        PatchOp::Remove { .. } => {
            cs.push('r');
            cs.push('e');
            cs.push('m');
            cs.push('o');
            cs.push('v');
            cs.push('e');
            proof {
                assert(cs@ =~= seq!['r', 'e', 'm', 'o', 'v', 'e']);
            }
        },
        PatchOp::Replace { .. } => {
            cs.push('r');
            cs.push('e');
            cs.push('p');
            cs.push('l');
            cs.push('a');
            cs.push('c');
            cs.push('e');
            proof {
                assert(cs@ =~= seq!['r', 'e', 'p', 'l', 'a', 'c', 'e']);
            }
        },
    }
    chars_to_string(&cs)
}

/// Builds a short key string from its characters.
fn key_string(cs: Vec<char>) -> (r: String)
    ensures
        r@ == cs@,
{
    chars_to_string(&cs)
}

/// Renders one operation as an object value.
fn op_to_value(op: &PatchOp) -> (r: Value)
    ensures
        r@ == op_value(op@),
{
    let kind = kind_string(op);
    let mut op_key: Vec<char> = Vec::new();
    op_key.push('o');
    op_key.push('p');
    let mut path_key: Vec<char> = Vec::new();
    path_key.push('p');
    path_key.push('a');
    path_key.push('t');
    path_key.push('h');
    let mut value_key: Vec<char> = Vec::new();
    value_key.push('v');
    value_key.push('a');
    value_key.push('l');
    value_key.push('u');
    value_key.push('e');
    proof {
        assert(op_key@ =~= seq!['o', 'p']);
        assert(path_key@ =~= seq!['p', 'a', 't', 'h']);
        assert(value_key@ =~= seq!['v', 'a', 'l', 'u', 'e']);
    }
    match op {
        PatchOp::Add { path, value } => {
            let ps = path_to_string(path);
            let mut entries: Vec<(String, Value)> = Vec::new();
            entries.push((key_string(op_key), Value::Str(kind)));
            entries.push((key_string(path_key), Value::Str(ps)));
            entries.push((key_string(value_key), value.clone()));
            proof {
                crate::value::lemma_view_entries(entries@);
                assert(view_entries(entries@) =~= op_value(op@)->Obj_0);
            }
            Value::Obj(entries)
        },
        PatchOp::Remove { path } => {
            let ps = path_to_string(path);
            let mut entries: Vec<(String, Value)> = Vec::new();
            entries.push((key_string(op_key), Value::Str(kind)));
            entries.push((key_string(path_key), Value::Str(ps)));
            proof {
                crate::value::lemma_view_entries(entries@);
                assert(view_entries(entries@) =~= op_value(op@)->Obj_0);
            }
            Value::Obj(entries)
        },
        PatchOp::Replace { path, value } => {
            let ps = path_to_string(path);
            let mut entries: Vec<(String, Value)> = Vec::new();
            entries.push((key_string(op_key), Value::Str(kind)));
            entries.push((key_string(path_key), Value::Str(ps)));
            entries.push((key_string(value_key), value.clone()));
            proof {
                crate::value::lemma_view_entries(entries@);
                assert(view_entries(entries@) =~= op_value(op@)->Obj_0);
            }
            Value::Obj(entries)
        },
    }
}

/// Renders a patch as an array value.
fn ops_to_value(ops: &Vec<PatchOp>) -> (r: Value)
    ensures
        r@ == ops_value(view_ops(ops@)),
{
    let mut out: Vec<Value> = Vec::new();
    let mut i: usize = 0;
    while i < ops.len()
        invariant
            i <= ops@.len(),
            out@.len() == i,
            forall|j: int| 0 <= j < i ==> (#[trigger] out@[j])@ == op_value(ops@[j]@),
        decreases ops@.len() - i,
    {
        out.push(op_to_value(&ops[i]));
        i = i + 1;
    }
    proof {
        crate::value::lemma_view_elems(out@);
        assert(view_elems(out@) =~= ops_value(view_ops(ops@))->Arr_0);
    }
    Value::Arr(out)
}

/// Computes, applies and digests structural patches.
pub struct DeltaEngine;

impl DeltaEngine {
    /// The patch from `prev_state` to `current_state`: applying the
    /// result to `prev_state` yields exactly `current_state`.
    pub fn compute_delta(prev_state: &Value, current_state: &Value) -> (r: Result<
        Vec<PatchOp>,
        BmsError,
    >)
        requires
            wf_value(prev_state@),
            wf_value(current_state@),
        ensures
            r is Ok,
            r matches Ok(ops) ==> apply_ops_spec(prev_state@, view_ops(ops@)) == Some(
                current_state@,
            ) && all_rooted_ok(view_ops(ops@)),
            r matches Ok(ops) ==> (prev_state@ == current_state@ ==> ops@.len() == 0),
    {
        Ok(diff_values(prev_state, current_state))
    }

    /// Applies a patch in place. On failure the state is unchanged and
    /// the error carries the index of the offending operation.
    #[verifier::loop_isolation(false)]
    pub fn apply_delta(state: &mut Value, ops: &Vec<PatchOp>) -> (r: Result<(), BmsError>)
        ensures
            apply_ops_spec(old(state)@, view_ops(ops@)) matches Some(s) ==> r is Ok && final(state)@ == s,
            apply_ops_spec(old(state)@, view_ops(ops@)) is None ==> (r matches Err(e) ==> (
            e matches BmsError::DeltaCompression { op_index } ==> op_index < ops@.len()
                && apply_ops_spec(
                old(state)@,
                view_ops(ops@).take(op_index as int),
            ) is Some && apply_op_spec(
                apply_ops_spec(old(state)@, view_ops(ops@).take(op_index as int)).unwrap(),
                ops@[op_index as int]@,
            ) is None)),
            apply_ops_spec(old(state)@, view_ops(ops@)) is None ==> r is Err,
            r matches Err(e) ==> e is DeltaCompression,
            r is Err ==> final(state)@ == old(state)@,
    {
        let ghost all = view_ops(ops@);
        let mut cur = state.clone();
        let mut i: usize = 0;
        proof {
            assert(all.take(0) =~= Seq::<SpecOp>::empty());
        }
        while i < ops.len()
            invariant
                i <= ops@.len(),
                apply_ops_spec(old(state)@, all.take(i as int)) == Some(cur@),
                state@ == old(state)@,
            decreases ops@.len() - i,
        {
            match apply_one(&cur, &ops[i]) {
                Some(next) => {
                    proof {
                        assert(all.take(i + 1) =~= all.take(i as int).push(all[i as int]));
                        lemma_apply_ops_push(old(state)@, all.take(i as int), all[i as int]);
                    }
                    cur = next;
                },
                None => {
                    proof {
                        assert(all =~= all.take(i as int) + all.skip(i as int));
                        lemma_apply_ops_app(
                            old(state)@,
                            all.take(i as int),
                            all.skip(i as int),
                        );
                        assert(all.skip(i as int)[0] == all[i as int]);
                        assert(apply_ops_spec(cur@, all.skip(i as int)) is None);
                    }
                    return Err(BmsError::DeltaCompression { op_index: i });
                },
            }
            i = i + 1;
        }
        proof {
            assert(all.take(ops@.len() as int) =~= all);
        }
        *state = cur;
        Ok(())
    }

    /// The digest of a patch: SHA3-256 over its canonical rendering,
    /// in hex.
    pub fn hash_delta(ops: &Vec<PatchOp>) -> (r: Result<crate::types::Hash, BmsError>)
        ensures
            r is Ok,
            r matches Ok(h) ==> h@ == hash_delta_of(view_ops(ops@)) && h@.len() == 64,
    {
        let rendered = ops_to_value(ops);
        let canonical = match Canonicalizer::canonicalize(&rendered) {
            Ok(b) => b,
            Err(e) => {
                return Err(e);
            },
        };
        let digest = sha3_256(&canonical);
        proof {
            lemma_hex_of_len(digest@);
        }
        Ok(crate::types::Hash(hex_encode(&digest)))
    }

    /// The id of a patch: the first 16 digest bytes as 32 hex digits.
    pub fn generate_delta_id(ops: &Vec<PatchOp>) -> (r: Result<DeltaId, BmsError>)
        ensures
            r is Ok,
            r matches Ok(id) ==> id@ == delta_id_of(view_ops(ops@)) && id@.len() == 32,
            r matches Ok(id) ==> id@ == hash_delta_of(view_ops(ops@)).take(32),
    {
        let rendered = ops_to_value(ops);
        let canonical = match Canonicalizer::canonicalize(&rendered) {
            Ok(b) => b,
            Err(e) => {
                return Err(e);
            },
        };
        let digest = sha3_256(&canonical);
        let mut prefix: Vec<u8> = Vec::new();
        let mut t: usize = 0;
        while t < 16
            invariant
                t <= 16,
                digest@.len() == 32,
                prefix@ == digest@.take(t as int),
            decreases 16 - t,
        {
            let byte = digest[t];
            prefix.push(byte);
            proof {
                assert(digest@.take(t + 1) =~= digest@.take(t as int).push(
                    digest@[t as int],
                ));
            }
            t = t + 1;
        }
        proof {
            lemma_hex_of_len(prefix@);
            crate::crypto::lemma_hex_of_take(digest@, 16);
        }
        Ok(DeltaId(hex_encode(&prefix)))
    }

    /// The digest of a state: SHA3-256 over its canonical bytes, in
    /// hex.
    pub fn hash_state(state: &Value) -> (r: Result<crate::types::Hash, BmsError>)
        ensures
            r is Ok,
            r matches Ok(h) ==> h@ == state_hash_of(state@) && h@.len() == 64,
    {
        let canonical = match Canonicalizer::canonicalize(state) {
            Ok(b) => b,
            Err(e) => {
                return Err(e);
            },
        };
        let digest = sha3_256(&canonical);
        proof {
            lemma_hex_of_len(digest@);
        }
        Ok(crate::types::Hash(hex_encode(&digest)))
    }

    /// Recomputes the digest of `ops` and holds it against
    /// `expected_hash`: `Ok` exactly on a match.
    pub fn verify_delta_hash(ops: &Vec<PatchOp>, expected_hash: &crate::types::Hash) -> (r: Result<
        (),
        BmsError,
    >)
        ensures
            r is Ok <==> expected_hash@ == hash_delta_of(view_ops(ops@)),
            r matches Err(e) ==> e matches BmsError::HashMismatch { expected, actual }
                && expected@ == expected_hash@ && actual@ == hash_delta_of(view_ops(ops@)),
    {
        let actual = match Self::hash_delta(ops) {
            Ok(h) => h,
            Err(e) => {
                return Err(e);
            },
        };
        if actual.0.eq(&expected_hash.0) {
            Ok(())
        } else {
            Err(
                BmsError::HashMismatch {
                    expected: expected_hash.0.clone(),
                    actual: actual.0,
                },
            )
        }
    }
}

} // verus!
