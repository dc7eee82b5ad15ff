use vstd::prelude::*;

use crate::error::BmsError;
use crate::value::{SpecValue, Value};

verus! {

/// The escaped rendering of one string character: `"` and `\` get a
/// backslash, control characters a `\u00..` escape, all others stand
/// for themselves.
pub open spec fn escape_char(c: char) -> Seq<char> {
    if c == '"' {
        seq!['\\', '"']
    } else if c == '\\' {
        seq!['\\', '\\']
    } else if (c as u32) < 32 {
        seq!['\\', 'u', '0', '0', hex_digit(c as u32 as int / 16), hex_digit(c as u32 as int % 16)]
    } else {
        seq![c]
    }
}

/// The escaped rendering of a string's characters.
pub open spec fn escape_chars(s: Seq<char>) -> Seq<char>
    decreases s.len(),
{
    if s.len() == 0 {
        Seq::empty()
    } else {
        escape_char(s[0]) + escape_chars(s.drop_first())
    }
}

/// The canonical character rendering of a value.
pub open spec fn canon_chars(v: SpecValue) -> Seq<char>
    decreases v,
{
    match v {
        SpecValue::Null => seq!['n', 'u', 'l', 'l'],
        SpecValue::Bool(b) => if b {
            seq!['t', 'r', 'u', 'e']
        } else {
            seq!['f', 'a', 'l', 's', 'e']
        },
        SpecValue::Num(s) => s,
        SpecValue::Str(s) => seq!['"'] + escape_chars(s) + seq!['"'],
        SpecValue::Arr(elems) => seq!['['] + canon_list(elems) + seq![']'],
        SpecValue::Obj(es) => seq!['{'] + canon_entries(es) + seq!['}'],
    }
}

/// Array elements, comma separated.
pub open spec fn canon_list(elems: Seq<SpecValue>) -> Seq<char>
    decreases elems,
{
    if elems.len() == 0 {
        Seq::empty()
    } else if elems.len() == 1 {
        canon_chars(elems[0])
    } else {
        canon_chars(elems[0]) + seq![','] + canon_list(elems.drop_first())
    }
}

/// One object entry: quoted escaped key, colon, value.
pub open spec fn entry_chars(e: (Seq<char>, SpecValue)) -> Seq<char>
    decreases e,
{
    seq!['"'] + escape_chars(e.0) + seq!['"', ':'] + canon_chars(e.1)
}

/// Object entries, comma separated.
pub open spec fn canon_entries(es: Seq<(Seq<char>, SpecValue)>) -> Seq<char>
    decreases es,
{
    if es.len() == 0 {
        Seq::empty()
    } else if es.len() == 1 {
        entry_chars(es[0])
    } else {
        entry_chars(es[0]) + seq![','] + canon_entries(es.drop_first())
    }
}

/// Canonical byte encoding of a value: the UTF-8 bytes of its
/// canonical character rendering.
pub open spec fn canon_bytes(v: SpecValue) -> Seq<u8> {
    vstd::utf8::encode_utf8(canon_chars(v))
}

/// Relies on `String::from_iter` over `std::iter::Iterator` for
/// `core::slice::Iter`: collecting chars builds the string of exactly
/// those chars in order.
#[verifier::external_body]
pub(crate) fn chars_to_string(cs: &Vec<char>) -> (r: String)
    ensures
        r@ == cs@,
{
    cs.iter().collect()
}

/// The hex digit (lowercase) for a value below 16.
pub open spec fn hex_digit(d: int) -> char {
    if d == 0 {
        '0'
    } else if d == 1 {
        '1'
    } else if d == 2 {
        '2'
    } else if d == 3 {
        '3'
    } else if d == 4 {
        '4'
    } else if d == 5 {
        '5'
    } else if d == 6 {
        '6'
    } else if d == 7 {
        '7'
    } else if d == 8 {
        '8'
    } else if d == 9 {
        '9'
    } else if d == 10 {
        'a'
    } else if d == 11 {
        'b'
    } else if d == 12 {
        'c'
    } else if d == 13 {
        'd'
    } else if d == 14 {
        'e'
    } else {
        'f'
    }
}

/// The hex digit (lowercase) for a value below 16.
pub fn hex_digit_char(d: u32) -> (r: char)
    requires
        d < 16,
    ensures
        r == hex_digit(d as int),
{
    if d == 0 {
        '0'
    } else if d == 1 {
        '1'
    } else if d == 2 {
        '2'
    } else if d == 3 {
        '3'
    } else if d == 4 {
        '4'
    } else if d == 5 {
        '5'
    } else if d == 6 {
        '6'
    } else if d == 7 {
        '7'
    } else if d == 8 {
        '8'
    } else if d == 9 {
        '9'
    } else if d == 10 {
        'a'
    } else if d == 11 {
        'b'
    } else if d == 12 {
        'c'
    } else if d == 13 {
        'd'
    } else if d == 14 {
        'e'
    } else {
        'f'
    }
}

/// Appends the escaped form of one string character.
fn emit_escaped_char(c: char, out: &mut Vec<char>)
    ensures
        final(out)@ == old(out)@ + escape_char(c),
{
    if c == '"' {
        out.push('\\');
        out.push('"');
    } else if c == '\\' {
        out.push('\\');
        out.push('\\');
    } else if (c as u32) < 32 {
        let code = c as u32;
        out.push('\\');
        out.push('u');
        out.push('0');
        out.push('0');
        out.push(hex_digit_char(code / 16));
        out.push(hex_digit_char(code % 16));
    } else {
        out.push(c);
    }
    proof {
        assert(final(out)@ =~= old(out)@ + escape_char(c));
    }
}

/// Taking one more character appends its escape to the escaped prefix.
proof fn lemma_escape_chars_take(s: Seq<char>, i: int)
    requires
        0 <= i < s.len(),
    ensures
        escape_chars(s.take(i + 1)) == escape_chars(s.take(i)) + escape_char(s[i]),
    decreases i,
{
    let a = s.take(i + 1);
    let b = s.take(i);
    if i == 0 {
        assert(b =~= Seq::empty());
        assert(a.drop_first() =~= Seq::empty());
        assert(escape_chars(Seq::<char>::empty()) =~= Seq::empty());
        assert(a[0] == s[0]);
        assert(escape_chars(a) =~= escape_char(s[0]));
        assert(escape_chars(b) + escape_char(s[0]) =~= escape_char(s[0]));
    } else {
        lemma_escape_chars_take(s.drop_first(), i - 1);
        assert(a.drop_first() =~= s.drop_first().take(i));
        assert(b.drop_first() =~= s.drop_first().take(i - 1));
        assert(s.drop_first()[i - 1] == s[i]);
        assert(escape_chars(a) == escape_char(a[0]) + escape_chars(a.drop_first()));
        assert(escape_chars(b) == escape_char(b[0]) + escape_chars(b.drop_first()));
        assert(escape_chars(a) =~= escape_chars(b) + escape_char(s[i]));
    }
}

/// Appends the escaped form of a string's characters.
#[verifier::loop_isolation(false)]
fn emit_escaped(s: &str, out: &mut Vec<char>)
    ensures
        final(out)@ == old(out)@ + escape_chars(s@),
{
    let len = s.unicode_len();
    let mut i: usize = 0;
    proof {
        assert(s@.take(0) =~= Seq::empty());
        assert(old(out)@ + escape_chars(s@.take(0)) =~= old(out)@);
    }
    while i < len
        invariant
            i <= len,
            out@ == old(out)@ + escape_chars(s@.take(i as int)),
        decreases len - i,
    {
        let c = s.get_char(i);
        emit_escaped_char(c, out);
        proof {
            lemma_escape_chars_take(s@, i as int);
        }
        i = i + 1;
    }
    proof {
        assert(s@.take(len as int) =~= s@);
    }
}

/// Appending one more element extends the rendered list with a comma
/// and the element's rendering (no comma for the first).
proof fn lemma_canon_list_push(elems: Seq<SpecValue>, x: SpecValue)
    ensures
        canon_list(elems.push(x)) == if elems.len() == 0 {
            canon_chars(x)
        } else {
            canon_list(elems) + seq![','] + canon_chars(x)
        },
    decreases elems.len(),
{
    let p = elems.push(x);
    if elems.len() == 0 {
        assert(p.len() == 1);
        assert(p[0] == x);
        assert(canon_list(p) == canon_chars(x));
    } else {
        lemma_canon_list_push(elems.drop_first(), x);
        assert(p.drop_first() =~= elems.drop_first().push(x));
        assert(p[0] == elems[0]);
        if elems.len() == 1 {
            assert(elems.drop_first().len() == 0);
            assert(canon_list(p) == canon_chars(elems[0]) + seq![','] + canon_list(
                p.drop_first(),
            ));
            assert(canon_list(p) =~= canon_list(elems) + seq![','] + canon_chars(x));
        } else {
            assert(canon_list(elems) == canon_chars(elems[0]) + seq![','] + canon_list(
                elems.drop_first(),
            ));
            assert(canon_list(p) == canon_chars(p[0]) + seq![','] + canon_list(p.drop_first()));
            assert(canon_list(p) =~= canon_list(elems) + seq![','] + canon_chars(x));
        }
    }
}

/// The same, for object entries.
proof fn lemma_canon_entries_push(es: Seq<(Seq<char>, SpecValue)>, x: (Seq<char>, SpecValue))
    ensures
        canon_entries(es.push(x)) == if es.len() == 0 {
            entry_chars(x)
        } else {
            canon_entries(es) + seq![','] + entry_chars(x)
        },
    decreases es.len(),
{
    let p = es.push(x);
    if es.len() == 0 {
        assert(p.len() == 1);
        assert(p[0] == x);
        assert(canon_entries(p) == entry_chars(x));
    } else {
        lemma_canon_entries_push(es.drop_first(), x);
        assert(p.drop_first() =~= es.drop_first().push(x));
        assert(p[0] == es[0]);
        if es.len() == 1 {
            assert(es.drop_first().len() == 0);
            assert(canon_entries(p) == entry_chars(p[0]) + seq![','] + canon_entries(
                p.drop_first(),
            ));
            assert(canon_entries(p) =~= canon_entries(es) + seq![','] + entry_chars(x));
        } else {
            assert(canon_entries(es) == entry_chars(es[0]) + seq![','] + canon_entries(
                es.drop_first(),
            ));
            assert(canon_entries(p) == entry_chars(p[0]) + seq![','] + canon_entries(
                p.drop_first(),
            ));
            assert(canon_entries(p) =~= canon_entries(es) + seq![','] + entry_chars(x));
        }
    }
}

/// Appends the canonical rendering of a value.
#[verifier::loop_isolation(false)]
fn emit_value(v: &Value, out: &mut Vec<char>)
    ensures
        final(out)@ == old(out)@ + canon_chars(v@),
    decreases *v,
{
    match v {
        Value::Null => {
            out.push('n');
            out.push('u');
            out.push('l');
            out.push('l');
            proof {
                assert(final(out)@ =~= old(out)@ + canon_chars(v@));
            }
        },
        Value::Bool(b) => {
            if *b {
                out.push('t');
                out.push('r');
                out.push('u');
                out.push('e');
            } else {
                out.push('f');
                out.push('a');
                out.push('l');
                out.push('s');
                out.push('e');
            }
            proof {
                assert(final(out)@ =~= old(out)@ + canon_chars(v@));
            }
        },
        Value::Num(s) => {
            let len = s.as_str().unicode_len();
            let mut i: usize = 0;
            while i < len
                invariant
                    i <= len,
                    out@ == old(out)@ + s@.take(i as int),
                decreases len - i,
            {
                let c = s.as_str().get_char(i);
                out.push(c);
                proof {
                    assert(s@.take(i + 1) =~= s@.take(i as int).push(s@[i as int]));
                }
                i = i + 1;
            }
            proof {
                assert(s@.take(len as int) =~= s@);
            }
        },
        Value::Str(s) => {
            out.push('"');
            emit_escaped(s.as_str(), out);
            out.push('"');
            proof {
                assert(final(out)@ =~= old(out)@ + canon_chars(v@));
            }
        },
        Value::Arr(elems) => {
            proof {
                crate::value::lemma_view_elems(elems@);
            }
            out.push('[');
            let ghost base = out@;
            let mut i: usize = 0;
            proof {
                assert(crate::value::view_elems(elems@).take(0) =~= Seq::empty());
            }
            while i < elems.len()
                invariant
                    i <= elems@.len(),
                    out@ == base + canon_list(crate::value::view_elems(elems@).take(i as int)),
                decreases elems@.len() - i,
            {
                if i > 0 {
                    out.push(',');
                }
                emit_value(&elems[i], out);
                proof {
                    let vs = crate::value::view_elems(elems@);
                    assert(vs.take(i + 1) =~= vs.take(i as int).push(vs[i as int]));
                    lemma_canon_list_push(vs.take(i as int), vs[i as int]);
                    if i > 0 {
                        assert(out@ =~= base + canon_list(vs.take(i + 1)));
                    } else {
                        assert(out@ =~= base + canon_list(vs.take(1)));
                    }
                }
                i = i + 1;
            }
            out.push(']');
            proof {
                let vs = crate::value::view_elems(elems@);
                assert(vs.take(elems@.len() as int) =~= vs);
                assert(final(out)@ =~= old(out)@ + canon_chars(v@));
            }
        },
        Value::Obj(entries) => {
            proof {
                crate::value::lemma_view_entries(entries@);
            }
            out.push('{');
            let ghost base = out@;
            let mut i: usize = 0;
            proof {
                assert(crate::value::view_entries(entries@).take(0) =~= Seq::empty());
            }
            while i < entries.len()
                invariant
                    i <= entries@.len(),
                    out@ == base + canon_entries(
                        crate::value::view_entries(entries@).take(i as int),
                    ),
                decreases entries@.len() - i,
            {
                if i > 0 {
                    out.push(',');
                }
                out.push('"');
                emit_escaped(entries[i].0.as_str(), out);
                out.push('"');
                out.push(':');
                emit_value(&entries[i].1, out);
                proof {
                    let es = crate::value::view_entries(entries@);
                    assert(es.take(i + 1) =~= es.take(i as int).push(es[i as int]));
                    lemma_canon_entries_push(es.take(i as int), es[i as int]);
                    assert(entry_chars(es[i as int]) == seq!['"'] + escape_chars(
                        entries@[i as int].0@,
                    ) + seq!['"', ':'] + canon_chars(entries@[i as int].1@));
                    assert(out@ =~= base + canon_entries(es.take(i + 1)));
                }
                i = i + 1;
            }
            out.push('}');
            proof {
                let es = crate::value::view_entries(entries@);
                assert(es.take(entries@.len() as int) =~= es);
                assert(final(out)@ =~= old(out)@ + canon_chars(v@));
            }
        },
    }
}

/// Deterministic rendering of structured values.
///
/// The rendering is a pure function of the value's model: object
/// entries come out in their stored (sorted) order, with no whitespace,
/// strings with the minimal JSON escape set, numbers verbatim.
pub struct Canonicalizer;

impl Canonicalizer {
    /// The canonical character rendering of `value`.
    pub fn canonicalize_str(value: &Value) -> (r: Result<String, BmsError>)
        ensures
            r is Ok,
            r matches Ok(s) ==> s@ == canon_chars(value@),
    {
        let mut out: Vec<char> = Vec::new();
        emit_value(value, &mut out);
        proof {
            assert(Seq::<char>::empty() + canon_chars(value@) =~= canon_chars(value@));
        }
        Ok(chars_to_string(&out))
    }

    /// The canonical byte encoding of `value`.
    pub fn canonicalize(value: &Value) -> (r: Result<Vec<u8>, BmsError>)
        ensures
            r is Ok,
            r matches Ok(b) ==> b@ == canon_bytes(value@),
    {
        let s = match Self::canonicalize_str(value) {
            Ok(s) => s,
            Err(e) => {
                return Err(e);
            },
        };
        Ok(s.as_str().as_bytes_vec())
    }
}

} // verus!
