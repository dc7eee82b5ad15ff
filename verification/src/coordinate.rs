use vstd::prelude::*;

use crate::canonical::{canon_bytes, Canonicalizer};
use crate::clock::now_rfc3339;
use crate::crypto::{base32_encode, base32_of, is_b32_char, sha3_256, sha3_of};
use crate::error::BmsError;
use crate::types::CoordId;
use crate::value::{SpecValue, Value};

verus! {

/// The little-endian bytes of a nonce.
pub open spec fn u32_le_bytes(n: u32) -> Seq<u8> {
    seq![
        (n & 0xff) as u8,
        ((n >> 8) & 0xff) as u8,
        ((n >> 16) & 0xff) as u8,
        ((n >> 24) & 0xff) as u8,
    ]
}

/// The bytes a coordinate id is derived from: the canonical state,
/// `|`, the RFC 3339 timestamp, and, when present, `|` and the
/// little-endian nonce.
pub open spec fn coord_input(state: SpecValue, ts: Seq<char>, nonce: Option<u32>) -> Seq<u8> {
    let base = canon_bytes(state) + seq![124u8] + vstd::utf8::encode_utf8(ts);
    match nonce {
        Some(n) => base + seq![124u8] + u32_le_bytes(n),
        None => base,
    }
}

/// The derived coordinate id: base32 of the first 16 digest bytes of
/// the input.
pub open spec fn coord_id_of(state: SpecValue, ts: Seq<char>, nonce: Option<u32>) -> Seq<
    char,
> {
    base32_of(sha3_of(coord_input(state, ts, nonce)).take(16))
}

/// The candidate id of one derivation attempt: the plain derivation
/// for attempt zero, then the nonce equal to the attempt number.
pub open spec fn attempt_id(state: SpecValue, ts: Seq<char>, n: u32) -> Seq<char> {
    if n == 0 {
        coord_id_of(state, ts, None)
    } else {
        coord_id_of(state, ts, Some(n))
    }
}

/// A well-formed coordinate id: 26 characters, each from the base32
/// alphabet.
pub open spec fn valid_coord(s: Seq<char>) -> bool {
    s.len() == 26 && forall|i: int| 0 <= i < s.len() ==> is_b32_char(#[trigger] s[i])
}

/// Distinct nonces feed distinct bytes to the digest: the two inputs
/// differ in their little-endian nonce suffix.
pub proof fn lemma_distinct_nonce_inputs(state: SpecValue, ts: Seq<char>, n1: u32, n2: u32)
    requires
        n1 != n2,
    ensures
        coord_input(state, ts, Some(n1)) != coord_input(state, ts, Some(n2)),
{
    let a = coord_input(state, ts, Some(n1));
    let b = coord_input(state, ts, Some(n2));
    if a == b {
        let base = canon_bytes(state) + seq![124u8] + vstd::utf8::encode_utf8(ts);
        let l = base.len() as int + 1;
        assert(a[l as int] == (n1 & 0xff) as u8);
        assert(b[l as int] == (n2 & 0xff) as u8);
        assert(a[l + 1] == ((n1 >> 8) & 0xff) as u8);
        assert(a[l + 2] == ((n1 >> 16) & 0xff) as u8);
        assert(a[l + 3] == ((n1 >> 24) & 0xff) as u8);
        assert(b[l + 1] == ((n2 >> 8) & 0xff) as u8);
        assert(b[l + 2] == ((n2 >> 16) & 0xff) as u8);
        assert(b[l + 3] == ((n2 >> 24) & 0xff) as u8);
        assert((n1 & 0xff) as u8 == (n2 & 0xff) as u8);
        assert(((n1 >> 8) & 0xff) as u8 == ((n2 >> 8) & 0xff) as u8);
        assert(((n1 >> 16) & 0xff) as u8 == ((n2 >> 16) & 0xff) as u8);
        assert(((n1 >> 24) & 0xff) as u8 == ((n2 >> 24) & 0xff) as u8);
        assert(((n1 & 0xff) as u8 == (n2 & 0xff) as u8 && ((n1 >> 8) & 0xff) as u8 == ((n2
            >> 8) & 0xff) as u8 && ((n1 >> 16) & 0xff) as u8 == ((n2 >> 16) & 0xff) as u8 && ((
        n1 >> 24) & 0xff) as u8 == ((n2 >> 24) & 0xff) as u8) ==> n1 == n2) by (bit_vector);
    }
}

/// Builds the digest input for a state, a timestamp, and an optional
/// nonce.
fn build_input(state: &Value, timestamp: &str, nonce: Option<u32>) -> (r: Result<
    Vec<u8>,
    BmsError,
>)
    ensures
        r is Ok,
        r matches Ok(b) ==> b@ == coord_input(state@, timestamp@, nonce),
{
    let mut input = match Canonicalizer::canonicalize(state) {
        Ok(b) => b,
        Err(e) => {
            return Err(e);
        },
    };
    input.push(124u8);
    let mut ts_bytes = timestamp.as_bytes_vec();
    input.append(&mut ts_bytes);
    match nonce {
        Some(n) => {
            input.push(124u8);
            input.push((n & 0xff) as u8);
            input.push(((n >> 8) & 0xff) as u8);
            input.push(((n >> 16) & 0xff) as u8);
            input.push(((n >> 24) & 0xff) as u8);
            proof {
                assert(input@ =~= coord_input(state@, timestamp@, nonce));
            }
        },
        None => {
            proof {
                assert(input@ =~= coord_input(state@, timestamp@, nonce));
            }
        },
    }
    Ok(input)
}

/// Derives a coordinate id from the digest input.
fn derive(state: &Value, timestamp: &str, nonce: Option<u32>) -> (r: Result<CoordId, BmsError>)
    ensures
        r is Ok,
        r matches Ok(c) ==> c@ == coord_id_of(state@, timestamp@, nonce) && valid_coord(c@),
{
    let input = match build_input(state, timestamp, nonce) {
        Ok(b) => b,
        Err(e) => {
            return Err(e);
        },
    };
    let digest = sha3_256(&input);
    let mut seed: Vec<u8> = Vec::new();
    let mut t: usize = 0;
    while t < 16
        invariant
            t <= 16,
            digest@.len() == 32,
            digest@ == sha3_of(coord_input(state@, timestamp@, nonce)),
            seed@ == digest@.take(t as int),
        decreases 16 - t,
    {
        let byte = digest[t];
        seed.push(byte);
        proof {
            assert(digest@.take(t + 1) =~= digest@.take(t as int).push(digest@[t as int]));
        }
        t = t + 1;
    }
    let encoded = base32_encode(&seed);
    proof {
        assert(seed@.len() == 16);
        assert((16 * 8 + 4) / 5 == 26);
    }
    Ok(CoordId(encoded))
}

/// Deterministic coordinate derivation: the same state, time and nonce
/// always give the same 26-character base32 id.
pub struct CoordinateGenerator;

impl CoordinateGenerator {
    /// The id for `state` at `timestamp` (no nonce).
    pub fn generate(state: &Value, timestamp: &str) -> (r: Result<CoordId, BmsError>)
        ensures
            r is Ok,
            r matches Ok(c) ==> c@ == coord_id_of(state@, timestamp@, None) && valid_coord(c@),
    {
        derive(state, timestamp, None)
    }

    /// The id for `state` at the current time.
    pub fn generate_now(state: &Value) -> (r: Result<CoordId, BmsError>)
        ensures
            r is Ok,
            r matches Ok(c) ==> valid_coord(c@) && exists|ts: Seq<char>|
                c@ == coord_id_of(state@, ts, None),
    {
        let now = now_rfc3339();
        let ghost ts = now@;
        let r = derive(state, now.as_str(), None);
        proof {
            match r {
                Ok(ref c) => {
                    assert(c@ == coord_id_of(state@, ts, None));
                },
                Err(_) => {},
            }
        }
        r
    }

    /// The id for `state` at `timestamp` with an explicit nonce, for
    /// collision retries.
    pub fn generate_with_nonce(state: &Value, timestamp: &str, nonce: u32) -> (r: Result<
        CoordId,
        BmsError,
    >)
        ensures
            r is Ok,
            r matches Ok(c) ==> c@ == coord_id_of(state@, timestamp@, Some(nonce))
                && valid_coord(c@),
    {
        derive(state, timestamp, Some(nonce))
    }

    /// Accepts exactly the well-formed coordinate ids: 26 characters,
    /// each in A-Z or 2-7.
    pub fn validate(coord_id: &str) -> (r: Result<(), BmsError>)
        ensures
            r is Ok <==> valid_coord(coord_id@),
            r matches Err(e) ==> e is InvalidCoordinate,
    {
        let len = coord_id.unicode_len();
        if len != 26 {
            return Err(BmsError::InvalidCoordinate(coord_id.to_owned()));
        }
        let mut i: usize = 0;
        while i < 26
            invariant
                i <= 26,
                coord_id@.len() == 26,
                forall|j: int| 0 <= j < i ==> is_b32_char(#[trigger] coord_id@[j]),
            decreases 26 - i,
        {
            let c = coord_id.get_char(i);
            let ok = (c >= 'A' && c <= 'Z') || (c >= '2' && c <= '7');
            if !ok {
                return Err(BmsError::InvalidCoordinate(coord_id.to_owned()));
            }
            i = i + 1;
        }
        Ok(())
    }
}

} // verus!
