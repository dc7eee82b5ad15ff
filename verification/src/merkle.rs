use vstd::prelude::*;

use crate::crypto::{hex_encode, hex_of, lemma_hex_of_len, sha3_256, sha3_of};
use crate::error::BmsError;
use crate::types::{Delta, SpecDelta};

verus! {

/// The chain hash binding a parent to a delta: the digest of the two
/// hex digest strings, concatenated as UTF-8 bytes.
pub open spec fn chain_hash_of(parent_hash: Seq<char>, delta_hash: Seq<char>) -> Seq<char> {
    hex_of(
        sha3_of(vstd::utf8::encode_utf8(parent_hash) + vstd::utf8::encode_utf8(delta_hash)),
    )
}

/// A delta's link is sound: the first delta of a chain (no parent id)
/// passes as is; any other must carry a parent hash and a chain hash
/// rederivable from it.
pub open spec fn delta_link_ok(d: SpecDelta) -> bool {
    match d.parent_id {
        None => true,
        Some(_) => match d.parent_hash {
            Some(ph) => d.chain_hash == chain_hash_of(ph, d.delta_hash),
            None => false,
        },
    }
}

/// The error a failing link produces: a missing parent hash names the
/// delta; a rederivable mismatch carries the expected and recorded
/// chain hashes.
pub open spec fn link_error_for(e: BmsError, d: SpecDelta) -> bool {
    match d.parent_hash {
        None => e matches BmsError::MerkleChainBroken { delta_id } && delta_id@ == d.id,
        Some(ph) => e matches BmsError::HashMismatch { expected, actual } && expected@
            == chain_hash_of(ph, d.delta_hash) && actual@ == d.chain_hash,
    }
}

pub open spec fn view_deltas(s: Seq<Delta>) -> Seq<SpecDelta> {
    Seq::new(s.len(), |i: int| s[i]@)
}

/// Every link of the chain is sound.
pub open spec fn chain_ok(ds: Seq<SpecDelta>) -> bool {
    forall|i: int| 0 <= i < ds.len() ==> delta_link_ok(#[trigger] ds[i])
}

/// The index of the first unsound link, or the length if none.
pub open spec fn first_break(ds: Seq<SpecDelta>) -> int
    decreases ds.len(),
{
    if ds.len() == 0 {
        0
    } else if !delta_link_ok(ds[0]) {
        0
    } else {
        1 + first_break(ds.drop_first())
    }
}

pub proof fn lemma_first_break(ds: Seq<SpecDelta>)
    ensures
        0 <= first_break(ds) <= ds.len(),
        forall|i: int| 0 <= i < first_break(ds) ==> delta_link_ok(#[trigger] ds[i]),
        first_break(ds) < ds.len() ==> !delta_link_ok(ds[first_break(ds)]),
        (first_break(ds) == ds.len()) == chain_ok(ds),
    decreases ds.len(),
{
    if ds.len() > 0 && delta_link_ok(ds[0]) {
        lemma_first_break(ds.drop_first());
        let p = first_break(ds);
        assert forall|i: int| 0 <= i < p implies delta_link_ok(#[trigger] ds[i]) by {
            if i > 0 {
                assert(delta_link_ok(ds.drop_first()[i - 1]));
            }
        }
        if p == ds.len() {
            assert forall|i: int| 0 <= i < ds.len() implies delta_link_ok(
                #[trigger] ds[i],
            ) by {
                if i > 0 {
                    assert(delta_link_ok(ds.drop_first()[i - 1]));
                }
            }
        }
    } else if ds.len() > 0 {
        assert(!chain_ok(ds)) by {
            assert(!delta_link_ok(ds[0]));
        }
    }
}

/// An unsound link anywhere puts the first break at or before it.
pub proof fn lemma_tamper_detected(ds: Seq<SpecDelta>, i: int)
    requires
        0 <= i < ds.len(),
        !delta_link_ok(ds[i]),
    ensures
        first_break(ds) <= i,
        !chain_ok(ds),
{
    lemma_first_break(ds);
    if first_break(ds) > i {
        assert(delta_link_ok(ds[i]));
    }
}

/// Rewriting a linked delta's chain hash to any other value breaks its
/// link.
pub proof fn lemma_chain_hash_mutation_breaks_link(d1: SpecDelta, d2: SpecDelta)
    requires
        delta_link_ok(d1),
        d1.parent_id is Some,
        d2.parent_id == d1.parent_id,
        d2.parent_hash == d1.parent_hash,
        d2.delta_hash == d1.delta_hash,
        d2.chain_hash != d1.chain_hash,
    ensures
        !delta_link_ok(d2),
{
}

/// Builds and checks the tamper-evident chain between deltas.
pub struct MerkleChain;

impl MerkleChain {
    /// The chain hash of a parent digest and a delta digest.
    pub fn compute_chain_hash(parent_hash: &crate::types::Hash, delta_hash: &crate::types::Hash) -> (r:
        crate::types::Hash)
        ensures
            r@ == chain_hash_of(parent_hash@, delta_hash@),
            r@.len() == 64,
    {
        let mut input = parent_hash.0.as_str().as_bytes_vec();
        let mut tail = delta_hash.0.as_str().as_bytes_vec();
        input.append(&mut tail);
        let digest = sha3_256(&input);
        proof {
            lemma_hex_of_len(digest@);
        }
        crate::types::Hash(hex_encode(&digest))
    }

    /// Checks one delta's link, per `delta_link_ok`.
    pub fn verify_delta(delta: &Delta) -> (r: Result<(), BmsError>)
        ensures
            r is Ok <==> delta_link_ok(delta@),
            r matches Err(e) ==> (e matches BmsError::MerkleChainBroken { delta_id } ==> (
            delta_id@ == delta@.id && delta@.parent_id is Some && delta@.parent_hash is None)),
            r matches Err(e) ==> (e matches BmsError::HashMismatch { expected, actual } ==> (
            delta@.parent_hash matches Some(ph) && expected@ == chain_hash_of(
                ph,
                delta@.delta_hash,
            ) && actual@ == delta@.chain_hash)),
            r matches Err(e) ==> (e is MerkleChainBroken || e is HashMismatch),
            r matches Err(e) ==> link_error_for(e, delta@),
    {
        if delta.parent_id.is_none() {
            return Ok(());
        }
        let parent_hash = match &delta.parent_hash {
            Some(ph) => ph,
            None => {
                return Err(BmsError::MerkleChainBroken { delta_id: delta.id.0.clone() });
            },
        };
        let expected = Self::compute_chain_hash(parent_hash, &delta.delta_hash);
        if expected.0.eq(&delta.chain_hash.0) {
            Ok(())
        } else {
            Err(BmsError::HashMismatch { expected: expected.0, actual: delta.chain_hash.0.clone() })
        }
    }

    /// Checks every link, stopping at the first failure.
    #[verifier::loop_isolation(false)]
    pub fn verify_chain(deltas: &Vec<Delta>) -> (r: Result<(), BmsError>)
        ensures
            r is Ok <==> chain_ok(view_deltas(deltas@)),
            r is Err ==> !delta_link_ok(view_deltas(deltas@)[first_break(
                view_deltas(deltas@),
            )]),
            r matches Err(e) ==> link_error_for(
                e,
                view_deltas(deltas@)[first_break(view_deltas(deltas@))],
            ),
    {
        let ghost ds = view_deltas(deltas@);
        proof {
            lemma_first_break(ds);
        }
        let mut i: usize = 0;
        while i < deltas.len()
            invariant
                i <= ds.len(),
                forall|j: int| 0 <= j < i ==> delta_link_ok(#[trigger] ds[j]),
            decreases ds.len() - i,
        {
            match Self::verify_delta(&deltas[i]) {
                Ok(_) => {},
                Err(e) => {
                    proof {
                        lemma_tamper_detected(ds, i as int);
                        assert(first_break(ds) == i);
                    }
                    return Err(e);
                },
            }
            i = i + 1;
        }
        Ok(())
    }

    /// The index of the first broken delta, or `None` when the chain is
    /// sound.
    #[verifier::loop_isolation(false)]
    pub fn find_break_point(deltas: &Vec<Delta>) -> (r: Option<usize>)
        ensures
            r matches Some(i) ==> i == first_break(view_deltas(deltas@)) && !chain_ok(
                view_deltas(deltas@),
            ),
            r is None <==> chain_ok(view_deltas(deltas@)),
    {
        let ghost ds = view_deltas(deltas@);
        proof {
            lemma_first_break(ds);
        }
        let mut i: usize = 0;
        while i < deltas.len()
            invariant
                i <= ds.len(),
                forall|j: int| 0 <= j < i ==> delta_link_ok(#[trigger] ds[j]),
            decreases ds.len() - i,
        {
            match Self::verify_delta(&deltas[i]) {
                Ok(_) => {},
                Err(_) => {
                    proof {
                        lemma_tamper_detected(ds, i as int);
                        assert(first_break(ds) == i);
                    }
                    return Some(i);
                },
            }
            i = i + 1;
        }
        None
    }

    /// How far the chain verifies: the count of sound leading links,
    /// and the first failure if any.
    pub fn verify_chain_integrity(deltas: &Vec<Delta>) -> (r: (usize, Option<BmsError>))
        ensures
            r.0 == first_break(view_deltas(deltas@)),
            r.1 is None <==> chain_ok(view_deltas(deltas@)),
            r.1 matches Some(e) ==> link_error_for(
                e,
                view_deltas(deltas@)[first_break(view_deltas(deltas@))],
            ),
    {
        let ghost ds = view_deltas(deltas@);
        proof {
            lemma_first_break(ds);
        }
        match Self::find_break_point(deltas) {
            Some(i) => {
                let e = match Self::verify_delta(&deltas[i]) {
                    Ok(_) => {
                        proof {
                            assert(delta_link_ok(ds[i as int]));
                        }
                        BmsError::Other(String::new())
                    },
                    Err(e) => e,
                };
                (i, Some(e))
            },
            None => (deltas.len(), None),
        }
    }
}

} // verus!
