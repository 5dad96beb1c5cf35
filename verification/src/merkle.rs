//! Merkle-proof verification against a committed 32-byte root.
//!
//! A leaf is hashed with SHA-256; each proof element is a hex-encoded
//! 32-byte sibling hash. At every hop the two hashes are ordered as raw byte
//! strings, concatenated low-then-high, and hashed again. The proof holds
//! exactly when the final hash equals the decoded root.

use vstd::prelude::*;
use sha2::Digest;
use crate::error::ContractError;
use crate::keys::lex_le;

verus! {

/// The SHA-256 digest of a byte string; it depends on the bytes alone.
pub uninterp spec fn sha256_of(data: Seq<u8>) -> Seq<u8>;

/// Relies on sha2::Sha256::digest: the digest is a function of the input
/// bytes alone and is always exactly 32 bytes long.
#[verifier::external_body]
fn sha256(data: &[u8]) -> (r: Vec<u8>)
    ensures
        r@ == sha256_of(data@),
        r@.len() == 32,
{
    sha2::Sha256::digest(data).to_vec()
}

/// One hex digit, upper or lower case.
pub open spec fn is_hex_digit(c: char) -> bool {
    ('0' as u32 <= c as u32 && c as u32 <= '9' as u32) || ('a' as u32 <= c as u32 && c as u32
        <= 'f' as u32) || ('A' as u32 <= c as u32 && c as u32 <= 'F' as u32)
}

/// The value of one hex digit.
pub open spec fn hex_digit_val(c: char) -> u8
    recommends
        is_hex_digit(c),
{
    let v = c as u32;
    if 'a' as u32 <= v && v <= 'f' as u32 {
        (v - 'a' as u32 + 10) as u8
    } else if 'A' as u32 <= v && v <= 'F' as u32 {
        (v - 'A' as u32 + 10) as u8
    } else {
        (v - '0' as u32) as u8
    }
}

/// A string that hex-decodes without error: hex digits only, two per byte.
pub open spec fn is_hex_seq(s: Seq<char>) -> bool {
    s.len() % 2 == 0 && forall|i: int| 0 <= i < s.len() ==> is_hex_digit(#[trigger] s[i])
}

/// The bytes that a hex string decodes to.
pub open spec fn hex_decode_seq(s: Seq<char>) -> Seq<u8>
    recommends
        is_hex_seq(s),
    decreases s.len(),
{
    if s.len() < 2 {
        seq![]
    } else {
        seq![(hex_digit_val(s[0]) * 16 + hex_digit_val(s[1])) as u8] + hex_decode_seq(s.skip(2))
    }
}

/// Relies on hex::decode: it succeeds exactly on even-length strings of hex
/// digits and then returns one byte per digit pair, high digit first.
#[verifier::external_body]
fn hex_decode(s: &str) -> (r: Option<Vec<u8>>)
    ensures
        r is Some <==> is_hex_seq(s@),
        r is Some ==> r->0@ == hex_decode_seq(s@),
{
    match hex::decode(s) {
        Ok(v) => Some(v),
        Err(_) => None,
    }
}

/// Why a string fails to name a 32-byte hash, if it does.
pub open spec fn hash_decode_error(s: Seq<char>) -> Option<ContractError> {
    if !is_hex_seq(s) {
        Some(ContractError::DecodeError)
    } else if hex_decode_seq(s).len() != 32 {
        Some(ContractError::WrongLength)
    } else {
        None
    }
}

/// Decodes a hex string that must name exactly 32 bytes.
pub(crate) fn decode_hash(s: &str) -> (r: Result<Vec<u8>, ContractError>)
    ensures
        match r {
            Ok(v) => hash_decode_error(s@) is None && v@ == hex_decode_seq(s@) && v@.len() == 32,
            Err(e) => hash_decode_error(s@) == Some(e),
        },
{
    match hex_decode(s) {
        None => Err(ContractError::DecodeError),
        Some(v) => if v.len() != 32 {
            Err(ContractError::WrongLength)
        } else {
            Ok(v)
        },
    }
}

/// The hash of one Merkle hop: the two hashes ordered as raw byte strings,
/// concatenated low-then-high, then hashed.
pub open spec fn hash_pair(a: Seq<u8>, b: Seq<u8>) -> Seq<u8> {
    if lex_le(a, b) {
        sha256_of(a + b)
    } else {
        sha256_of(b + a)
    }
}

/// Folds a starting hash through a path of sibling hashes.
pub open spec fn merkle_fold(h: Seq<u8>, path: Seq<Seq<u8>>) -> Seq<u8>
    decreases path.len(),
{
    if path.len() == 0 {
        h
    } else {
        merkle_fold(hash_pair(h, path.first()), path.drop_first())
    }
}

/// The decoded bytes of each proof element.
pub open spec fn decoded_path(proofs: Seq<Seq<char>>) -> Seq<Seq<u8>> {
    Seq::new(proofs.len(), |i: int| hex_decode_seq(proofs[i]))
}

/// The first decoding failure among the proof elements, if any.
pub open spec fn path_decode_error(proofs: Seq<Seq<char>>) -> Option<ContractError>
    decreases proofs.len(),
{
    if proofs.len() == 0 {
        None
    } else if hash_decode_error(proofs.first()) is Some {
        hash_decode_error(proofs.first())
    } else {
        path_decode_error(proofs.drop_first())
    }
}

/// The error `verify_proof` reports: proof elements are inspected in order,
/// then the root.
pub open spec fn verify_decode_error(root: Seq<char>, proofs: Seq<Seq<char>>) -> Option<
    ContractError,
> {
    if path_decode_error(proofs) is Some {
        path_decode_error(proofs)
    } else {
        hash_decode_error(root)
    }
}

/// Whether a proof path takes `leaf` to the root named by `root`; this is
/// what `verify_proof` decides once everything decodes.
pub open spec fn proof_matches_root(root: Seq<char>, leaf: Seq<u8>, proofs: Seq<Seq<char>>) -> bool {
    merkle_fold(sha256_of(leaf), decoded_path(proofs)) == hex_decode_seq(root)
}

/// Dropping a clean prefix of the path does not change its first failure.
proof fn lemma_path_decode_error_skip(proofs: Seq<Seq<char>>, i: int)
    requires
        0 <= i <= proofs.len(),
        forall|j: int| 0 <= j < i ==> hash_decode_error(#[trigger] proofs[j]) is None,
    ensures
        path_decode_error(proofs) == path_decode_error(proofs.skip(i)),
    decreases i,
{
    if i > 0 {
        assert(proofs.first() == proofs[0]);
        lemma_path_decode_error_skip(proofs.drop_first(), i - 1);
        assert(proofs.drop_first().skip(i - 1) =~= proofs.skip(i));
    } else {
        assert(proofs.skip(0) =~= proofs);
    }
}

/// Concatenation of two byte vectors.
fn concat_bytes(a: &Vec<u8>, b: &Vec<u8>) -> (r: Vec<u8>)
    ensures
        r@ == a@ + b@,
{
    let mut r: Vec<u8> = Vec::new();
    let mut i: usize = 0;
    while i < a.len()
        invariant
            0 <= i <= a@.len(),
            r@ == a@.take(i as int),
        decreases a@.len() - i,
    {
        r.push(a[i]);
        proof {
            assert(a@.take(i + 1) =~= a@.take(i as int).push(a@[i as int]));
        }
        i = i + 1;
    }
    let mut j: usize = 0;
    while j < b.len()
        invariant
            0 <= j <= b@.len(),
            r@ == a@ + b@.take(j as int),
        decreases b@.len() - j,
    {
        r.push(b[j]);
        proof {
            assert(b@.take(j + 1) =~= b@.take(j as int).push(b@[j as int]));
            assert((a@ + b@.take(j as int)).push(b@[j as int]) =~= a@ + b@.take(j + 1));
        }
        j = j + 1;
    }
    proof {
        assert(a@.take(a@.len() as int) =~= a@);
        assert(b@.take(b@.len() as int) =~= b@);
    }
    r
}

/// One Merkle hop in executable form.
fn fold_step(h: &Vec<u8>, p: &Vec<u8>) -> (r: Vec<u8>)
    ensures
        r@ == hash_pair(h@, p@),
        r@.len() == 32,
{
    let low_first = match crate::keys::compare_bytes(h.as_slice(), p.as_slice()) {
        crate::keys::KeyOrder::Greater => false,
        _ => true,
    };
    let cat = if low_first {
        concat_bytes(h, p)
    } else {
        concat_bytes(p, h)
    };
    sha256(cat.as_slice())
}

/// Checks a Merkle proof. The leaf is hashed, folded through the decoded
/// proof path, and compared byte-for-byte against the decoded root. Fails
/// exactly when the root or some proof element is not a hex-encoded 32-byte
/// value, reporting the first such flaw; a decoding failure is never
/// reported as a verification failure.
pub fn verify_proof(root_hex: &str, leaf: &Vec<u8>, proofs: &Vec<String>) -> (r: Result<
    bool,
    ContractError,
>)
    ensures
        match r {
            Ok(b) => verify_decode_error(root_hex@, proofs.deep_view()) is None && b
                == proof_matches_root(root_hex@, leaf@, proofs.deep_view()),
            Err(e) => verify_decode_error(root_hex@, proofs.deep_view()) == Some(e),
        },
{
    let ghost ps = proofs.deep_view();
    let mut hash = sha256(leaf.as_slice());
    let mut i: usize = 0;
    proof {
        assert(ps.take(0) =~= Seq::<Seq<char>>::empty());
        assert(decoded_path(ps.take(0)) =~= Seq::<Seq<u8>>::empty());
    }
    while i < proofs.len()
        invariant
            0 <= i <= ps.len(),
            ps == proofs.deep_view(),
            ps.len() == proofs@.len(),
            forall|j: int| 0 <= j < ps.len() ==> ps[j] == #[trigger] proofs@[j]@,
            forall|j: int| 0 <= j < i ==> hash_decode_error(#[trigger] ps[j]) is None,
            hash@ == merkle_fold(sha256_of(leaf@), decoded_path(ps.take(i as int))),
            hash@.len() == 32,
        decreases ps.len() - i,
    {
        let p = match decode_hash(proofs[i].as_str()) {
            Ok(p) => p,
            Err(e) => {
                proof {
                    lemma_path_decode_error_skip(ps, i as int);
                    assert(ps.skip(i as int).first() == ps[i as int]);
                }
                return Err(e);
            },
        };
        let folded = fold_step(&hash, &p);
        hash = folded;
        proof {
            let k = i as int;
            lemma_merkle_fold_snoc(sha256_of(leaf@), decoded_path(ps.take(k)), p@);
            assert(decoded_path(ps.take(k)).push(p@) =~= decoded_path(ps.take(k + 1)));
        }
        i = i + 1;
    }
    proof {
        lemma_path_decode_error_skip(ps, ps.len() as int);
        assert(ps.skip(ps.len() as int) =~= Seq::<Seq<char>>::empty());
        assert(ps.take(ps.len() as int) =~= ps);
    }
    let root = match decode_hash(root_hex) {
        Ok(root) => root,
        Err(e) => {
            return Err(e);
        },
    };
    Ok(crate::keys::compare_bytes(hash.as_slice(), root.as_slice())
        == crate::keys::KeyOrder::Equal)
}

/// The pair hash does not depend on the order its two hashes are handed
/// in: they are sorted before concatenation.
pub proof fn lemma_hash_pair_comm(a: Seq<u8>, b: Seq<u8>)
    ensures
        hash_pair(a, b) == hash_pair(b, a),
{
    crate::keys::lemma_lex_trichotomy(a, b);
}

/// A Merkle tree over byte-string leaves, as the proof-producing side
/// builds it: leaves are hashed, siblings are combined with `hash_pair`.
pub enum MerkleTree {
    Leaf(Seq<u8>),
    Node(Box<MerkleTree>, Box<MerkleTree>),
}

/// The root hash the tree commits to.
pub open spec fn root_of(t: MerkleTree) -> Seq<u8>
    decreases t,
{
    match t {
        MerkleTree::Leaf(d) => sha256_of(d),
        MerkleTree::Node(l, r) => hash_pair(root_of(*l), root_of(*r)),
    }
}

/// Whether `path`, read leaf-to-root, is the sibling path of an occurrence
/// of `leaf` in the tree.
pub open spec fn has_leaf_with_path(t: MerkleTree, leaf: Seq<u8>, path: Seq<Seq<u8>>) -> bool
    decreases t,
{
    match t {
        MerkleTree::Leaf(d) => path.len() == 0 && d == leaf,
        MerkleTree::Node(l, r) => path.len() > 0 && ((has_leaf_with_path(
            *l,
            leaf,
            path.drop_last(),
        ) && path.last() == root_of(*r)) || (has_leaf_with_path(*r, leaf, path.drop_last())
            && path.last() == root_of(*l))),
    }
}

/// Round trip: the sibling path read off a Merkle tree folds its leaf back
/// to exactly the tree's root, so `verify_proof` accepts every proof the
/// tree side derives.
pub proof fn lemma_tree_round_trip(t: MerkleTree, leaf: Seq<u8>, path: Seq<Seq<u8>>)
    requires
        has_leaf_with_path(t, leaf, path),
    ensures
        merkle_fold(sha256_of(leaf), path) == root_of(t),
    decreases t,
{
    match t {
        MerkleTree::Leaf(d) => {
            assert(merkle_fold(sha256_of(leaf), path) == sha256_of(d));
        },
        MerkleTree::Node(l, r) => {
            if has_leaf_with_path(*l, leaf, path.drop_last()) && path.last() == root_of(*r) {
                lemma_tree_round_trip(*l, leaf, path.drop_last());
            } else {
                lemma_tree_round_trip(*r, leaf, path.drop_last());
                lemma_hash_pair_comm(root_of(*r), root_of(*l));
            }
            lemma_merkle_fold_snoc(sha256_of(leaf), path.drop_last(), path.last());
            assert(path.drop_last().push(path.last()) =~= path);
        },
    }
}

/// Folding one more hop hashes the accumulated value with that hop.
proof fn lemma_merkle_fold_snoc(h: Seq<u8>, path: Seq<Seq<u8>>, p: Seq<u8>)
    ensures
        merkle_fold(h, path.push(p)) == hash_pair(merkle_fold(h, path), p),
    decreases path.len(),
{
    if path.len() == 0 {
        assert(path.push(p).first() == p);
        assert(path.push(p).drop_first() =~= Seq::<Seq<u8>>::empty());
        assert(merkle_fold(hash_pair(h, p), Seq::<Seq<u8>>::empty()) == hash_pair(h, p));
        assert(merkle_fold(h, path) == h);
        assert(merkle_fold(h, path.push(p)) == merkle_fold(
            hash_pair(h, p),
            path.push(p).drop_first(),
        ));
    } else {
        assert(path.push(p).first() == path.first());
        assert(path.push(p).drop_first() =~= path.drop_first().push(p));
        lemma_merkle_fold_snoc(hash_pair(h, path.first()), path.drop_first(), p);
        assert(merkle_fold(h, path.push(p)) == merkle_fold(
            hash_pair(h, path.first()),
            path.drop_first().push(p),
        ));
        assert(merkle_fold(h, path) == merkle_fold(hash_pair(h, path.first()), path.drop_first()));
    }
}

} // verus!
