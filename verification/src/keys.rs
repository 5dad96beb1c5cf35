//! Ordering of store keys.
//!
//! Every ordered collection in this crate ranges over byte-string keys
//! (identities, service names as their UTF-8 bytes) in strict lexicographic
//! order of unsigned bytes.

use vstd::prelude::*;
use vstd::utf8::encode_utf8;
use vstd::utf8::encode_utf8_decode_utf8;
use vstd::string::StringSliceAdditionalSpecFns;

verus! {

/// Strict lexicographic order on byte strings: a proper prefix comes first,
/// otherwise the first differing byte decides.
pub open spec fn lex_lt(a: Seq<u8>, b: Seq<u8>) -> bool
    decreases a.len(),
{
    if b.len() == 0 {
        false
    } else if a.len() == 0 {
        true
    } else if a[0] < b[0] {
        true
    } else if a[0] > b[0] {
        false
    } else {
        lex_lt(a.drop_first(), b.drop_first())
    }
}

pub open spec fn lex_le(a: Seq<u8>, b: Seq<u8>) -> bool {
    lex_lt(a, b) || a == b
}

/// The byte string under which a textual key is stored.
pub open spec fn key_bytes(s: Seq<char>) -> Seq<u8> {
    encode_utf8(s)
}

/// `lex_lt` is a strict total order: any two byte strings are related in
/// exactly one of the three ways.
pub proof fn lemma_lex_trichotomy(a: Seq<u8>, b: Seq<u8>)
    ensures
        lex_lt(a, b) || lex_lt(b, a) || a == b,
        lex_lt(a, b) ==> !lex_lt(b, a) && a != b,
        lex_lt(b, a) ==> !lex_lt(a, b) && b != a,
    decreases a.len(),
{
    if a.len() == 0 && b.len() == 0 {
        assert(a =~= b);
    } else if a.len() != 0 && b.len() != 0 && a[0] == b[0] {
        lemma_lex_trichotomy(a.drop_first(), b.drop_first());
        if a.drop_first() == b.drop_first() {
            assert forall|i: int| 0 <= i < a.len() implies a[i] == b[i] by {
                if i >= 1 {
                    assert(a[i] == a.drop_first()[i - 1]);
                    assert(b[i] == b.drop_first()[i - 1]);
                }
            }
            assert(a =~= b);
        }
        if a == b {
            assert(a.drop_first() == b.drop_first());
        }
    } else {
        if a == b {
            assert(a.len() == b.len());
            if a.len() != 0 {
                assert(a[0] == b[0]);
            }
        }
    }
}

/// `lex_lt` is transitive.
pub proof fn lemma_lex_transitive(a: Seq<u8>, b: Seq<u8>, c: Seq<u8>)
    requires
        lex_lt(a, b),
        lex_lt(b, c),
    ensures
        lex_lt(a, c),
    decreases a.len(),
{
    if a.len() == 0 {
    } else {
        assert(b.len() != 0 && c.len() != 0);
        if a[0] == b[0] && b[0] == c[0] {
            lemma_lex_transitive(a.drop_first(), b.drop_first(), c.drop_first());
        }
    }
}

/// How the two sequences relate once they agree on their first `i` elements.
proof fn lemma_lex_from_prefix(a: Seq<u8>, b: Seq<u8>, i: int)
    requires
        0 <= i <= a.len(),
        i <= b.len(),
        a.take(i) == b.take(i),
    ensures
        i < a.len() && i < b.len() && a[i] < b[i] ==> lex_lt(a, b),
        i < a.len() && i < b.len() && a[i] > b[i] ==> lex_lt(b, a),
        i == a.len() && i < b.len() ==> lex_lt(a, b),
        i == b.len() && i < a.len() ==> lex_lt(b, a),
        i == a.len() && i == b.len() ==> a == b,
    decreases i,
{
    if i == 0 {
        if a.len() == 0 && b.len() == 0 {
            assert(a =~= b);
        }
    } else {
        assert(a.take(i)[0] == a[0]);
        assert(b.take(i)[0] == b[0]);
        assert(a[0] == b[0]);
        let a1 = a.drop_first();
        let b1 = b.drop_first();
        assert(a1.take(i - 1) =~= a.take(i).drop_first());
        assert(b1.take(i - 1) =~= b.take(i).drop_first());
        lemma_lex_from_prefix(a1, b1, i - 1);
        if i < a.len() && i < b.len() {
            assert(a1[i - 1] == a[i] && b1[i - 1] == b[i]);
        }
        if i == a.len() && i == b.len() && a1 == b1 {
            assert forall|j: int| 0 <= j < a.len() implies a[j] == b[j] by {
                if j >= 1 {
                    assert(a[j] == a.drop_first()[j - 1]);
                    assert(b[j] == b.drop_first()[j - 1]);
                }
            }
            assert(a =~= b);
        }
    }
}

/// Outcome of comparing two keys.
#[derive(Clone, Copy, Debug, PartialEq, Eq, Structural)]
pub enum KeyOrder {
    Less,
    Equal,
    Greater,
}

/// Compares two byte strings in lexicographic order.
pub fn compare_bytes(a: &[u8], b: &[u8]) -> (r: KeyOrder)
    ensures
        r == KeyOrder::Less <==> lex_lt(a@, b@),
        r == KeyOrder::Equal <==> a@ == b@,
        r == KeyOrder::Greater <==> lex_lt(b@, a@),
{
    proof {
        lemma_lex_trichotomy(a@, b@);
    }
    let a_len: usize = a.len();
    let b_len: usize = b.len();
    let common: usize = if a_len < b_len {
        a_len
    } else {
        b_len
    };
    let mut i: usize = 0;
    while i < common
        invariant
            0 <= i <= common,
            common <= a_len && common <= b_len,
            a_len == a@.len() && b_len == b@.len(),
            a@.take(i as int) == b@.take(i as int),
        decreases common - i,
    {
        let x = a[i];
        let y = b[i];
        if x < y {
            proof {
                lemma_lex_from_prefix(a@, b@, i as int);
                lemma_lex_trichotomy(a@, b@);
            }
            return KeyOrder::Less;
        }
        if x > y {
            proof {
                lemma_lex_from_prefix(a@, b@, i as int);
                lemma_lex_trichotomy(a@, b@);
            }
            return KeyOrder::Greater;
        }
        proof {
            assert(a@.take(i + 1) =~= a@.take(i as int).push(a@[i as int]));
            assert(b@.take(i + 1) =~= b@.take(i as int).push(b@[i as int]));
        }
        i = i + 1;
    }
    proof {
        lemma_lex_from_prefix(a@, b@, common as int);
    }
    if a_len < b_len {
        KeyOrder::Less
    } else if a_len > b_len {
        KeyOrder::Greater
    } else {
        KeyOrder::Equal
    }
}

/// Compares two textual keys by the bytes they are stored under. Equality of
/// the byte strings coincides with equality of the texts.
pub fn compare_keys(a: &str, b: &str) -> (r: KeyOrder)
    ensures
        r == KeyOrder::Less <==> lex_lt(key_bytes(a@), key_bytes(b@)),
        r == KeyOrder::Equal <==> a@ == b@,
        r == KeyOrder::Greater <==> lex_lt(key_bytes(b@), key_bytes(a@)),
{
    let r = compare_bytes(a.as_bytes(), b.as_bytes());
    proof {
        if key_bytes(a@) == key_bytes(b@) {
            encode_utf8_decode_utf8(a@);
            encode_utf8_decode_utf8(b@);
        }
    }
    r
}

} // verus!
