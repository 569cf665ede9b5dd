//! The order of feed identities.
//!
//! Identities are ordered as strings are: lexicographically by the bytes of
//! their UTF-8 encoding, which is also the order of their code points.

use vstd::prelude::*;
use vstd::utf8::{decode_utf8, encode_utf8, encode_utf8_decode_utf8};

verus! {

/// `a` and `b` agree on their first `k` bytes.
pub open spec fn agree_before(a: Seq<u8>, b: Seq<u8>, k: int) -> bool {
    &&& 0 <= k <= a.len()
    &&& k <= b.len()
    &&& forall|i: int| 0 <= i < k ==> a[i] == b[i]
}

/// `a` comes before `b` because of what stands at index `k`: up to there the
/// two agree, and there `a` ends while `b` goes on, or `a` has the smaller byte.
pub open spec fn less_at(a: Seq<u8>, b: Seq<u8>, k: int) -> bool {
    &&& agree_before(a, b, k)
    &&& k < b.len()
    &&& k == a.len() || a[k] < b[k]
}

/// `a` comes strictly before `b` in the lexicographic order of byte strings.
pub open spec fn bytes_less(a: Seq<u8>, b: Seq<u8>) -> bool {
    exists|k: int| less_at(a, b, k)
}

/// The identity `a` comes strictly before the identity `b`.
pub open spec fn identity_less(a: Seq<char>, b: Seq<char>) -> bool {
    bytes_less(encode_utf8(a), encode_utf8(b))
}

/// No byte string comes before itself.
pub proof fn lemma_bytes_less_irreflexive(a: Seq<u8>)
    ensures
        !bytes_less(a, a),
{
}

/// The order of byte strings is transitive.
pub proof fn lemma_bytes_less_transitive(a: Seq<u8>, b: Seq<u8>, c: Seq<u8>)
    requires
        bytes_less(a, b),
        bytes_less(b, c),
    ensures
        bytes_less(a, c),
{
    let k1 = choose|k: int| less_at(a, b, k);
    let k2 = choose|k: int| less_at(b, c, k);
    let k = if k1 <= k2 { k1 } else { k2 };
    assert(less_at(a, c, k));
}

/// Of two different byte strings, one comes before the other.
pub proof fn lemma_bytes_less_total(a: Seq<u8>, b: Seq<u8>)
    ensures
        a == b || bytes_less(a, b) || bytes_less(b, a),
    decreases a.len(),
{
    if a.len() == 0 {
        if b.len() == 0 {
            assert(a =~= b);
        } else {
            assert(less_at(a, b, 0));
        }
    } else if b.len() == 0 {
        assert(less_at(b, a, 0));
    } else {
        let p = a.drop_last();
        lemma_bytes_less_total(p, b);
        if p == b {
            assert(less_at(b, a, b.len() as int));
        } else if bytes_less(p, b) {
            let k = choose|k: int| less_at(p, b, k);
            if k < p.len() {
                assert(less_at(a, b, k));
            } else if a.last() < b[k] {
                assert(less_at(a, b, k));
            } else if a.last() > b[k] {
                assert(less_at(b, a, k));
            } else if k + 1 < b.len() {
                assert(less_at(a, b, k + 1));
            } else {
                assert(a =~= b);
            }
        } else {
            let k = choose|k: int| less_at(b, p, k);
            assert(less_at(b, a, k));
        }
    }
}

/// No identity comes before itself.
pub proof fn lemma_identity_less_irreflexive(a: Seq<char>)
    ensures
        !identity_less(a, a),
{
}

/// The order of identities is transitive.
pub proof fn lemma_identity_less_transitive(a: Seq<char>, b: Seq<char>, c: Seq<char>)
    requires
        identity_less(a, b),
        identity_less(b, c),
    ensures
        identity_less(a, c),
{
    lemma_bytes_less_transitive(encode_utf8(a), encode_utf8(b), encode_utf8(c));
}

/// Of two different identities, one comes before the other.
pub proof fn lemma_identity_less_total(a: Seq<char>, b: Seq<char>)
    ensures
        a == b || identity_less(a, b) || identity_less(b, a),
{
    lemma_bytes_less_total(encode_utf8(a), encode_utf8(b));
    encode_utf8_decode_utf8(a);
    encode_utf8_decode_utf8(b);
    assert(encode_utf8(a) == encode_utf8(b) ==> decode_utf8(encode_utf8(a)) == decode_utf8(
        encode_utf8(b),
    ));
}

/// Decides whether the identity `a` comes strictly before the identity `b`.
pub fn identity_precedes(a: &String, b: &String) -> (r: bool)
    ensures
        r == identity_less(a@, b@),
{
    let x = a.as_str().as_bytes();
    let y = b.as_str().as_bytes();
    let mut k: usize = 0;
    while k < x.len() && k < y.len() && x[k] == y[k]
        invariant
            agree_before(x@, y@, k as int),
        decreases x.len() - k,
    {
        k += 1;
    }
    let r = k < y.len() && (k == x.len() || x[k] < y[k]);
    proof {
        if r {
            assert(less_at(x@, y@, k as int));
        } else if bytes_less(x@, y@) {
            let j = choose|j: int| less_at(x@, y@, j);
            assert(false);
        }
    }
    r
}

} // verus!
