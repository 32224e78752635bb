//! Lexicographic byte order on field names, and a verified sort of
//! field/value snapshots by it: the sorted result is a permutation of the
//! input, which is what makes HGETALL's sorted mode deterministic.
use vstd::prelude::*;
use vstd::utf8::encode_utf8;

use crate::frame::RespFrame;

verus! {

broadcast use vstd::seq_lib::group_to_multiset_ensures;

/// The UTF-8 bytes of a snapshot pair's field name: the sort key.
pub open spec fn key_bytes(p: (String, RespFrame)) -> Seq<u8> {
    encode_utf8(p.0@)
}

/// Lexicographic order on byte strings; a proper prefix comes first.
pub open spec fn bytes_le(a: Seq<u8>, b: Seq<u8>) -> bool
    decreases a.len(),
{
    if a.len() == 0 {
        true
    } else if b.len() == 0 {
        false
    } else if a.first() < b.first() {
        true
    } else if a.first() > b.first() {
        false
    } else {
        bytes_le(a.drop_first(), b.drop_first())
    }
}

pub proof fn lemma_bytes_le_refl(a: Seq<u8>)
    ensures
        bytes_le(a, a),
    decreases a.len(),
{
    if a.len() > 0 {
        lemma_bytes_le_refl(a.drop_first());
    }
}

pub proof fn lemma_bytes_le_total(a: Seq<u8>, b: Seq<u8>)
    ensures
        bytes_le(a, b) || bytes_le(b, a),
    decreases a.len(),
{
    if a.len() > 0 && b.len() > 0 && a.first() == b.first() {
        lemma_bytes_le_total(a.drop_first(), b.drop_first());
    }
}

pub proof fn lemma_bytes_le_trans(a: Seq<u8>, b: Seq<u8>, c: Seq<u8>)
    requires
        bytes_le(a, b),
        bytes_le(b, c),
    ensures
        bytes_le(a, c),
    decreases a.len(),
{
    if a.len() > 0 && b.len() > 0 && c.len() > 0 && a.first() == b.first() && b.first()
        == c.first() {
        lemma_bytes_le_trans(a.drop_first(), b.drop_first(), c.drop_first());
    }
}

pub proof fn lemma_bytes_le_antisym(a: Seq<u8>, b: Seq<u8>)
    requires
        bytes_le(a, b),
        bytes_le(b, a),
    ensures
        a == b,
    decreases a.len(),
{
    if a.len() > 0 && b.len() > 0 && a.first() == b.first() {
        lemma_bytes_le_antisym(a.drop_first(), b.drop_first());
        assert(a =~= b) by {
            assert(a.drop_first() == b.drop_first());
            assert forall|i: int| 0 <= i < a.len() implies a[i] == b[i] by {
                if i > 0 {
                    assert(a.drop_first()[i - 1] == b.drop_first()[i - 1]);
                }
            }
        }
    } else {
        assert(a.len() == 0 && b.len() == 0);
        assert(a =~= b);
    }
}

/// A region of agreement at the front does not affect the comparison of
/// what follows it.
proof fn lemma_bytes_le_shift(a: Seq<u8>, b: Seq<u8>, i: int)
    requires
        0 <= i <= a.len(),
        i <= b.len(),
        forall|j: int| 0 <= j < i ==> a[j] == #[trigger] b[j],
    ensures
        bytes_le(a, b) == bytes_le(a.skip(i), b.skip(i)),
    decreases i,
{
    if i > 0 {
        assert(a.len() > 0 && b.len() > 0 && a.first() == b.first());
        assert forall|j: int| 0 <= j < i - 1 implies a.drop_first()[j] == #[trigger] b.drop_first(
        )[j] by {
            assert(a.drop_first()[j] == a[j + 1]);
        }
        lemma_bytes_le_shift(a.drop_first(), b.drop_first(), i - 1);
        assert(a.drop_first().skip(i - 1) =~= a.skip(i));
        assert(b.drop_first().skip(i - 1) =~= b.skip(i));
    } else {
        assert(a.skip(0) =~= a);
        assert(b.skip(0) =~= b);
    }
}

/// Compare two byte slices in lexicographic order.
fn le_bytes(a: &[u8], b: &[u8]) -> (r: bool)
    ensures
        r == bytes_le(a@, b@),
{
    let mut i: usize = 0;
    while i < a.len() && i < b.len()
        invariant
            i <= a@.len(),
            i <= b@.len(),
            forall|j: int| 0 <= j < i ==> a@[j] == #[trigger] b@[j],
        decreases a@.len() - i,
    {
        if a[i] < b[i] {
            proof {
                lemma_bytes_le_shift(a@, b@, i as int);
            }
            return true;
        }
        if a[i] > b[i] {
            proof {
                lemma_bytes_le_shift(a@, b@, i as int);
            }
            return false;
        }
        i = i + 1;
    }
    proof {
        lemma_bytes_le_shift(a@, b@, i as int);
    }
    a.len() <= b.len()
}

/// Compare two snapshot pairs by field name.
fn le_pair(x: &(String, RespFrame), y: &(String, RespFrame)) -> (r: bool)
    ensures
        r == bytes_le(key_bytes(*x), key_bytes(*y)),
{
    le_bytes(x.0.as_str().as_bytes(), y.0.as_str().as_bytes())
}

/// Nondecreasing field order throughout.
pub open spec fn sorted_pairs(s: Seq<(String, RespFrame)>) -> bool {
    forall|i: int, j: int|
        0 <= i < j < s.len() ==> bytes_le(key_bytes(#[trigger] s[i]), key_bytes(#[trigger] s[j]))
}

/// Sort a snapshot by field name. The result is a permutation of the
/// input: same pairs, same number of times, in nondecreasing field order.
pub fn sort_pairs(src: Vec<(String, RespFrame)>) -> (r: Vec<(String, RespFrame)>)
    ensures
        sorted_pairs(r@),
        r@.to_multiset() == src@.to_multiset(),
{
    let ghost orig = src@;
    let mut src = src;
    let mut out: Vec<(String, RespFrame)> = Vec::new();
    while src.len() > 0
        invariant
            out@.to_multiset().add(src@.to_multiset()) == orig.to_multiset(),
            sorted_pairs(out@),
            forall|i: int, j: int|
                0 <= i < out@.len() && 0 <= j < src@.len() ==> bytes_le(
                    key_bytes(#[trigger] out@[i]),
                    key_bytes(#[trigger] src@[j]),
                ),
        decreases src@.len(),
    {
        let mut m: usize = 0;
        let mut k: usize = 1;
        proof {
            lemma_bytes_le_refl(key_bytes(src@[0]));
        }
        while k < src.len()
            invariant
                m < k <= src@.len(),
                src@.len() > 0,
                forall|j: int| 0 <= j < k ==> bytes_le(key_bytes(src@[m as int]), key_bytes(#[trigger] src@[j])),
            decreases src@.len() - k,
        {
            if le_pair(&src[k], &src[m]) {
                proof {
                    assert forall|j: int| 0 <= j < k + 1 implies bytes_le(
                        key_bytes(src@[k as int]),
                        key_bytes(#[trigger] src@[j]),
                    ) by {
                        if j < k {
                            lemma_bytes_le_trans(
                                key_bytes(src@[k as int]),
                                key_bytes(src@[m as int]),
                                key_bytes(src@[j]),
                            );
                        } else {
                            lemma_bytes_le_refl(key_bytes(src@[k as int]));
                        }
                    }
                }
                m = k;
            } else {
                proof {
                    lemma_bytes_le_total(key_bytes(src@[k as int]), key_bytes(src@[m as int]));
                }
            }
            k = k + 1;
        }
        let ghost pre_src = src@;
        let ghost pre_out = out@;
        let p = src.remove(m);
        out.push(p);
        proof {
            assert(out@.to_multiset().add(src@.to_multiset()) =~= orig.to_multiset());
            assert forall|i: int, j: int|
                0 <= i < out@.len() && 0 <= j < src@.len() implies bytes_le(
                key_bytes(#[trigger] out@[i]),
                key_bytes(#[trigger] src@[j]),
            ) by {
                let oldj = if j < m { j } else { j + 1 };
                assert(src@[j] == pre_src[oldj]);
                if i < pre_out.len() {
                    assert(out@[i] == pre_out[i]);
                } else {
                    assert(out@[i] == p);
                    assert(bytes_le(key_bytes(pre_src[m as int]), key_bytes(pre_src[oldj])));
                }
            }
            assert forall|i: int, j: int| 0 <= i < j < out@.len() implies bytes_le(
                key_bytes(#[trigger] out@[i]),
                key_bytes(#[trigger] out@[j]),
            ) by {
                if j < pre_out.len() {
                    assert(out@[i] == pre_out[i] && out@[j] == pre_out[j]);
                } else {
                    assert(out@[j] == p);
                    assert(out@[i] == pre_out[i]);
                    assert(bytes_le(key_bytes(pre_out[i]), key_bytes(pre_src[m as int])));
                }
            }
        }
    }
    proof {
        assert(src@.to_multiset().len() == 0);
        assert(out@.to_multiset() =~= orig.to_multiset());
    }
    out
}

} // verus!
