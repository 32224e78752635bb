//! HGET, HSET, HGETALL and HMGET: the hash key space.
use vstd::prelude::*;
use vstd::slice::slice_to_vec;
use vstd::utf8::encode_utf8;

use crate::backend::{backend_unchanged, hash_at, hash_lookup, hashes_of, sets_of, strings_of,
    views_of, Backend};
use crate::cmd::{all_text, arg_ok, arg_str, arr_frames, extract_args, is_name, spec_ok, texts_of,
    to_texts, validate_command, view_items, CommandError, HashGet, HashGetAll, HashMultiGet,
    HashSet};
use crate::frame::{frames_view, frames_view_index, frames_view_len, frames_view_skip,
    lemma_frames_view_push, BulkString, RespArray, RespFrame, SpecFrame};
use crate::pairsort::{bytes_le, key_bytes, sort_pairs};

verus! {

broadcast use vstd::seq_lib::group_to_multiset_ensures;

pub open spec fn spec_name_hget() -> Seq<u8> {
    seq![72u8, 71u8, 69u8, 84u8]
}

pub(crate) fn name_hget() -> (r: Vec<u8>)
    ensures
        r@ == spec_name_hget(),
{
    let v: Vec<u8> = vec![72u8, 71u8, 69u8, 84u8];
    proof {
        assert(v@ =~= spec_name_hget());
    }
    v
}

pub open spec fn spec_name_hset() -> Seq<u8> {
    seq![72u8, 83u8, 69u8, 84u8]
}

pub(crate) fn name_hset() -> (r: Vec<u8>)
    ensures
        r@ == spec_name_hset(),
{
    let v: Vec<u8> = vec![72u8, 83u8, 69u8, 84u8];
    proof {
        assert(v@ =~= spec_name_hset());
    }
    v
}

pub open spec fn spec_name_hgetall() -> Seq<u8> {
    seq![72u8, 71u8, 69u8, 84u8, 65u8, 76u8, 76u8]
}

pub(crate) fn name_hgetall() -> (r: Vec<u8>)
    ensures
        r@ == spec_name_hgetall(),
{
    let v: Vec<u8> = vec![72u8, 71u8, 69u8, 84u8, 65u8, 76u8, 76u8];
    proof {
        assert(v@ =~= spec_name_hgetall());
    }
    v
}

pub open spec fn spec_name_hmget() -> Seq<u8> {
    seq![72u8, 77u8, 71u8, 69u8, 84u8]
}

pub(crate) fn name_hmget() -> (r: Vec<u8>)
    ensures
        r@ == spec_name_hmget(),
{
    let v: Vec<u8> = vec![72u8, 77u8, 71u8, 69u8, 84u8];
    proof {
        assert(v@ =~= spec_name_hmget());
    }
    v
}

/// The shape an HGET request must have: the name, the key, the field.
pub open spec fn hget_ok(items: Seq<SpecFrame>) -> bool {
    items.len() == 3 && is_name(items, 0, spec_name_hget()) && arg_ok(items, 1) && arg_ok(items, 2)
}

/// The shape an HSET request must have: the name, the key, the field, then
/// any frame as the value.
pub open spec fn hset_ok(items: Seq<SpecFrame>) -> bool {
    items.len() == 4 && is_name(items, 0, spec_name_hset()) && arg_ok(items, 1) && arg_ok(items, 2)
}

/// The shape an HGETALL request must have: the name, then the key.
pub open spec fn hgetall_ok(items: Seq<SpecFrame>) -> bool {
    items.len() == 2 && is_name(items, 0, spec_name_hgetall()) && arg_ok(items, 1)
}

/// The shape an HMGET request must have: the name, the key, then any
/// number of text fields.
pub open spec fn hmget_ok(items: Seq<SpecFrame>) -> bool {
    items.len() >= 2 && is_name(items, 0, spec_name_hmget()) && arg_ok(items, 1) && all_text(
        items.skip(2),
    )
}

/// What executing HGET does: nothing to the store; the reply is the stored
/// field value, or the null bulk string when key or field is absent.
pub open spec fn hget_post(c: HashGet, b0: Backend, b1: Backend, r: RespFrame) -> bool {
    backend_unchanged(b0, b1) && r@ == hash_lookup(b0, c.key@, c.field@)
}

/// What executing HSET does: store the field in the key's hash, creating
/// the hash on first write; reply OK.
pub open spec fn hset_post(c: HashSet, b0: Backend, b1: Backend, r: RespFrame) -> bool {
    &&& hashes_of(b1) == hashes_of(b0).insert(c.key@, hash_at(b0, c.key@).insert(c.field@, c.value@))
    &&& strings_of(b1) == strings_of(b0)
    &&& sets_of(b1) == sets_of(b0)
    &&& r@ == spec_ok()
}

/// What executing HMGET does: nothing to the store; one entry per
/// requested field, the stored value or the null bulk string — also when
/// the whole key is absent.
pub open spec fn hmget_post(c: HashMultiGet, b0: Backend, b1: Backend, r: RespFrame) -> bool {
    backend_unchanged(b0, b1) && r@ == SpecFrame::Array(
        Seq::new(c.fields@.len(), |i: int| hash_lookup(b0, c.key@, c.fields@[i]@)),
    )
}

/// `ps` lists every field of the hash `h` exactly once with its value.
pub open spec fn pairs_listing(h: Map<Seq<char>, SpecFrame>, ps: Seq<(Seq<char>, SpecFrame)>) -> bool {
    &&& forall|i: int, j: int| 0 <= i < j < ps.len() ==> (#[trigger] ps[i]).0 != (#[trigger] ps[j]).0
    &&& forall|i: int|
        0 <= i < ps.len() ==> h.contains_key((#[trigger] ps[i]).0) && ps[i].1 == h[ps[i].0]
    &&& forall|f: Seq<char>|
        h.contains_key(f) ==> exists|i: int| 0 <= i < ps.len() && (#[trigger] ps[i]).0 == f
}

/// Field order over view pairs.
pub open spec fn view_pairs_sorted(ps: Seq<(Seq<char>, SpecFrame)>) -> bool {
    forall|i: int, j: int|
        0 <= i < j < ps.len() ==> bytes_le(
            encode_utf8((#[trigger] ps[i]).0),
            encode_utf8((#[trigger] ps[j]).0),
        )
}

/// The flattened field/value reply: field name as a bulk string, then the
/// stored frame, pair by pair.
pub open spec fn flatten_pairs(ps: Seq<(Seq<char>, SpecFrame)>) -> Seq<SpecFrame>
    decreases ps.len(),
{
    if ps.len() == 0 {
        Seq::empty()
    } else {
        seq![SpecFrame::Bulk(encode_utf8(ps.first().0)), ps.first().1] + flatten_pairs(
            ps.drop_first(),
        )
    }
}

/// What executing HGETALL does: nothing to the store; the reply flattens
/// some listing of the key's hash (the empty hash when the key is absent),
/// and in sorted mode that listing is in field order — which, with the
/// fields pairwise distinct, pins the reply completely.
pub open spec fn hgetall_post(c: HashGetAll, b0: Backend, b1: Backend, r: RespFrame) -> bool {
    &&& backend_unchanged(b0, b1)
    &&& exists|ps: Seq<(Seq<char>, SpecFrame)>|
        #![trigger pairs_listing(hash_at(b0, c.key@), ps)]
        pairs_listing(hash_at(b0, c.key@), ps) && (c.sort ==> view_pairs_sorted(ps)) && r@
            == SpecFrame::Array(flatten_pairs(ps))
}

/// The law behind sorted-mode determinism: a hash has exactly one sorted
/// listing, so two HGETALL replies in sorted mode over the same stored
/// hash are equal, whatever order the snapshots were taken in.
pub proof fn lemma_sorted_listing_unique(
    h: Map<Seq<char>, SpecFrame>,
    a: Seq<(Seq<char>, SpecFrame)>,
    b: Seq<(Seq<char>, SpecFrame)>,
)
    requires
        pairs_listing(h, a),
        view_pairs_sorted(a),
        pairs_listing(h, b),
        view_pairs_sorted(b),
    ensures
        a == b,
    decreases a.len(),
{
    broadcast use vstd::utf8::encode_utf8_decode_utf8;

    if a.len() == 0 {
        if b.len() > 0 {
            assert(h.contains_key(b[0].0));
            assert(exists|i: int| 0 <= i < a.len() && (#[trigger] a[i]).0 == b[0].0);
            assert(false);
        }
        assert(a =~= b);
    } else {
        assert(h.contains_key(a[0].0));
        assert(b.len() > 0) by {
            assert(exists|i: int| 0 <= i < b.len() && (#[trigger] b[i]).0 == a[0].0);
        }
        let fa = a[0].0;
        let fb = b[0].0;
        assert(bytes_le(encode_utf8(fb), encode_utf8(fa))) by {
            let j = choose|j: int| 0 <= j < b.len() && (#[trigger] b[j]).0 == fa;
            if j == 0 {
                crate::pairsort::lemma_bytes_le_refl(encode_utf8(fa));
            } else {
                assert(bytes_le(encode_utf8(b[0].0), encode_utf8(b[j].0)));
            }
        }
        assert(bytes_le(encode_utf8(fa), encode_utf8(fb))) by {
            assert(h.contains_key(fb));
            let j = choose|j: int| 0 <= j < a.len() && (#[trigger] a[j]).0 == fb;
            if j == 0 {
                crate::pairsort::lemma_bytes_le_refl(encode_utf8(fa));
            } else {
                assert(bytes_le(encode_utf8(a[0].0), encode_utf8(a[j].0)));
            }
        }
        crate::pairsort::lemma_bytes_le_antisym(encode_utf8(fa), encode_utf8(fb));
        assert(fa == fb) by {
            assert(vstd::utf8::decode_utf8(encode_utf8(fa)) == fa);
            assert(vstd::utf8::decode_utf8(encode_utf8(fb)) == fb);
        }
        assert(a[0].1 == h[fa] && b[0].1 == h[fa]);
        assert(a[0] == b[0]);
        let h1 = h.remove(fa);
        let ta = a.drop_first();
        let tb = b.drop_first();
        assert(pairs_listing(h1, ta)) by {
            assert forall|i: int|
                0 <= i < ta.len() implies h1.contains_key((#[trigger] ta[i]).0) && ta[i].1
                == h1[ta[i].0] by {
                assert(ta[i] == a[i + 1]);
                assert(a[i + 1].0 != fa);
            }
            assert forall|f: Seq<char>| h1.contains_key(f) implies exists|i: int|
                0 <= i < ta.len() && (#[trigger] ta[i]).0 == f by {
                assert(h.contains_key(f));
                let j = choose|j: int| 0 <= j < a.len() && (#[trigger] a[j]).0 == f;
                assert(j != 0);
                assert(ta[j - 1].0 == f);
            }
            assert forall|i: int, j: int| 0 <= i < j < ta.len() implies (#[trigger] ta[i]).0 != (
            #[trigger] ta[j]).0 by {
                assert(ta[i] == a[i + 1] && ta[j] == a[j + 1]);
            }
        }
        assert(pairs_listing(h1, tb)) by {
            assert forall|i: int|
                0 <= i < tb.len() implies h1.contains_key((#[trigger] tb[i]).0) && tb[i].1
                == h1[tb[i].0] by {
                assert(tb[i] == b[i + 1]);
                assert(b[i + 1].0 != fb);
            }
            assert forall|f: Seq<char>| h1.contains_key(f) implies exists|i: int|
                0 <= i < tb.len() && (#[trigger] tb[i]).0 == f by {
                assert(h.contains_key(f));
                let j = choose|j: int| 0 <= j < b.len() && (#[trigger] b[j]).0 == f;
                assert(j != 0);
                assert(tb[j - 1].0 == f);
            }
            assert forall|i: int, j: int| 0 <= i < j < tb.len() implies (#[trigger] tb[i]).0 != (
            #[trigger] tb[j]).0 by {
                assert(tb[i] == b[i + 1] && tb[j] == b[j + 1]);
            }
        }
        assert(view_pairs_sorted(ta)) by {
            assert forall|i: int, j: int| 0 <= i < j < ta.len() implies bytes_le(
                encode_utf8((#[trigger] ta[i]).0),
                encode_utf8((#[trigger] ta[j]).0),
            ) by {
                assert(ta[i] == a[i + 1] && ta[j] == a[j + 1]);
                assert(bytes_le(encode_utf8(a[i + 1].0), encode_utf8(a[j + 1].0)));
            }
        }
        assert(view_pairs_sorted(tb)) by {
            assert forall|i: int, j: int| 0 <= i < j < tb.len() implies bytes_le(
                encode_utf8((#[trigger] tb[i]).0),
                encode_utf8((#[trigger] tb[j]).0),
            ) by {
                assert(tb[i] == b[i + 1] && tb[j] == b[j + 1]);
                assert(bytes_le(encode_utf8(b[i + 1].0), encode_utf8(b[j + 1].0)));
            }
        }
        lemma_sorted_listing_unique(h1, ta, tb);
        assert(a =~= b) by {
            assert forall|i: int| 0 <= i < a.len() implies a[i] == b[i] by {
                if i > 0 {
                    assert(ta[i - 1] == tb[i - 1]);
                }
            }
        }
    }
}

/// The views of a snapshot's pairs.
pub open spec fn pair_views(s: Seq<(String, RespFrame)>) -> Seq<(Seq<char>, SpecFrame)> {
    s.map_values(|p: (String, RespFrame)| (p.0@, p.1@))
}

/// Flattening grows pair by pair.
proof fn lemma_flatten_push(ps: Seq<(Seq<char>, SpecFrame)>, p: (Seq<char>, SpecFrame))
    ensures
        flatten_pairs(ps.push(p)) == flatten_pairs(ps) + seq![
            SpecFrame::Bulk(encode_utf8(p.0)),
            p.1,
        ],
    decreases ps,
{
    if ps.len() == 0 {
        let e = ps.push(p).drop_first();
        assert(e =~= Seq::<(Seq<char>, SpecFrame)>::empty());
        assert(flatten_pairs(e).len() == 0);
        assert(ps.push(p).first() == p);
        assert(flatten_pairs(ps.push(p)) =~= flatten_pairs(ps) + seq![
            SpecFrame::Bulk(encode_utf8(p.0)),
            p.1,
        ]);
    } else {
        assert(ps.push(p).drop_first() =~= ps.drop_first().push(p));
        assert(ps.push(p).first() == ps.first());
        lemma_flatten_push(ps.drop_first(), p);
        assert(flatten_pairs(ps.push(p)) =~= flatten_pairs(ps) + seq![
            SpecFrame::Bulk(encode_utf8(p.0)),
            p.1,
        ]);
    }
}

/// A listing survives permutation: any reordering of a snapshot with the
/// same pairs, the same number of times, lists the same hash.
proof fn lemma_listing_permuted(
    h: Map<Seq<char>, SpecFrame>,
    a: Seq<(String, RespFrame)>,
    b: Seq<(String, RespFrame)>,
)
    requires
        a.to_multiset() == b.to_multiset(),
        forall|i: int, j: int| 0 <= i < j < a.len() ==> (#[trigger] a[i]).0@ != (#[trigger] a[j]).0@,
        forall|i: int|
            0 <= i < a.len() ==> h.contains_key((#[trigger] a[i]).0@) && a[i].1@ == h[a[i].0@],
        forall|f: Seq<char>|
            h.contains_key(f) ==> exists|i: int| 0 <= i < a.len() && (#[trigger] a[i]).0@ == f,
    ensures
        pairs_listing(h, pair_views(b)),
{
    let pv = pair_views(b);
    assert(a.no_duplicates()) by {
        assert forall|i: int, j: int|
            0 <= i < a.len() && 0 <= j < a.len() && i != j implies a[i] != a[j] by {
            if i < j {
                assert(a[i].0@ != a[j].0@);
            } else {
                assert(a[j].0@ != a[i].0@);
            }
        }
    }
    a.lemma_multiset_has_no_duplicates();
    b.lemma_multiset_has_no_duplicates_conv();
    assert forall|i: int| 0 <= i < b.len() implies exists|k: int|
        0 <= k < a.len() && a[k] == #[trigger] b[i] by {
        assert(b.to_multiset().contains(b[i]));
        assert(a.to_multiset().contains(b[i]));
        assert(a.contains(b[i]));
    }
    assert forall|i: int|
        0 <= i < pv.len() implies h.contains_key((#[trigger] pv[i]).0) && pv[i].1 == h[pv[i].0] by {
        assert(pv[i] == (b[i].0@, b[i].1@));
        let k = choose|k: int| 0 <= k < a.len() && a[k] == b[i];
        assert(h.contains_key(a[k].0@) && a[k].1@ == h[a[k].0@]);
    }
    assert forall|i: int, j: int| 0 <= i < j < pv.len() implies (#[trigger] pv[i]).0 != (
    #[trigger] pv[j]).0 by {
        assert(b[i] != b[j]);
        let k = choose|k: int| 0 <= k < a.len() && a[k] == b[i];
        let l = choose|l: int| 0 <= l < a.len() && a[l] == b[j];
        if k == l {
            assert(b[i] == b[j]);
        } else if k < l {
            assert(a[k].0@ != a[l].0@);
        } else {
            assert(a[l].0@ != a[k].0@);
        }
        assert(pv[i].0 == b[i].0@ && pv[j].0 == b[j].0@);
    }
    assert forall|f: Seq<char>| h.contains_key(f) implies exists|i: int|
        0 <= i < pv.len() && (#[trigger] pv[i]).0 == f by {
        let k = choose|k: int| 0 <= k < a.len() && (#[trigger] a[k]).0@ == f;
        assert(a.to_multiset().contains(a[k]));
        assert(b.to_multiset().contains(a[k]));
        assert(b.contains(a[k]));
        let i = choose|i: int| 0 <= i < b.len() && b[i] == a[k];
        assert(pv[i].0 == f);
    }
}

/// Turn a (possibly sorted) snapshot into the flattened reply frames.
fn flatten_snapshot(sp: &Vec<(String, RespFrame)>) -> (out: Vec<RespFrame>)
    ensures
        frames_view(out@) == flatten_pairs(pair_views(sp@)),
{
    let ghost pv = pair_views(sp@);
    let mut out: Vec<RespFrame> = Vec::new();
    let mut i: usize = 0;
    while i < sp.len()
        invariant
            i <= sp@.len(),
            pv == pair_views(sp@),
            pv.len() == sp@.len(),
            frames_view(out@) == flatten_pairs(pv.take(i as int)),
        decreases sp@.len() - i,
    {
        let name_bytes = slice_to_vec(sp[i].0.as_str().as_bytes());
        let fname = RespFrame::BulkString(BulkString::Normal(name_bytes));
        let fval = sp[i].1.clone();
        let ghost prev0 = out@;
        out.push(fname);
        let ghost prev1 = out@;
        out.push(fval);
        i = i + 1;
        proof {
            lemma_frames_view_push(prev0, fname);
            lemma_frames_view_push(prev1, fval);
            lemma_flatten_push(pv.take(i - 1), pv[i - 1]);
            assert(pv.take(i as int) =~= pv.take(i - 1).push(pv[i - 1]));
            assert(pv[i - 1] == (sp@[i - 1].0@, sp@[i - 1].1@));
            assert(frames_view(out@) =~= flatten_pairs(pv.take(i as int)));
        }
    }
    proof {
        assert(pv.take(pv.len() as int) =~= pv);
    }
    out
}

impl HashGet {
    /// Build an HGET command from an array frame, if and only if it has
    /// exactly a key and a field, both text.
    pub fn try_from(v: RespArray) -> (r: Result<HashGet, CommandError>)
        ensures
            r is Ok <==> hget_ok(view_items(v)),
            r matches Ok(c) ==> c.key@ == arg_str(view_items(v), 1) && c.field@ == arg_str(
                view_items(v),
                2,
            ),
            r matches Err(e) ==> ((e is InvalidCommand) <==> (view_items(v).len() == 3 && !is_name(
                view_items(v),
                0,
                spec_name_hget(),
            ))),
    {
        proof {
            frames_view_len(arr_frames(v));
        }
        let names: Vec<Vec<u8>> = vec![name_hget()];
        proof {
            crate::cmd::lemma_single_name(view_items(v), names@, spec_name_hget());
        }
        match validate_command(&v, &names, Some(2)) {
            Ok(()) => {},
            Err(e) => {
                return Err(e);
            },
        }
        proof {
            frames_view_index(arr_frames(v), 1);
            frames_view_index(arr_frames(v), 2);
        }
        let mut args = match extract_args(v, 1) {
            Ok(a) => a,
            Err(e) => {
                return Err(e);
            },
        };
        let keyf = args.remove(0);
        let fieldf = args.remove(0);
        proof {
            assert(keyf == arr_frames(v)[1]);
            assert(fieldf == arr_frames(v)[2]);
            assert(view_items(v)[1] == crate::frame::frame_view(keyf));
            assert(view_items(v)[2] == crate::frame::frame_view(fieldf));
        }
        let key = match keyf {
            RespFrame::BulkString(BulkString::Normal(data)) => {
                match crate::cmd::utf8_string(data) {
                    Some(s) => s,
                    None => {
                        return Err(
                            CommandError::InvalidArgument("key is not valid text".to_owned()),
                        );
                    },
                }
            },
            _ => {
                return Err(CommandError::InvalidArgument("key must be a bulk string".to_owned()));
            },
        };
        match fieldf {
            RespFrame::BulkString(BulkString::Normal(data)) => {
                match crate::cmd::utf8_string(data) {
                    Some(s) => Ok(HashGet { key, field: s }),
                    None => Err(
                        CommandError::InvalidArgument("field is not valid text".to_owned()),
                    ),
                }
            },
            _ => Err(CommandError::InvalidArgument("field must be a bulk string".to_owned())),
        }
    }

    /// Look the field up; a missing key or field replies with the null
    /// bulk string.
    pub fn execute(self, backend: &mut Backend) -> (r: RespFrame)
        ensures
            hget_post(self, *old(backend), *final(backend), r),
    {
        match backend.hash_get(self.key.as_str(), self.field.as_str()) {
            Some(f) => f,
            None => RespFrame::BulkString(BulkString::Null),
        }
    }
}

impl HashSet {
    /// Build an HSET command from an array frame, if and only if it has
    /// exactly a key, a field and a value; the value may be any frame.
    pub fn try_from(v: RespArray) -> (r: Result<HashSet, CommandError>)
        ensures
            r is Ok <==> hset_ok(view_items(v)),
            r matches Ok(c) ==> c.key@ == arg_str(view_items(v), 1) && c.field@ == arg_str(
                view_items(v),
                2,
            ) && c.value@ == view_items(v)[3],
            r matches Err(e) ==> ((e is InvalidCommand) <==> (view_items(v).len() == 4 && !is_name(
                view_items(v),
                0,
                spec_name_hset(),
            ))),
    {
        proof {
            frames_view_len(arr_frames(v));
        }
        let names: Vec<Vec<u8>> = vec![name_hset()];
        proof {
            crate::cmd::lemma_single_name(view_items(v), names@, spec_name_hset());
        }
        match validate_command(&v, &names, Some(3)) {
            Ok(()) => {},
            Err(e) => {
                return Err(e);
            },
        }
        proof {
            frames_view_index(arr_frames(v), 1);
            frames_view_index(arr_frames(v), 2);
            frames_view_index(arr_frames(v), 3);
        }
        let mut args = match extract_args(v, 1) {
            Ok(a) => a,
            Err(e) => {
                return Err(e);
            },
        };
        let keyf = args.remove(0);
        let fieldf = args.remove(0);
        let value = args.remove(0);
        proof {
            assert(keyf == arr_frames(v)[1]);
            assert(fieldf == arr_frames(v)[2]);
            assert(value == arr_frames(v)[3]);
            assert(view_items(v)[1] == crate::frame::frame_view(keyf));
            assert(view_items(v)[2] == crate::frame::frame_view(fieldf));
            assert(view_items(v)[3] == crate::frame::frame_view(value));
        }
        let key = match keyf {
            RespFrame::BulkString(BulkString::Normal(data)) => {
                match crate::cmd::utf8_string(data) {
                    Some(s) => s,
                    None => {
                        return Err(
                            CommandError::InvalidArgument("key is not valid text".to_owned()),
                        );
                    },
                }
            },
            _ => {
                return Err(CommandError::InvalidArgument("key must be a bulk string".to_owned()));
            },
        };
        match fieldf {
            RespFrame::BulkString(BulkString::Normal(data)) => {
                match crate::cmd::utf8_string(data) {
                    Some(s) => Ok(HashSet { key, field: s, value }),
                    None => Err(
                        CommandError::InvalidArgument("field is not valid text".to_owned()),
                    ),
                }
            },
            _ => Err(CommandError::InvalidArgument("field must be a bulk string".to_owned())),
        }
    }

    /// Store the field in the key's hash, creating it on first write, and
    /// reply OK.
    pub fn execute(self, backend: &mut Backend) -> (r: RespFrame)
        ensures
            hset_post(self, *old(backend), *final(backend), r),
    {
        backend.hash_set(self.key, self.field, self.value);
        crate::cmd::resp_ok()
    }
}

impl HashGetAll {
    /// Build an HGETALL command from an array frame, if and only if it has
    /// exactly one text key. The sorted mode is an execution option with
    /// no wire-level trigger; requests built here leave it off.
    pub fn try_from(v: RespArray) -> (r: Result<HashGetAll, CommandError>)
        ensures
            r is Ok <==> hgetall_ok(view_items(v)),
            r matches Ok(c) ==> c.key@ == arg_str(view_items(v), 1) && !c.sort,
            r matches Err(e) ==> ((e is InvalidCommand) <==> (view_items(v).len() == 2 && !is_name(
                view_items(v),
                0,
                spec_name_hgetall(),
            ))),
    {
        proof {
            frames_view_len(arr_frames(v));
        }
        let names: Vec<Vec<u8>> = vec![name_hgetall()];
        proof {
            crate::cmd::lemma_single_name(view_items(v), names@, spec_name_hgetall());
        }
        match validate_command(&v, &names, Some(1)) {
            Ok(()) => {},
            Err(e) => {
                return Err(e);
            },
        }
        proof {
            frames_view_index(arr_frames(v), 1);
        }
        let mut args = match extract_args(v, 1) {
            Ok(a) => a,
            Err(e) => {
                return Err(e);
            },
        };
        let first = args.remove(0);
        proof {
            assert(first == arr_frames(v)[1]);
            assert(view_items(v)[1] == crate::frame::frame_view(first));
        }
        match first {
            RespFrame::BulkString(BulkString::Normal(data)) => {
                match crate::cmd::utf8_string(data) {
                    Some(s) => Ok(HashGetAll { key: s, sort: false }),
                    None => Err(CommandError::InvalidArgument("key is not valid text".to_owned())),
                }
            },
            _ => Err(CommandError::InvalidArgument("key must be a bulk string".to_owned())),
        }
    }

    /// Reply with every field and value of the key's hash, flattened; an
    /// absent key gives the empty array. In sorted mode the pairs come in
    /// field order, so the reply is deterministic.
    pub fn execute(self, backend: &mut Backend) -> (r: RespFrame)
        ensures
            hgetall_post(self, *old(backend), *final(backend), r),
    {
        let ghost h = hash_at(*old(backend), self.key@);
        match backend.hash_get_all(self.key.as_str()) {
            None => {
                let out: Vec<RespFrame> = Vec::new();
                let r = RespFrame::Array(RespArray::Normal(out));
                proof {
                    let w = Seq::<(Seq<char>, SpecFrame)>::empty();
                    assert(pairs_listing(h, w));
                    assert(flatten_pairs(w) =~= Seq::<SpecFrame>::empty());
                    assert(r@ == SpecFrame::Array(flatten_pairs(w)));
                    assert(pairs_listing(hash_at(*old(backend), self.key@), w) && (self.sort
                        ==> view_pairs_sorted(w)) && r@ == SpecFrame::Array(flatten_pairs(w)));
                }
                r
            },
            Some(ps) => {
                let ghost snap = ps@;
                let sp = if self.sort {
                    sort_pairs(ps)
                } else {
                    ps
                };
                proof {
                    if !self.sort {
                        assert(sp@.to_multiset() =~= snap.to_multiset());
                    }
                    lemma_listing_permuted(h, snap, sp@);
                    if self.sort {
                        assert forall|i: int, j: int|
                            0 <= i < j < pair_views(sp@).len() implies bytes_le(
                            encode_utf8((#[trigger] pair_views(sp@)[i]).0),
                            encode_utf8((#[trigger] pair_views(sp@)[j]).0),
                        ) by {
                            assert(bytes_le(key_bytes(sp@[i]), key_bytes(sp@[j])));
                        }
                    }
                }
                let out = flatten_snapshot(&sp);
                let r = RespFrame::Array(RespArray::Normal(out));
                proof {
                    let w = pair_views(sp@);
                    assert(pairs_listing(h, w));
                    assert(self.sort ==> view_pairs_sorted(w));
                    assert(r@ == SpecFrame::Array(flatten_pairs(w)));
                    assert(pairs_listing(hash_at(*old(backend), self.key@), w) && (self.sort
                        ==> view_pairs_sorted(w)) && r@ == SpecFrame::Array(flatten_pairs(w)));
                }
                r
            },
        }
    }
}

impl HashMultiGet {
    /// Build an HMGET command from an array frame, if and only if it has a
    /// key and any number of fields, all text.
    pub fn try_from(v: RespArray) -> (r: Result<HashMultiGet, CommandError>)
        ensures
            r is Ok <==> hmget_ok(view_items(v)),
            r matches Ok(c) ==> c.key@ == arg_str(view_items(v), 1) && views_of(c.fields@)
                == texts_of(view_items(v).skip(2)),
            r matches Err(e) ==> ((e is InvalidCommand) <==> !is_name(
                view_items(v),
                0,
                spec_name_hmget(),
            )),
    {
        proof {
            frames_view_len(arr_frames(v));
        }
        let names: Vec<Vec<u8>> = vec![name_hmget()];
        proof {
            crate::cmd::lemma_single_name(view_items(v), names@, spec_name_hmget());
        }
        match validate_command(&v, &names, None) {
            Ok(()) => {},
            Err(e) => {
                return Err(e);
            },
        }
        let mut args = match extract_args(v, 1) {
            Ok(a) => a,
            Err(e) => {
                return Err(e);
            },
        };
        if args.len() == 0 {
            return Err(CommandError::InvalidArgument("missing key".to_owned()));
        }
        proof {
            frames_view_index(arr_frames(v), 1);
        }
        let keyf = args.remove(0);
        proof {
            assert(keyf == arr_frames(v)[1]);
            assert(view_items(v)[1] == crate::frame::frame_view(keyf));
            assert(args@ =~= arr_frames(v).skip(2));
            frames_view_skip(arr_frames(v), 2);
        }
        let key = match keyf {
            RespFrame::BulkString(BulkString::Normal(data)) => {
                match crate::cmd::utf8_string(data) {
                    Some(s) => s,
                    None => {
                        return Err(
                            CommandError::InvalidArgument("key is not valid text".to_owned()),
                        );
                    },
                }
            },
            _ => {
                return Err(CommandError::InvalidArgument("key must be a bulk string".to_owned()));
            },
        };
        match to_texts(args) {
            Some(fields) => Ok(HashMultiGet { key, fields }),
            None => Err(CommandError::InvalidArgument("field is not valid text".to_owned())),
        }
    }

    /// Reply with one entry per requested field; the store is not touched.
    pub fn execute(self, backend: &mut Backend) -> (r: RespFrame)
        ensures
            hmget_post(self, *old(backend), *final(backend), r),
    {
        backend.hash_multi_get(self.key.as_str(), self.fields)
    }
}

} // verus!
