//! The multi-type key space: strings, hashes and sets, each keyed by a
//! string. Storage lives in `dashmap` containers; every operation's effect
//! is stated over three mathematical maps, and all counting and aggregation
//! logic on top of the primitive container calls is verified.
use vstd::prelude::*;

use crate::frame::{frames_view, lemma_frames_view_push, BulkString, RespFrame, SpecFrame};

verus! {

/// The store. Holds one `dashmap` container per key space; the maps below
/// give its mathematical contents. Mutating operations take `&mut self`,
/// which is what lets their contracts relate the store before and after.
#[verifier::external_body]
pub struct Backend {
    strings: dashmap::DashMap<String, RespFrame>,
    hashes: dashmap::DashMap<String, dashmap::DashMap<String, RespFrame>>,
    sets: dashmap::DashMap<String, dashmap::DashSet<String>>,
}

/// The string key space: key to stored frame.
pub uninterp spec fn strings_of(b: Backend) -> Map<Seq<char>, SpecFrame>;

/// The hash key space: key to field-to-frame mapping.
pub uninterp spec fn hashes_of(b: Backend) -> Map<Seq<char>, Map<Seq<char>, SpecFrame>>;

/// The set key space: key to member set.
pub uninterp spec fn sets_of(b: Backend) -> Map<Seq<char>, Set<Seq<char>>>;

/// The hash stored under `key`, taking a missing key as the empty hash.
pub open spec fn hash_at(b: Backend, key: Seq<char>) -> Map<Seq<char>, SpecFrame> {
    if hashes_of(b).contains_key(key) {
        hashes_of(b)[key]
    } else {
        Map::empty()
    }
}

/// The set stored under `key`, taking a missing key as the empty set.
pub open spec fn set_at(b: Backend, key: Seq<char>) -> Set<Seq<char>> {
    if sets_of(b).contains_key(key) {
        sets_of(b)[key]
    } else {
        Set::empty()
    }
}

/// The reply HMGET gives for one requested field.
pub open spec fn hash_lookup(b: Backend, key: Seq<char>, field: Seq<char>) -> SpecFrame {
    if hash_at(b, key).contains_key(field) {
        hash_at(b, key)[field]
    } else {
        SpecFrame::BulkNull
    }
}

/// The two stores hold exactly the same data in every key space.
pub open spec fn backend_unchanged(b0: Backend, b1: Backend) -> bool {
    strings_of(b1) == strings_of(b0) && hashes_of(b1) == hashes_of(b0) && sets_of(b1) == sets_of(
        b0,
    )
}

/// A store with nothing in any key space.
pub open spec fn backend_empty(b: Backend) -> bool {
    strings_of(b) == Map::<Seq<char>, SpecFrame>::empty() && hashes_of(b) == Map::<
        Seq<char>,
        Map<Seq<char>, SpecFrame>,
    >::empty() && sets_of(b) == Map::<Seq<char>, Set<Seq<char>>>::empty()
}

impl Backend {
    /// Relies on `dashmap::DashMap::new`: a fresh store holds nothing.
    #[verifier::external_body]
    pub fn new() -> (r: Backend)
        ensures
            backend_empty(r),
    {
        Backend {
            strings: dashmap::DashMap::new(),
            hashes: dashmap::DashMap::new(),
            sets: dashmap::DashMap::new(),
        }
    }

    /// Relies on `dashmap::DashMap::get`: the value stored under `key`,
    /// if any, returned as a clone.
    #[verifier::external_body]
    pub fn string_get(&self, key: &str) -> (r: Option<RespFrame>)
        ensures
            match r {
                Some(f) => strings_of(*self).contains_key(key@) && f@ == strings_of(*self)[key@],
                None => !strings_of(*self).contains_key(key@),
            },
    {
        self.strings.get(key).map(|v| v.value().clone())
    }

    /// Relies on `dashmap::DashMap::insert`: last write wins; the other two
    /// key spaces are untouched.
    #[verifier::external_body]
    pub fn string_set(&mut self, key: String, value: RespFrame)
        ensures
            strings_of(*final(self)) == strings_of(*old(self)).insert(key@, value@),
            hashes_of(*final(self)) == hashes_of(*old(self)),
            sets_of(*final(self)) == sets_of(*old(self)),
    {
        self.strings.insert(key, value);
    }

    /// Relies on `dashmap::DashMap::get` on the outer and nested map: the
    /// frame under `key`/`field`, if both exist, returned as a clone.
    #[verifier::external_body]
    pub fn hash_get(&self, key: &str, field: &str) -> (r: Option<RespFrame>)
        ensures
            match r {
                Some(f) => hash_at(*self, key@).contains_key(field@) && f@ == hash_at(
                    *self,
                    key@,
                )[field@],
                None => !hash_at(*self, key@).contains_key(field@),
            },
    {
        self.hashes.get(key).and_then(|m| m.get(field).map(|v| v.value().clone()))
    }

    /// Relies on `dashmap::DashMap::entry` + `or_default` + `insert`: the
    /// nested hash is created atomically on first write, and the field is
    /// stored in it; the other key spaces are untouched.
    #[verifier::external_body]
    pub fn hash_set(&mut self, key: String, field: String, value: RespFrame)
        ensures
            hashes_of(*final(self)) == hashes_of(*old(self)).insert(
                key@,
                hash_at(*old(self), key@).insert(field@, value@),
            ),
            strings_of(*final(self)) == strings_of(*old(self)),
            sets_of(*final(self)) == sets_of(*old(self)),
    {
        let nested = self.hashes.entry(key).or_default();
        nested.insert(field, value);
    }

    /// Relies on `dashmap::DashMap::get` and iteration over the nested map:
    /// a point-in-time snapshot of the hash under `key` — every field
    /// exactly once, in no promised order — or `None` if the key is absent.
    #[verifier::external_body]
    pub fn hash_get_all(&self, key: &str) -> (r: Option<Vec<(String, RespFrame)>>)
        ensures
            match r {
                Some(ps) => {
                    &&& hashes_of(*self).contains_key(key@)
                    &&& forall|i: int, j: int|
                        0 <= i < j < ps@.len() ==> #[trigger] ps@[i].0@ != #[trigger] ps@[j].0@
                    &&& forall|i: int|
                        0 <= i < ps@.len() ==> hash_at(*self, key@).contains_key(
                            (#[trigger] ps@[i]).0@,
                        ) && ps@[i].1@ == hash_at(*self, key@)[ps@[i].0@]
                    &&& forall|f: Seq<char>|
                        hash_at(*self, key@).contains_key(f) ==> exists|i: int|
                            0 <= i < ps@.len() && (#[trigger] ps@[i]).0@ == f
                },
                None => !hashes_of(*self).contains_key(key@),
            },
    {
        let nested = self.hashes.get(key)?;
        let mut out: Vec<(String, RespFrame)> = Vec::new();
        for entry in nested.iter() {
            out.push((entry.key().clone(), entry.value().clone()));
        }
        Some(out)
    }

    /// Relies on `dashmap::DashMap::entry` + `or_default` and
    /// `dashmap::DashSet::insert`: the set is created on first write, the
    /// member is added, and the result says whether it was genuinely new.
    #[verifier::external_body]
    fn set_insert(&mut self, key: String, member: String) -> (r: bool)
        ensures
            r == !set_at(*old(self), key@).contains(member@),
            sets_of(*final(self)) == sets_of(*old(self)).insert(
                key@,
                set_at(*old(self), key@).insert(member@),
            ),
            strings_of(*final(self)) == strings_of(*old(self)),
            hashes_of(*final(self)) == hashes_of(*old(self)),
    {
        let nested = self.sets.entry(key).or_default();
        nested.insert(member)
    }

    /// Relies on `dashmap::DashMap::get` and `dashmap::DashSet::contains`.
    #[verifier::external_body]
    fn set_contains(&self, key: &str, member: &str) -> (r: bool)
        ensures
            r == set_at(*self, key@).contains(member@),
    {
        match self.sets.get(key) {
            Some(s) => s.contains(member),
            None => false,
        }
    }

    /// Relies on `dashmap::DashMap::get` and iteration over the nested set:
    /// a point-in-time snapshot of the members under `key` — each exactly
    /// once, in no promised order — or `None` if the key is absent.
    #[verifier::external_body]
    pub fn set_members(&self, key: &str) -> (r: Option<Vec<String>>)
        ensures
            match r {
                Some(ms) => {
                    &&& sets_of(*self).contains_key(key@)
                    &&& forall|i: int, j: int|
                        0 <= i < j < ms@.len() ==> #[trigger] ms@[i]@ != #[trigger] ms@[j]@
                    &&& forall|i: int|
                        0 <= i < ms@.len() ==> set_at(*self, key@).contains((#[trigger] ms@[i])@)
                    &&& forall|m: Seq<char>|
                        set_at(*self, key@).contains(m) ==> exists|i: int|
                            0 <= i < ms@.len() && (#[trigger] ms@[i])@ == m
                },
                None => !sets_of(*self).contains_key(key@),
            },
    {
        let nested = self.sets.get(key)?;
        let mut out: Vec<String> = Vec::new();
        for entry in nested.iter() {
            out.push(entry.key().clone());
        }
        Some(out)
    }

    /// One array entry per requested field: the stored value where the key
    /// and field exist, the null bulk string otherwise — including when the
    /// whole key is absent.
    pub fn hash_multi_get(&self, key: &str, fields: Vec<String>) -> (r: RespFrame)
        ensures
            r@ == SpecFrame::Array(
                Seq::new(fields@.len(), |i: int| hash_lookup(*self, key@, fields@[i]@)),
            ),
    {
        let ghost want = Seq::new(fields@.len(), |i: int| hash_lookup(*self, key@, fields@[i]@));
        let mut out: Vec<RespFrame> = Vec::new();
        let mut i: usize = 0;
        while i < fields.len()
            invariant
                i <= fields@.len(),
                want == Seq::new(fields@.len(), |j: int| hash_lookup(*self, key@, fields@[j]@)),
                frames_view(out@) == want.take(i as int),
                out@.len() == i,
            decreases fields@.len() - i,
        {
            let entry = match self.hash_get(key, fields[i].as_str()) {
                Some(f) => f,
                None => RespFrame::BulkString(BulkString::Null),
            };
            let ghost prev = out@;
            out.push(entry);
            i = i + 1;
            proof {
                lemma_frames_view_push(prev, out@.last());
                assert(want.take(i as int) =~= want.take(i - 1).push(want[i - 1]));
                assert(frames_view(out@) =~= want.take(i as int));
            }
        }
        proof {
            assert(want.take(want.len() as int) =~= want);
        }
        RespFrame::Array(crate::frame::RespArray::Normal(out))
    }

    /// Insert every member, counting only the genuinely new ones: the count
    /// is the number of distinct requested members that were not in the set
    /// before the call. A duplicate within the request counts once.
    pub fn set_add(&mut self, key: &str, members: Vec<String>) -> (count: i64)
        requires
            members@.len() <= i64::MAX,
        ensures
            members@.len() == 0 ==> sets_of(*final(self)) == sets_of(*old(self)),
            members@.len() > 0 ==> sets_of(*final(self)) == sets_of(*old(self)).insert(
                key@,
                set_at(*old(self), key@).union(views_of(members@).to_set()),
            ),
            count == views_of(members@).to_set().difference(set_at(*old(self), key@)).len(),
            strings_of(*final(self)) == strings_of(*old(self)),
            hashes_of(*final(self)) == hashes_of(*old(self)),
    {
        let ghost base = set_at(*old(self), key@);
        proof {
            assert(members@.take(0) =~= Seq::<String>::empty());
            assert(views_of(Seq::<String>::empty()) =~= Seq::<Seq<char>>::empty());
            assert(views_of(members@.take(0)).to_set() =~= Set::<Seq<char>>::empty());
            assert(views_of(members@.take(0)).to_set().difference(base) =~= Set::<
                Seq<char>,
            >::empty());
        }
        let mut count: i64 = 0;
        let mut i: usize = 0;
        while i < members.len()
            invariant
                i <= members@.len(),
                members@.len() <= i64::MAX,
                base == set_at(*old(self), key@),
                i == 0 ==> sets_of(*self) == sets_of(*old(self)),
                i > 0 ==> sets_of(*self) == sets_of(*old(self)).insert(
                    key@,
                    base.union(views_of(members@.take(i as int)).to_set()),
                ),
                count == views_of(members@.take(i as int)).to_set().difference(base).len(),
                count <= i,
                strings_of(*self) == strings_of(*old(self)),
                hashes_of(*self) == hashes_of(*old(self)),
            decreases members@.len() - i,
        {
            let member = members[i].clone();
            let ghost mv = member@;
            let ghost done = views_of(members@.take(i as int)).to_set();
            let ghost mid = *self;
            proof {
                broadcast use vstd::seq_lib::seq_to_set_is_finite;

                if i == 0 {
                    assert(base.union(done) =~= base);
                } else {
                    assert(set_at(mid, key@) == base.union(done));
                }
            }
            let fresh = self.set_insert(key.to_owned(), member);
            if fresh {
                count = count + 1;
            }
            i = i + 1;
            proof {
                broadcast use vstd::seq_lib::seq_to_set_is_finite;

                lemma_views_take_step(members@, i as int);
                assert(views_of(members@.take(i as int)).to_set() =~= done.insert(mv));
                assert(base.union(done.insert(mv)) =~= base.union(done).insert(mv));
                assert(set_at(mid, key@) == base.union(done));
                assert(sets_of(*self) == sets_of(mid).insert(key@, base.union(done).insert(mv)));
                if i > 1 {
                    assert(sets_of(mid) == sets_of(*old(self)).insert(key@, base.union(done)));
                    assert(sets_of(*old(self)).insert(key@, base.union(done)).insert(
                        key@,
                        base.union(done).insert(mv),
                    ) =~= sets_of(*old(self)).insert(key@, base.union(done).insert(mv)));
                }
                lemma_count_step(done, base, mv);
            }
        }
        proof {
            assert(members@.take(members@.len() as int) =~= members@);
        }
        count
    }

    /// 1 if `member` is in the set under `key`, else 0 — also when the key
    /// itself is absent.
    pub fn set_is_member(&self, key: &str, member: &str) -> (r: RespFrame)
        ensures
            r@ == SpecFrame::Integer(
                if set_at(*self, key@).contains(member@) {
                    1int
                } else {
                    0int
                },
            ),
    {
        if self.set_contains(key, member) {
            RespFrame::Integer(1)
        } else {
            RespFrame::Integer(0)
        }
    }
}

impl Default for Backend {
    fn default() -> (r: Backend)
        ensures
            backend_empty(r),
    {
        Backend::new()
    }
}

/// The views of a sequence of strings.
pub open spec fn views_of(ss: Seq<String>) -> Seq<Seq<char>> {
    ss.map_values(|s: String| s@)
}

/// Extending the processed prefix by one member extends its view set by
/// that member's view.
proof fn lemma_views_take_step(ss: Seq<String>, i: int)
    requires
        0 < i <= ss.len(),
    ensures
        views_of(ss.take(i)).to_set() == views_of(ss.take(i - 1)).to_set().insert(ss[i - 1]@),
{
    broadcast use vstd::seq_lib::group_to_multiset_ensures;

    assert(ss.take(i) =~= ss.take(i - 1).push(ss[i - 1]));
    assert(views_of(ss.take(i)) =~= views_of(ss.take(i - 1)).push(ss[i - 1]@));
    assert(views_of(ss.take(i)).to_set() =~= views_of(ss.take(i - 1)).to_set().insert(
        ss[i - 1]@,
    )) by {
        let a = views_of(ss.take(i - 1));
        let x = ss[i - 1]@;
        assert forall|m: Seq<char>| #[trigger] a.push(x).to_set().contains(m) implies a.to_set()
            .insert(x).contains(m) by {
            if m != x {
                let idx = choose|idx: int| 0 <= idx < a.push(x).len() && a.push(x)[idx] == m;
                assert(a[idx] == m);
            }
        }
        assert forall|m: Seq<char>| a.to_set().insert(x).contains(m) implies #[trigger] a.push(
            x,
        ).to_set().contains(m) by {
            if m == x {
                assert(a.push(x)[a.len() as int] == x);
            } else {
                let idx = choose|idx: int| 0 <= idx < a.len() && a[idx] == m;
                assert(a.push(x)[idx] == m);
            }
        }
    }
}

/// How the new-member count grows in one step: by one exactly when the
/// member is neither already stored nor already seen in this request.
proof fn lemma_count_step(done: Set<Seq<char>>, base: Set<Seq<char>>, mv: Seq<char>)
    requires
        done.finite(),
    ensures
        done.insert(mv).difference(base).len() == done.difference(base).len() + (
        if !base.contains(mv) && !done.contains(mv) {
            1int
        } else {
            0int
        }),
        done.insert(mv).difference(base).finite(),
{
    let d0 = done.difference(base);
    let d1 = done.insert(mv).difference(base);
    assert(d0.finite()) by {
        vstd::set_lib::lemma_len_subset(d0, done);
    }
    if base.contains(mv) {
        assert(d1 =~= d0);
    } else if done.contains(mv) {
        assert(d1 =~= d0);
    } else {
        assert(d1 =~= d0.insert(mv));
    }
}

} // verus!
