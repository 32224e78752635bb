//! SADD, SISMEMBER and SMEMBERS: the set key space.
use vstd::prelude::*;
use vstd::slice::slice_to_vec;
use vstd::utf8::encode_utf8;

use crate::backend::{backend_unchanged, hashes_of, set_at, sets_of, strings_of, views_of, Backend};
use crate::cmd::{all_text, arg_ok, arg_str, arr_frames, extract_args, is_name, texts_of, to_texts,
    validate_command, view_items, CommandError, SetAdd, SetIsMember, SetMembers};
use crate::frame::{frames_view, frames_view_index, frames_view_len, frames_view_skip,
    lemma_frames_view_push, BulkString, RespArray, RespFrame, SpecFrame};

verus! {

pub open spec fn spec_name_sadd() -> Seq<u8> {
    seq![83u8, 65u8, 68u8, 68u8]
}

pub(crate) fn name_sadd() -> (r: Vec<u8>)
    ensures
        r@ == spec_name_sadd(),
{
    let v: Vec<u8> = vec![83u8, 65u8, 68u8, 68u8];
    proof {
        assert(v@ =~= spec_name_sadd());
    }
    v
}

pub open spec fn spec_name_sismember() -> Seq<u8> {
    seq![83u8, 73u8, 83u8, 77u8, 69u8, 77u8, 66u8, 69u8, 82u8]
}

pub(crate) fn name_sismember() -> (r: Vec<u8>)
    ensures
        r@ == spec_name_sismember(),
{
    let v: Vec<u8> = vec![83u8, 73u8, 83u8, 77u8, 69u8, 77u8, 66u8, 69u8, 82u8];
    proof {
        assert(v@ =~= spec_name_sismember());
    }
    v
}

pub open spec fn spec_name_smembers() -> Seq<u8> {
    seq![83u8, 77u8, 69u8, 77u8, 66u8, 69u8, 82u8, 83u8]
}

pub(crate) fn name_smembers() -> (r: Vec<u8>)
    ensures
        r@ == spec_name_smembers(),
{
    let v: Vec<u8> = vec![83u8, 77u8, 69u8, 77u8, 66u8, 69u8, 82u8, 83u8];
    proof {
        assert(v@ =~= spec_name_smembers());
    }
    v
}

/// The shape an SADD request must have: the name, the key, then any number
/// of text members.
pub open spec fn sadd_ok(items: Seq<SpecFrame>) -> bool {
    items.len() >= 2 && is_name(items, 0, spec_name_sadd()) && arg_ok(items, 1) && all_text(
        items.skip(2),
    )
}

/// The shape an SISMEMBER request must have: the name, the key, the member.
pub open spec fn sismember_ok(items: Seq<SpecFrame>) -> bool {
    items.len() == 3 && is_name(items, 0, spec_name_sismember()) && arg_ok(items, 1) && arg_ok(
        items,
        2,
    )
}

/// The shape an SMEMBERS request must have: the name, then the key.
pub open spec fn smembers_ok(items: Seq<SpecFrame>) -> bool {
    items.len() == 2 && is_name(items, 0, spec_name_smembers()) && arg_ok(items, 1)
}

/// What executing SADD does: the requested members join the set under the
/// key (created on first write), and the reply counts the distinct members
/// that were genuinely new; duplicates in the request count once.
pub open spec fn sadd_post(c: SetAdd, b0: Backend, b1: Backend, r: RespFrame) -> bool {
    &&& c.members@.len() == 0 ==> sets_of(b1) == sets_of(b0)
    &&& c.members@.len() > 0 ==> sets_of(b1) == sets_of(b0).insert(
        c.key@,
        set_at(b0, c.key@).union(views_of(c.members@).to_set()),
    )
    &&& r@ == SpecFrame::Integer(
        views_of(c.members@).to_set().difference(set_at(b0, c.key@)).len() as int,
    )
    &&& strings_of(b1) == strings_of(b0)
    &&& hashes_of(b1) == hashes_of(b0)
}

/// What executing SISMEMBER does: nothing to the store; the reply is 1 or
/// 0 for membership, with an absent key counting as an empty set.
pub open spec fn sismember_post(c: SetIsMember, b0: Backend, b1: Backend, r: RespFrame) -> bool {
    backend_unchanged(b0, b1) && r@ == SpecFrame::Integer(
        if set_at(b0, c.key@).contains(c.member@) {
            1int
        } else {
            0int
        },
    )
}

/// One bulk-string frame per member.
pub open spec fn members_frames(ms: Seq<Seq<char>>) -> Seq<SpecFrame> {
    ms.map_values(|m: Seq<char>| SpecFrame::Bulk(encode_utf8(m)))
}

/// `ms` lists every member of `s` exactly once, in some order.
pub open spec fn members_listing(s: Set<Seq<char>>, ms: Seq<Seq<char>>) -> bool {
    &&& forall|i: int, j: int| 0 <= i < j < ms.len() ==> #[trigger] ms[i] != #[trigger] ms[j]
    &&& forall|i: int| 0 <= i < ms.len() ==> s.contains(#[trigger] ms[i])
    &&& forall|m: Seq<char>| s.contains(m) ==> ms.contains(m)
}

/// What executing SMEMBERS does: nothing to the store; an absent key
/// replies with the null array, a present key with its members as bulk
/// strings, each exactly once, in no promised order.
pub open spec fn smembers_post(c: SetMembers, b0: Backend, b1: Backend, r: RespFrame) -> bool {
    &&& backend_unchanged(b0, b1)
    &&& !sets_of(b0).contains_key(c.key@) ==> r@ == SpecFrame::ArrayNull
    &&& sets_of(b0).contains_key(c.key@) ==> exists|ms: Seq<Seq<char>>|
        members_listing(sets_of(b0)[c.key@], ms) && r@ == SpecFrame::Array(members_frames(ms))
}

impl SetAdd {
    /// Build an SADD command from an array frame, if and only if it has
    /// a key and any number of members, all text.
    pub fn try_from(v: RespArray) -> (r: Result<SetAdd, CommandError>)
        ensures
            r is Ok <==> sadd_ok(view_items(v)),
            r matches Ok(c) ==> c.key@ == arg_str(view_items(v), 1) && views_of(c.members@)
                == texts_of(view_items(v).skip(2)),
            r matches Err(e) ==> ((e is InvalidCommand) <==> !is_name(
                view_items(v),
                0,
                spec_name_sadd(),
            )),
    {
        proof {
            frames_view_len(arr_frames(v));
        }
        let names: Vec<Vec<u8>> = vec![name_sadd()];
        proof {
            crate::cmd::lemma_single_name(view_items(v), names@, spec_name_sadd());
        }
        match validate_command(&v, &names, None) {
            Ok(()) => {},
            Err(e) => {
                return Err(e);
            },
        }
        let mut args = match extract_args(v, 1) {
            Ok(a) => a,
            Err(e) => {
                return Err(e);
            },
        };
        if args.len() == 0 {
            return Err(CommandError::InvalidArgument("missing key".to_owned()));
        }
        proof {
            frames_view_index(arr_frames(v), 1);
        }
        let keyf = args.remove(0);
        proof {
            assert(keyf == arr_frames(v)[1]);
            assert(view_items(v)[1] == crate::frame::frame_view(keyf));
            assert(args@ =~= arr_frames(v).skip(2));
            frames_view_skip(arr_frames(v), 2);
        }
        let key = match keyf {
            RespFrame::BulkString(BulkString::Normal(data)) => {
                match crate::cmd::utf8_string(data) {
                    Some(s) => s,
                    None => {
                        return Err(
                            CommandError::InvalidArgument("key is not valid text".to_owned()),
                        );
                    },
                }
            },
            _ => {
                return Err(CommandError::InvalidArgument("key must be a bulk string".to_owned()));
            },
        };
        match to_texts(args) {
            Some(members) => Ok(SetAdd { key, members }),
            None => Err(CommandError::InvalidArgument("member is not valid text".to_owned())),
        }
    }

    /// Add the members, counting only genuinely new ones.
    pub fn execute(self, backend: &mut Backend) -> (r: RespFrame)
        requires
            self.members@.len() <= i64::MAX,
        ensures
            sadd_post(self, *old(backend), *final(backend), r),
    {
        let count = backend.set_add(self.key.as_str(), self.members);
        RespFrame::Integer(count)
    }
}

impl SetIsMember {
    /// Build an SISMEMBER command from an array frame, if and only if it
    /// has exactly a key and a member, both text.
    pub fn try_from(v: RespArray) -> (r: Result<SetIsMember, CommandError>)
        ensures
            r is Ok <==> sismember_ok(view_items(v)),
            r matches Ok(c) ==> c.key@ == arg_str(view_items(v), 1) && c.member@ == arg_str(
                view_items(v),
                2,
            ),
            r matches Err(e) ==> ((e is InvalidCommand) <==> (view_items(v).len() == 3 && !is_name(
                view_items(v),
                0,
                spec_name_sismember(),
            ))),
    {
        proof {
            frames_view_len(arr_frames(v));
        }
        let names: Vec<Vec<u8>> = vec![name_sismember()];
        proof {
            crate::cmd::lemma_single_name(view_items(v), names@, spec_name_sismember());
        }
        match validate_command(&v, &names, Some(2)) {
            Ok(()) => {},
            Err(e) => {
                return Err(e);
            },
        }
        proof {
            frames_view_index(arr_frames(v), 1);
            frames_view_index(arr_frames(v), 2);
        }
        let mut args = match extract_args(v, 1) {
            Ok(a) => a,
            Err(e) => {
                return Err(e);
            },
        };
        let keyf = args.remove(0);
        let memberf = args.remove(0);
        proof {
            assert(keyf == arr_frames(v)[1]);
            assert(memberf == arr_frames(v)[2]);
            assert(view_items(v)[1] == crate::frame::frame_view(keyf));
            assert(view_items(v)[2] == crate::frame::frame_view(memberf));
        }
        let key = match keyf {
            RespFrame::BulkString(BulkString::Normal(data)) => {
                match crate::cmd::utf8_string(data) {
                    Some(s) => s,
                    None => {
                        return Err(
                            CommandError::InvalidArgument("key is not valid text".to_owned()),
                        );
                    },
                }
            },
            _ => {
                return Err(CommandError::InvalidArgument("key must be a bulk string".to_owned()));
            },
        };
        match memberf {
            RespFrame::BulkString(BulkString::Normal(data)) => {
                match crate::cmd::utf8_string(data) {
                    Some(s) => Ok(SetIsMember { key, member: s }),
                    None => Err(
                        CommandError::InvalidArgument("member is not valid text".to_owned()),
                    ),
                }
            },
            _ => Err(CommandError::InvalidArgument("member must be a bulk string".to_owned())),
        }
    }

    /// Reply 1 or 0 for membership; the store is not touched.
    pub fn execute(self, backend: &mut Backend) -> (r: RespFrame)
        ensures
            sismember_post(self, *old(backend), *final(backend), r),
    {
        backend.set_is_member(self.key.as_str(), self.member.as_str())
    }
}

impl SetMembers {
    /// Build an SMEMBERS command from an array frame, if and only if it
    /// has exactly one text key.
    pub fn try_from(v: RespArray) -> (r: Result<SetMembers, CommandError>)
        ensures
            r is Ok <==> smembers_ok(view_items(v)),
            r matches Ok(c) ==> c.key@ == arg_str(view_items(v), 1),
            r matches Err(e) ==> ((e is InvalidCommand) <==> (view_items(v).len() == 2 && !is_name(
                view_items(v),
                0,
                spec_name_smembers(),
            ))),
    {
        proof {
            frames_view_len(arr_frames(v));
        }
        let names: Vec<Vec<u8>> = vec![name_smembers()];
        proof {
            crate::cmd::lemma_single_name(view_items(v), names@, spec_name_smembers());
        }
        match validate_command(&v, &names, Some(1)) {
            Ok(()) => {},
            Err(e) => {
                return Err(e);
            },
        }
        proof {
            frames_view_index(arr_frames(v), 1);
        }
        let mut args = match extract_args(v, 1) {
            Ok(a) => a,
            Err(e) => {
                return Err(e);
            },
        };
        let first = args.remove(0);
        proof {
            assert(first == arr_frames(v)[1]);
            assert(view_items(v)[1] == crate::frame::frame_view(first));
        }
        match first {
            RespFrame::BulkString(BulkString::Normal(data)) => {
                match crate::cmd::utf8_string(data) {
                    Some(s) => Ok(SetMembers { key: s }),
                    None => Err(CommandError::InvalidArgument("key is not valid text".to_owned())),
                }
            },
            _ => Err(CommandError::InvalidArgument("key must be a bulk string".to_owned())),
        }
    }

    /// Reply with the members as an array of bulk strings, or the null
    /// array when the key is absent; the store is not touched.
    pub fn execute(self, backend: &mut Backend) -> (r: RespFrame)
        ensures
            smembers_post(self, *old(backend), *final(backend), r),
    {
        match backend.set_members(self.key.as_str()) {
            None => RespFrame::Array(RespArray::Null),
            Some(ms) => {
                let ghost wit = views_of(ms@);
                let mut out: Vec<RespFrame> = Vec::new();
                let mut i: usize = 0;
                while i < ms.len()
                    invariant
                        i <= ms@.len(),
                        wit == views_of(ms@),
                        out@.len() == i,
                        frames_view(out@) == members_frames(wit.take(i as int)),
                    decreases ms@.len() - i,
                {
                    let bytes = slice_to_vec(ms[i].as_str().as_bytes());
                    let f = RespFrame::BulkString(BulkString::Normal(bytes));
                    let ghost prev = out@;
                    out.push(f);
                    i = i + 1;
                    proof {
                        lemma_frames_view_push(prev, f);
                        assert(wit.take(i as int) =~= wit.take(i - 1).push(wit[i - 1]));
                        assert(members_frames(wit.take(i as int)) =~= members_frames(
                            wit.take(i - 1),
                        ).push(SpecFrame::Bulk(encode_utf8(wit[i - 1])))) by {
                            let a = wit.take(i - 1);
                            let t = wit.take(i as int);
                            assert forall|j: int| 0 <= j < t.len() implies members_frames(t)[j]
                                == members_frames(a).push(
                                SpecFrame::Bulk(encode_utf8(wit[i - 1])),
                            )[j] by {
                                if j < i - 1 {
                                    assert(t[j] == a[j]);
                                }
                            }
                        }
                        assert(frames_view(out@) =~= members_frames(wit.take(i as int)));
                    }
                }
                proof {
                    assert(wit.take(wit.len() as int) =~= wit);
                    let s0 = sets_of(*old(backend))[self.key@];
                    assert(s0 == set_at(*old(backend), self.key@));
                    assert forall|i: int, j: int| 0 <= i < j < wit.len() implies #[trigger] wit[i]
                        != #[trigger] wit[j] by {
                        assert(wit[i] == ms@[i]@);
                        assert(wit[j] == ms@[j]@);
                    }
                    assert forall|i: int| 0 <= i < wit.len() implies s0.contains(
                        #[trigger] wit[i],
                    ) by {
                        assert(wit[i] == ms@[i]@);
                        assert(set_at(*old(backend), self.key@).contains(ms@[i]@));
                    }
                    assert forall|m: Seq<char>| s0.contains(m) implies wit.contains(m) by {
                        let idx = choose|idx: int| 0 <= idx < ms@.len() && ms@[idx]@ == m;
                        assert(wit[idx] == m);
                    }
                    assert(members_listing(s0, wit));
                }
                RespFrame::Array(RespArray::Normal(out))
            },
        }
    }
}

} // verus!
