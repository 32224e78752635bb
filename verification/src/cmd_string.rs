//! GET and SET: the single-value string key space.
use vstd::prelude::*;

use crate::backend::{backend_unchanged, hashes_of, sets_of, strings_of, Backend};
use crate::cmd::{arg_ok, arg_str, arr_frames, extract_args, is_name, spec_ok, validate_command,
    view_items, CommandError, StringGet, StringSet};
use crate::frame::{frames_view_index, frames_view_len, BulkString, RespArray, RespFrame,
    SpecFrame};

verus! {

pub open spec fn spec_name_get() -> Seq<u8> {
    seq![71u8, 69u8, 84u8]
}

pub(crate) fn name_get() -> (r: Vec<u8>)
    ensures
        r@ == spec_name_get(),
{
    let v: Vec<u8> = vec![71u8, 69u8, 84u8];
    proof {
        assert(v@ =~= spec_name_get());
    }
    v
}

pub open spec fn spec_name_set() -> Seq<u8> {
    seq![83u8, 69u8, 84u8]
}

pub(crate) fn name_set() -> (r: Vec<u8>)
    ensures
        r@ == spec_name_set(),
{
    let v: Vec<u8> = vec![83u8, 69u8, 84u8];
    proof {
        assert(v@ =~= spec_name_set());
    }
    v
}

/// The shape a GET request must have: the name, then the key.
pub open spec fn get_ok(items: Seq<SpecFrame>) -> bool {
    items.len() == 2 && is_name(items, 0, spec_name_get()) && arg_ok(items, 1)
}

/// The shape a SET request must have: the name, the key, then any frame.
pub open spec fn set_ok(items: Seq<SpecFrame>) -> bool {
    items.len() == 3 && is_name(items, 0, spec_name_set()) && arg_ok(items, 1)
}

/// What executing GET does: nothing to the store; the reply is the stored
/// frame, or the null bulk string when the key is absent.
pub open spec fn get_post(c: StringGet, b0: Backend, b1: Backend, r: RespFrame) -> bool {
    backend_unchanged(b0, b1) && r@ == (if strings_of(b0).contains_key(c.key@) {
        strings_of(b0)[c.key@]
    } else {
        SpecFrame::BulkNull
    })
}

/// What executing SET does: overwrite the key in the string space, leave
/// the other spaces alone, and reply OK.
pub open spec fn set_post(c: StringSet, b0: Backend, b1: Backend, r: RespFrame) -> bool {
    &&& strings_of(b1) == strings_of(b0).insert(c.key@, c.value@)
    &&& hashes_of(b1) == hashes_of(b0)
    &&& sets_of(b1) == sets_of(b0)
    &&& r@ == spec_ok()
}

impl StringGet {
    /// Build a GET command from an array frame, if and only if it has
    /// exactly the right shape.
    pub fn try_from(v: RespArray) -> (r: Result<StringGet, CommandError>)
        ensures
            r is Ok <==> get_ok(view_items(v)),
            r matches Ok(c) ==> c.key@ == arg_str(view_items(v), 1),
            r matches Err(e) ==> ((e is InvalidCommand) <==> (view_items(v).len() == 2 && !is_name(
                view_items(v),
                0,
                spec_name_get(),
            ))),
    {
        proof {
            frames_view_len(arr_frames(v));
        }
        let names: Vec<Vec<u8>> = vec![name_get()];
        proof {
            crate::cmd::lemma_single_name(view_items(v), names@, spec_name_get());
        }
        match validate_command(&v, &names, Some(1)) {
            Ok(()) => {},
            Err(e) => {
                return Err(e);
            },
        }
        proof {
            frames_view_index(arr_frames(v), 1);
        }
        let mut args = match extract_args(v, 1) {
            Ok(a) => a,
            Err(e) => {
                return Err(e);
            },
        };
        let first = args.remove(0);
        proof {
            assert(first == arr_frames(v)[1]);
            assert(view_items(v)[1] == crate::frame::frame_view(first));
        }
        match first {
            RespFrame::BulkString(BulkString::Normal(data)) => {
                match crate::cmd::utf8_string(data) {
                    Some(s) => Ok(StringGet { key: s }),
                    None => Err(CommandError::InvalidArgument("key is not valid text".to_owned())),
                }
            },
            _ => Err(CommandError::InvalidArgument("key must be a bulk string".to_owned())),
        }
    }

    /// Look the key up; a missing key replies with the null bulk string.
    pub fn execute(self, backend: &mut Backend) -> (r: RespFrame)
        ensures
            get_post(self, *old(backend), *final(backend), r),
    {
        match backend.string_get(self.key.as_str()) {
            Some(f) => f,
            None => RespFrame::BulkString(BulkString::Null),
        }
    }
}

impl StringSet {
    /// Build a SET command from an array frame, if and only if it has
    /// exactly the right shape; the stored value may be any frame.
    pub fn try_from(v: RespArray) -> (r: Result<StringSet, CommandError>)
        ensures
            r is Ok <==> set_ok(view_items(v)),
            r matches Ok(c) ==> c.key@ == arg_str(view_items(v), 1) && c.value@ == view_items(
                v,
            )[2],
            r matches Err(e) ==> ((e is InvalidCommand) <==> (view_items(v).len() == 3 && !is_name(
                view_items(v),
                0,
                spec_name_set(),
            ))),
    {
        proof {
            frames_view_len(arr_frames(v));
        }
        let names: Vec<Vec<u8>> = vec![name_set()];
        proof {
            crate::cmd::lemma_single_name(view_items(v), names@, spec_name_set());
        }
        match validate_command(&v, &names, Some(2)) {
            Ok(()) => {},
            Err(e) => {
                return Err(e);
            },
        }
        proof {
            frames_view_index(arr_frames(v), 1);
            frames_view_index(arr_frames(v), 2);
        }
        let mut args = match extract_args(v, 1) {
            Ok(a) => a,
            Err(e) => {
                return Err(e);
            },
        };
        let first = args.remove(0);
        let value = args.remove(0);
        proof {
            assert(first == arr_frames(v)[1]);
            assert(value == arr_frames(v)[2]);
            assert(view_items(v)[1] == crate::frame::frame_view(first));
            assert(view_items(v)[2] == crate::frame::frame_view(value));
        }
        match first {
            RespFrame::BulkString(BulkString::Normal(data)) => {
                match crate::cmd::utf8_string(data) {
                    Some(s) => Ok(StringSet { key: s, value }),
                    None => Err(CommandError::InvalidArgument("key is not valid text".to_owned())),
                }
            },
            _ => Err(CommandError::InvalidArgument("key must be a bulk string".to_owned())),
        }
    }

    /// Store the value under the key, overwriting, and reply OK.
    pub fn execute(self, backend: &mut Backend) -> (r: RespFrame)
        ensures
            set_post(self, *old(backend), *final(backend), r),
    {
        backend.string_set(self.key, self.value);
        crate::cmd::resp_ok()
    }
}

} // verus!
