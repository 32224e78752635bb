//! ECHO: return the single argument unchanged as a bulk string.
use vstd::prelude::*;
use vstd::slice::slice_to_vec;
use vstd::utf8::encode_utf8;

use crate::backend::{backend_unchanged, Backend};
use crate::cmd::{arg_ok, arg_str, arr_frames, extract_args, is_name, validate_command, view_items,
    CommandError, Echo};
use crate::frame::{frames_view_index, frames_view_len, BulkString, RespArray, RespFrame,
    SpecFrame};

verus! {

pub open spec fn spec_name_echo() -> Seq<u8> {
    seq![69u8, 67u8, 72u8, 79u8]
}

pub(crate) fn name_echo() -> (r: Vec<u8>)
    ensures
        r@ == spec_name_echo(),
{
    let v: Vec<u8> = vec![69u8, 67u8, 72u8, 79u8];
    proof {
        assert(v@ =~= spec_name_echo());
    }
    v
}

/// The shape an ECHO request must have: the name, then one text argument.
pub open spec fn echo_ok(items: Seq<SpecFrame>) -> bool {
    items.len() == 2 && is_name(items, 0, spec_name_echo()) && arg_ok(items, 1)
}

/// What executing ECHO does: nothing to the store; the reply is the
/// message's bytes as a bulk string.
pub open spec fn echo_post(c: Echo, b0: Backend, b1: Backend, r: RespFrame) -> bool {
    backend_unchanged(b0, b1) && r@ == SpecFrame::Bulk(encode_utf8(c.message@))
}

impl Echo {
    /// Build an ECHO command from an array frame, if and only if it has
    /// exactly the right shape.
    pub fn try_from(v: RespArray) -> (r: Result<Echo, CommandError>)
        ensures
            r is Ok <==> echo_ok(view_items(v)),
            r matches Ok(c) ==> c.message@ == arg_str(view_items(v), 1),
            r matches Err(e) ==> ((e is InvalidCommand) <==> (view_items(v).len() == 2 && !is_name(
                view_items(v),
                0,
                spec_name_echo(),
            ))),
    {
        proof {
            frames_view_len(arr_frames(v));
        }
        let names: Vec<Vec<u8>> = vec![name_echo()];
        proof {
            crate::cmd::lemma_single_name(view_items(v), names@, spec_name_echo());
        }
        match validate_command(&v, &names, Some(1)) {
            Ok(()) => {},
            Err(e) => {
                return Err(e);
            },
        }
        proof {
            frames_view_index(arr_frames(v), 1);
        }
        let mut args = match extract_args(v, 1) {
            Ok(a) => a,
            Err(e) => {
                return Err(e);
            },
        };
        let first = args.remove(0);
        proof {
            assert(first == arr_frames(v)[1]);
            assert(view_items(v)[1] == crate::frame::frame_view(first));
        }
        match first {
            RespFrame::BulkString(BulkString::Normal(data)) => {
                match crate::cmd::utf8_string(data) {
                    Some(s) => Ok(Echo { message: s }),
                    None => Err(
                        CommandError::InvalidArgument("argument is not valid text".to_owned()),
                    ),
                }
            },
            _ => Err(CommandError::InvalidArgument("argument must be a bulk string".to_owned())),
        }
    }

    /// Return the message unchanged, as a bulk string; the store is not
    /// touched.
    pub fn execute(self, backend: &mut Backend) -> (r: RespFrame)
        ensures
            echo_post(self, *old(backend), *final(backend), r),
    {
        let bytes = slice_to_vec(self.message.as_str().as_bytes());
        RespFrame::BulkString(BulkString::Normal(bytes))
    }
}

} // verus!
