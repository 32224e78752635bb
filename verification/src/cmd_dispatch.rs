//! Turning a generic frame into a typed command by its name, and running a
//! command against the store: one closed, exhaustively-matched dispatch.
use vstd::prelude::*;

use crate::backend::Backend;
use crate::cmd::{arr_frames, bytes_eq, is_name, spec_unsupported, upper_vec, view_items, Command,
    CommandError, Echo, HashGet, HashGetAll, HashMultiGet, HashSet, SetAdd, SetIsMember,
    SetMembers, StringGet, StringSet, Unsupported};
use crate::cmd_echo::{echo_ok, echo_post, spec_name_echo};
use crate::cmd_hash::{hget_ok, hget_post, hgetall_ok, hgetall_post, hmget_ok, hmget_post,
    hset_ok, hset_post, spec_name_hget, spec_name_hgetall, spec_name_hmget, spec_name_hset};
use crate::cmd_set::{sadd_ok, sadd_post, sismember_ok, sismember_post, smembers_ok,
    smembers_post, spec_name_sadd, spec_name_sismember, spec_name_smembers};
use crate::cmd_string::{get_ok, get_post, set_ok, set_post, spec_name_get, spec_name_set};
use crate::frame::{frames_view_index, frames_view_len, BulkString, RespArray, RespFrame,
    SpecFrame};

verus! {

/// The first element names no supported command, though it is a bulk
/// string: the request becomes `Unsupported` rather than an error.
pub open spec fn unknown_name(items: Seq<SpecFrame>) -> bool {
    &&& items.len() > 0
    &&& items[0] is Bulk
    &&& !is_name(items, 0, spec_name_echo())
    &&& !is_name(items, 0, spec_name_get())
    &&& !is_name(items, 0, spec_name_set())
    &&& !is_name(items, 0, spec_name_hget())
    &&& !is_name(items, 0, spec_name_hset())
    &&& !is_name(items, 0, spec_name_hgetall())
    &&& !is_name(items, 0, spec_name_hmget())
    &&& !is_name(items, 0, spec_name_sadd())
    &&& !is_name(items, 0, spec_name_sismember())
    &&& !is_name(items, 0, spec_name_smembers())
}

/// What building a command from the elements of an array frame yields,
/// name by name.
pub open spec fn parse_dispatch(items: Seq<SpecFrame>, r: Result<Command, CommandError>) -> bool {
    &&& (items.len() == 0 || !(items[0] is Bulk)) ==> (r matches Err(e) && e is InvalidCommand)
    &&& is_name(items, 0, spec_name_echo()) ==> {
        &&& r is Ok <==> echo_ok(items)
        &&& r matches Ok(c) ==> c is Echo
        &&& r matches Err(e) ==> e is InvalidArgument
    }
    &&& is_name(items, 0, spec_name_get()) ==> {
        &&& r is Ok <==> get_ok(items)
        &&& r matches Ok(c) ==> c is StringGet
        &&& r matches Err(e) ==> e is InvalidArgument
    }
    &&& is_name(items, 0, spec_name_set()) ==> {
        &&& r is Ok <==> set_ok(items)
        &&& r matches Ok(c) ==> c is StringSet
        &&& r matches Err(e) ==> e is InvalidArgument
    }
    &&& is_name(items, 0, spec_name_hget()) ==> {
        &&& r is Ok <==> hget_ok(items)
        &&& r matches Ok(c) ==> c is HashGet
        &&& r matches Err(e) ==> e is InvalidArgument
    }
    &&& is_name(items, 0, spec_name_hset()) ==> {
        &&& r is Ok <==> hset_ok(items)
        &&& r matches Ok(c) ==> c is HashSet
        &&& r matches Err(e) ==> e is InvalidArgument
    }
    &&& is_name(items, 0, spec_name_hgetall()) ==> {
        &&& r is Ok <==> hgetall_ok(items)
        &&& r matches Ok(c) ==> c is HashGetAll
        &&& r matches Err(e) ==> e is InvalidArgument
    }
    &&& is_name(items, 0, spec_name_hmget()) ==> {
        &&& r is Ok <==> hmget_ok(items)
        &&& r matches Ok(c) ==> c is HashMultiGet
        &&& r matches Err(e) ==> e is InvalidArgument
    }
    &&& is_name(items, 0, spec_name_sadd()) ==> {
        &&& r is Ok <==> sadd_ok(items)
        &&& r matches Ok(c) ==> c is SetAdd
        &&& r matches Err(e) ==> e is InvalidArgument
    }
    &&& is_name(items, 0, spec_name_sismember()) ==> {
        &&& r is Ok <==> sismember_ok(items)
        &&& r matches Ok(c) ==> c is SetIsMember
        &&& r matches Err(e) ==> e is InvalidArgument
    }
    &&& is_name(items, 0, spec_name_smembers()) ==> {
        &&& r is Ok <==> smembers_ok(items)
        &&& r matches Ok(c) ==> c is SetMembers
        &&& r matches Err(e) ==> e is InvalidArgument
    }
    &&& unknown_name(items) ==> (r matches Ok(c) && c is Unsupported)
}

/// A command whose execution stays inside the machine's counting range:
/// only SADD carries a count that must fit a reply integer.
pub open spec fn command_wf(c: Command) -> bool {
    match c {
        Command::SetAdd(s) => s.members@.len() <= i64::MAX,
        _ => true,
    }
}

impl Command {
    /// Build a typed command from an array frame by its leading name; an
    /// unrecognized name becomes `Unsupported`, never an error.
    pub fn try_from_array(v: RespArray) -> (r: Result<Command, CommandError>)
        ensures
            parse_dispatch(view_items(v), r),
    {
        proof {
            frames_view_len(arr_frames(v));
        }
        let up: Option<Vec<u8>> = match &v {
            RespArray::Normal(items) => {
                if items.len() > 0 {
                    proof {
                        frames_view_index(items@, 0);
                    }
                    match &items[0] {
                        RespFrame::BulkString(BulkString::Normal(d)) => Some(upper_vec(d)),
                        _ => None,
                    }
                } else {
                    None
                }
            },
            RespArray::Null => None,
        };
        let u = match up {
            Some(u) => u,
            None => {
                return Err(
                    CommandError::InvalidCommand(
                        "command must start with a bulk-string name".to_owned(),
                    ),
                );
            },
        };
        if bytes_eq(&u, &crate::cmd_echo::name_echo()) {
            match Echo::try_from(v) {
                Ok(c) => Ok(Command::Echo(c)),
                Err(e) => Err(e),
            }
        } else if bytes_eq(&u, &crate::cmd_string::name_get()) {
            match StringGet::try_from(v) {
                Ok(c) => Ok(Command::StringGet(c)),
                Err(e) => Err(e),
            }
        } else if bytes_eq(&u, &crate::cmd_string::name_set()) {
            match StringSet::try_from(v) {
                Ok(c) => Ok(Command::StringSet(c)),
                Err(e) => Err(e),
            }
        } else if bytes_eq(&u, &crate::cmd_hash::name_hget()) {
            match HashGet::try_from(v) {
                Ok(c) => Ok(Command::HashGet(c)),
                Err(e) => Err(e),
            }
        } else if bytes_eq(&u, &crate::cmd_hash::name_hset()) {
            match HashSet::try_from(v) {
                Ok(c) => Ok(Command::HashSet(c)),
                Err(e) => Err(e),
            }
        } else if bytes_eq(&u, &crate::cmd_hash::name_hgetall()) {
            match HashGetAll::try_from(v) {
                Ok(c) => Ok(Command::HashGetAll(c)),
                Err(e) => Err(e),
            }
        } else if bytes_eq(&u, &crate::cmd_hash::name_hmget()) {
            match HashMultiGet::try_from(v) {
                Ok(c) => Ok(Command::HashMultiGet(c)),
                Err(e) => Err(e),
            }
        } else if bytes_eq(&u, &crate::cmd_set::name_sadd()) {
            match SetAdd::try_from(v) {
                Ok(c) => Ok(Command::SetAdd(c)),
                Err(e) => Err(e),
            }
        } else if bytes_eq(&u, &crate::cmd_set::name_sismember()) {
            match SetIsMember::try_from(v) {
                Ok(c) => Ok(Command::SetIsMember(c)),
                Err(e) => Err(e),
            }
        } else if bytes_eq(&u, &crate::cmd_set::name_smembers()) {
            match SetMembers::try_from(v) {
                Ok(c) => Ok(Command::SetMembers(c)),
                Err(e) => Err(e),
            }
        } else {
            Ok(Command::Unsupported(Unsupported))
        }
    }

    /// Build a typed command from any frame: only an array frame can be a
    /// command.
    pub fn try_from(f: RespFrame) -> (r: Result<Command, CommandError>)
        ensures
            f matches RespFrame::Array(a) ==> parse_dispatch(view_items(a), r),
            !(f matches RespFrame::Array(_a)) ==> (r matches Err(e) && e is InvalidCommand),
    {
        match f {
            RespFrame::Array(a) => Command::try_from_array(a),
            _ => Err(CommandError::InvalidCommand("command must be an array".to_owned())),
        }
    }

    /// Execute the command against the store: one exhaustive match, one
    /// arm per operation, each with the contract its own module states.
    pub fn execute(self, backend: &mut Backend) -> (r: RespFrame)
        requires
            command_wf(self),
        ensures
            self matches Command::Echo(c) ==> echo_post(c, *old(backend), *final(backend), r),
            self matches Command::StringGet(c) ==> get_post(c, *old(backend), *final(backend), r),
            self matches Command::StringSet(c) ==> set_post(c, *old(backend), *final(backend), r),
            self matches Command::HashGet(c) ==> hget_post(c, *old(backend), *final(backend), r),
            self matches Command::HashSet(c) ==> hset_post(c, *old(backend), *final(backend), r),
            self matches Command::HashGetAll(c) ==> hgetall_post(
                c,
                *old(backend),
                *final(backend),
                r,
            ),
            self matches Command::HashMultiGet(c) ==> hmget_post(
                c,
                *old(backend),
                *final(backend),
                r,
            ),
            self matches Command::SetAdd(c) ==> sadd_post(c, *old(backend), *final(backend), r),
            self matches Command::SetIsMember(c) ==> sismember_post(
                c,
                *old(backend),
                *final(backend),
                r,
            ),
            self matches Command::SetMembers(c) ==> smembers_post(
                c,
                *old(backend),
                *final(backend),
                r,
            ),
            self matches Command::Unsupported(_c) ==> r@ == spec_unsupported()
                && crate::backend::backend_unchanged(*old(backend), *final(backend)),
    {
        match self {
            Command::Echo(c) => c.execute(backend),
            Command::StringGet(c) => c.execute(backend),
            Command::StringSet(c) => c.execute(backend),
            Command::HashGet(c) => c.execute(backend),
            Command::HashSet(c) => c.execute(backend),
            Command::HashGetAll(c) => c.execute(backend),
            Command::HashMultiGet(c) => c.execute(backend),
            Command::SetAdd(c) => c.execute(backend),
            Command::SetIsMember(c) => c.execute(backend),
            Command::SetMembers(c) => c.execute(backend),
            Command::Unsupported(c) => c.execute(backend),
        }
    }
}

impl Unsupported {
    /// The fixed reply for a recognized-as-unknown command name; the store
    /// is not touched.
    pub fn execute(self, backend: &mut Backend) -> (r: RespFrame)
        ensures
            r@ == spec_unsupported(),
            crate::backend::backend_unchanged(*old(backend), *final(backend)),
    {
        crate::cmd::resp_unsupported()
    }
}

} // verus!
