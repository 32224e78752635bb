//! The command layer: typed commands, the shared validation of an array
//! frame against a command's name and arity, and the conversion of bulk
//! arguments into strings.
use vstd::prelude::*;
use vstd::utf8::{decode_utf8, valid_utf8};

use crate::frame::{frame_view, frames_view, frames_view_index, frames_view_len, spec_upper,
    BulkString, RespArray, RespFrame, SpecFrame};

verus! {

/// Why an array frame could not become a command: the name or shape is not
/// a command (`InvalidCommand`), or an argument has the wrong count, type
/// or encoding (`InvalidArgument`).
#[derive(Debug)]
pub enum CommandError {
    InvalidCommand(String),
    InvalidArgument(String),
}

#[derive(Debug, PartialEq)]
pub struct Echo {
    pub message: String,
}

#[derive(Debug, PartialEq)]
pub struct StringGet {
    pub key: String,
}

#[derive(Debug, PartialEq)]
pub struct StringSet {
    pub key: String,
    pub value: RespFrame,
}

#[derive(Debug, PartialEq)]
pub struct HashGet {
    pub key: String,
    pub field: String,
}

#[derive(Debug, PartialEq)]
pub struct HashSet {
    pub key: String,
    pub field: String,
    pub value: RespFrame,
}

#[derive(Debug, PartialEq)]
pub struct HashGetAll {
    pub key: String,
    pub sort: bool,
}

#[derive(Debug, PartialEq)]
pub struct HashMultiGet {
    pub key: String,
    pub fields: Vec<String>,
}

#[derive(Debug, PartialEq)]
pub struct SetAdd {
    pub key: String,
    pub members: Vec<String>,
}

#[derive(Debug, PartialEq)]
pub struct SetIsMember {
    pub key: String,
    pub member: String,
}

#[derive(Debug, PartialEq)]
pub struct SetMembers {
    pub key: String,
}

#[derive(Debug, PartialEq)]
pub struct Unsupported;

/// The closed set of supported operations, dispatched by one exhaustive
/// match; an unrecognized name becomes `Unsupported`, never an error.
#[derive(Debug)]
pub enum Command {
    Echo(Echo),
    StringGet(StringGet),
    StringSet(StringSet),
    HashGet(HashGet),
    HashSet(HashSet),
    HashGetAll(HashGetAll),
    HashMultiGet(HashMultiGet),
    SetAdd(SetAdd),
    SetIsMember(SetIsMember),
    SetMembers(SetMembers),
    Unsupported(Unsupported),
}

/// The frames an array holds; the null array holds none.
pub open spec fn arr_frames(v: RespArray) -> Seq<RespFrame> {
    match v {
        RespArray::Normal(items) => items@,
        RespArray::Null => Seq::empty(),
    }
}

/// The frame views an array holds.
pub open spec fn view_items(v: RespArray) -> Seq<SpecFrame> {
    frames_view(arr_frames(v))
}

/// ASCII uppercasing of a whole byte sequence.
pub open spec fn upper_bytes(b: Seq<u8>) -> Seq<u8> {
    b.map_values(|x: u8| spec_upper(x))
}

/// Element `i` is a bulk string that names the command `name`,
/// case-insensitively.
pub open spec fn is_name(items: Seq<SpecFrame>, i: int, name: Seq<u8>) -> bool {
    0 <= i < items.len() && items[i] is Bulk && upper_bytes(items[i]->Bulk_0) == name
}

/// Element `i` is a bulk string holding valid UTF-8: a usable text argument.
pub open spec fn arg_ok(items: Seq<SpecFrame>, i: int) -> bool {
    0 <= i < items.len() && items[i] is Bulk && valid_utf8(items[i]->Bulk_0)
}

/// The text of argument `i`.
pub open spec fn arg_str(items: Seq<SpecFrame>, i: int) -> Seq<char> {
    decode_utf8(items[i]->Bulk_0)
}

/// The arity rule: with a fixed count the array must hold exactly the
/// names followed by that many arguments; a variable-arity command skips
/// the check.
pub open spec fn arity_ok(items: Seq<SpecFrame>, names_len: int, n_args: Option<usize>) -> bool {
    match n_args {
        Some(k) => items.len() == names_len + k,
        None => true,
    }
}

/// All leading name positions match.
pub open spec fn names_ok(items: Seq<SpecFrame>, names: Seq<Seq<u8>>) -> bool {
    forall|i: int| 0 <= i < names.len() ==> is_name(items, i, #[trigger] names[i])
}

/// The views of a list of byte strings.
pub open spec fn byte_views(names: Seq<Vec<u8>>) -> Seq<Seq<u8>> {
    names.map_values(|n: Vec<u8>| n@)
}

/// For the common single-name command: the joint name check is exactly a
/// check of position 0 against that name.
pub proof fn lemma_single_name(items: Seq<SpecFrame>, names: Seq<Vec<u8>>, name: Seq<u8>)
    requires
        names.len() == 1,
        names[0]@ == name,
    ensures
        names_ok(items, byte_views(names)) <==> is_name(items, 0, name),
{
    assert(byte_views(names)[0] == name);
    if is_name(items, 0, name) {
        assert forall|i: int| 0 <= i < byte_views(names).len() implies is_name(
            items,
            i,
            #[trigger] byte_views(names)[i],
        ) by {
            assert(byte_views(names)[i] == name);
        }
    }
}

/// Whether two byte slices hold the same bytes.
pub(crate) fn bytes_eq(a: &Vec<u8>, b: &Vec<u8>) -> (r: bool)
    ensures
        r == (a@ == b@),
{
    if a.len() != b.len() {
        return false;
    }
    let mut i: usize = 0;
    while i < a.len()
        invariant
            i <= a@.len(),
            a@.len() == b@.len(),
            forall|j: int| 0 <= j < i ==> a@[j] == #[trigger] b@[j],
        decreases a@.len() - i,
    {
        if a[i] != b[i] {
            return false;
        }
        i = i + 1;
    }
    proof {
        assert(a@ =~= b@);
    }
    true
}

/// ASCII-uppercase a byte vector.
pub(crate) fn upper_vec(data: &Vec<u8>) -> (r: Vec<u8>)
    ensures
        r@ == upper_bytes(data@),
{
    match BulkString::new(crate::frame::clone_bytes(data)).to_ascii_uppercase() {
        BulkString::Normal(up) => up,
        BulkString::Null => Vec::new(),
    }
}

/// Relies on `String::from_utf8`: succeeds exactly on valid UTF-8 and
/// decodes it to the characters `vstd`'s UTF-8 model prescribes.
#[verifier::external_body]
pub(crate) fn utf8_string(bytes: Vec<u8>) -> (r: Option<String>)
    ensures
        r is Some <==> valid_utf8(bytes@),
        r matches Some(s) ==> s@ == decode_utf8(bytes@),
{
    String::from_utf8(bytes).ok()
}

/// The fixed "OK" reply.
pub fn resp_ok() -> (r: RespFrame)
    ensures
        r@ == spec_ok(),
{
    let data: Vec<u8> = vec![79u8, 75u8];
    proof {
        assert(data@ =~= seq![79u8, 75u8]);
    }
    RespFrame::SimpleString(data)
}

/// The fixed "UNSUPPORTED" reply for unrecognized command names.
pub fn resp_unsupported() -> (r: RespFrame)
    ensures
        r@ == spec_unsupported(),
{
    let data: Vec<u8> = vec![85u8, 78u8, 83u8, 85u8, 80u8, 80u8, 79u8, 82u8, 84u8, 69u8, 68u8];
    proof {
        assert(data@ =~= seq![85u8, 78u8, 83u8, 85u8, 80u8, 80u8, 79u8, 82u8, 84u8, 69u8, 68u8]);
    }
    RespFrame::SimpleString(data)
}

/// The view of the "UNSUPPORTED" reply.
pub open spec fn spec_unsupported() -> SpecFrame {
    SpecFrame::Simple(seq![85u8, 78u8, 83u8, 85u8, 80u8, 80u8, 79u8, 82u8, 84u8, 69u8, 68u8])
}

/// The view of the "OK" reply.
pub open spec fn spec_ok() -> SpecFrame {
    SpecFrame::Simple(seq![79u8, 75u8])
}

/// Check the shared validation contract: the arity rule first (wrong count
/// is `InvalidArgument`), then each leading name (a mismatch, a missing
/// element or a non-bulk element is `InvalidCommand`).
#[verifier::loop_isolation(false)]
pub fn validate_command(value: &RespArray, names: &Vec<Vec<u8>>, n_args: Option<usize>) -> (r:
    Result<(), CommandError>)
    ensures
        r is Ok <==> arity_ok(view_items(*value), names@.len() as int, n_args) && names_ok(
            view_items(*value),
            byte_views(names@),
        ),
        r matches Err(e) ==> ((e is InvalidArgument) <==> !arity_ok(
            view_items(*value),
            names@.len() as int,
            n_args,
        )),
{
    proof {
        frames_view_len(arr_frames(*value));
    }
    let len = match value {
        RespArray::Normal(items) => items.len(),
        RespArray::Null => 0,
    };
    if let Some(k) = n_args {
        if !(len >= names.len() && len - names.len() == k) {
            return Err(
                CommandError::InvalidArgument("wrong number of arguments".to_owned()),
            );
        }
    }
    let mut i: usize = 0;
    while i < names.len()
        invariant
            i <= names@.len(),
            forall|j: int| 0 <= j < i ==> is_name(view_items(*value), j, byte_views(names@)[j]),
        decreases names@.len() - i,
    {
        proof {
            frames_view_len(arr_frames(*value));
        }
        if i >= len {
            proof {
                assert(!is_name(view_items(*value), i as int, byte_views(names@)[i as int]));
            }
            return Err(CommandError::InvalidCommand("missing command name".to_owned()));
        }
        let items = match value {
            RespArray::Normal(items) => items,
            RespArray::Null => {
                proof {
                    assert(!is_name(view_items(*value), i as int, byte_views(names@)[i as int]));
                }
                return Err(CommandError::InvalidCommand("missing command name".to_owned()));
            },
        };
        proof {
            frames_view_index(items@, i as int);
        }
        match &items[i] {
            RespFrame::BulkString(BulkString::Normal(data)) => {
                let up = upper_vec(data);
                if !bytes_eq(&up, &names[i]) {
                    proof {
                        assert(view_items(*value)[i as int] == SpecFrame::Bulk(data@));
                        assert(byte_views(names@)[i as int] == names@[i as int]@);
                        assert(!is_name(view_items(*value), i as int, byte_views(names@)[i as int]));
                    }
                    return Err(
                        CommandError::InvalidCommand("unexpected command name".to_owned()),
                    );
                }
                proof {
                    assert(view_items(*value)[i as int] == SpecFrame::Bulk(data@));
                    assert(byte_views(names@)[i as int] == names@[i as int]@);
                    assert(is_name(view_items(*value), i as int, byte_views(names@)[i as int]));
                }
            },
            _ => {
                proof {
                    assert(view_items(*value)[i as int] == frame_view(items@[i as int]));
                    assert(!(view_items(*value)[i as int] is Bulk));
                    assert(!is_name(view_items(*value), i as int, byte_views(names@)[i as int]));
                }
                return Err(
                    CommandError::InvalidCommand(
                        "command name must be a bulk string".to_owned(),
                    ),
                );
            },
        }
        i = i + 1;
    }
    Ok(())
}

/// The arguments after position `start`, in order; an out-of-range start
/// yields no arguments.
pub open spec fn arr_tail(v: RespArray, start: int) -> Seq<RespFrame> {
    if start <= arr_frames(v).len() {
        arr_frames(v).skip(start)
    } else {
        Seq::empty()
    }
}

/// Every element is a bulk string holding valid UTF-8.
pub open spec fn all_text(items: Seq<SpecFrame>) -> bool {
    forall|i: int|
        0 <= i < items.len() ==> (#[trigger] items[i]) is Bulk && valid_utf8(items[i]->Bulk_0)
}

/// The decoded text of each element.
pub open spec fn texts_of(items: Seq<SpecFrame>) -> Seq<Seq<char>> {
    items.map_values(|f: SpecFrame| decode_utf8(f->Bulk_0))
}

/// Convert repeated arguments to strings: succeeds exactly when every one
/// is a bulk string holding valid UTF-8.
pub(crate) fn to_texts(args: Vec<RespFrame>) -> (r: Option<Vec<String>>)
    ensures
        ({
            let items = frames_view(args@);
            match r {
                Some(ss) => all_text(items) && crate::backend::views_of(ss@) == texts_of(items),
                None => !all_text(items),
            }
        }),
{
    proof {
        frames_view_len(args@);
    }
    let ghost items = frames_view(args@);
    let mut out: Vec<String> = Vec::new();
    let mut i: usize = 0;
    while i < args.len()
        invariant
            i <= args@.len(),
            items == frames_view(args@),
            items.len() == args@.len(),
            out@.len() == i,
            forall|j: int|
                0 <= j < i ==> (#[trigger] items[j]) is Bulk && valid_utf8(items[j]->Bulk_0),
            crate::backend::views_of(out@) == texts_of(items.take(i as int)),
        decreases args@.len() - i,
    {
        proof {
            frames_view_index(args@, i as int);
        }
        match &args[i] {
            RespFrame::BulkString(BulkString::Normal(data)) => {
                match utf8_string(crate::frame::clone_bytes(data)) {
                    Some(s) => {
                        let ghost prev = out@;
                        let ghost sv = s@;
                        out.push(s);
                        proof {
                            let t = items.take(i + 1);
                            assert forall|j: int| 0 <= j < i + 1 implies crate::backend::views_of(
                                out@,
                            )[j] == texts_of(t)[j] by {
                                assert(t[j] == items[j]);
                                assert(crate::backend::views_of(out@)[j] == out@[j]@);
                                assert(texts_of(t)[j] == decode_utf8(items[j]->Bulk_0));
                                if j < i {
                                    assert(out@[j] == prev[j]);
                                    assert(crate::backend::views_of(prev)[j] == prev[j]@);
                                    assert(texts_of(items.take(i as int))[j] == decode_utf8(
                                        items[j]->Bulk_0,
                                    ));
                                } else {
                                    assert(out@[j] == s);
                                }
                            }
                            assert(crate::backend::views_of(out@) =~= texts_of(items.take(i + 1)));
                        }
                    },
                    None => {
                        return None;
                    },
                }
            },
            _ => {
                return None;
            },
        }
        i = i + 1;
    }
    proof {
        assert(items.take(items.len() as int) =~= items);
    }
    Some(out)
}

/// Split off the arguments after the leading names. Never fails; the
/// `Result` mirrors the shape the callers consume.
pub fn extract_args(value: RespArray, start: usize) -> (r: Result<Vec<RespFrame>, CommandError>)
    ensures
        r matches Ok(args) && args@ == arr_tail(value, start as int),
{
    match value {
        RespArray::Normal(mut items) => {
            if start <= items.len() {
                Ok(items.split_off(start))
            } else {
                Ok(Vec::new())
            }
        },
        RespArray::Null => Ok(Vec::new()),
    }
}

} // verus!
