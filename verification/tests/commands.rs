use bytes::BytesMut;

use simple_redis::backend::Backend;
use simple_redis::cmd::{Command, CommandError, Echo, HashGet, HashGetAll, HashSet, SetAdd,
    SetIsMember, StringGet, StringSet};
use simple_redis::frame::{BulkString, RespArray, RespFrame};

fn decode_array(bytes: &[u8]) -> RespArray {
    let mut buf = BytesMut::new();
    buf.extend_from_slice(bytes);
    RespArray::decode(&mut buf).unwrap()
}

fn resp_ok_frame() -> RespFrame {
    RespFrame::SimpleString(b"OK".to_vec())
}

#[test]
fn test_hget_from_resp_array() {
    let frame = decode_array(b"*3\r\n$4\r\nhget\r\n$3\r\nmap\r\n$5\r\nhello\r\n");

    let result: HashGet = HashGet::try_from(frame).unwrap();
    assert_eq!(result.key, "map");
    assert_eq!(result.field, "hello");
}

#[test]
fn test_hgetall_from_resp_array() {
    let frame = decode_array(b"*2\r\n$7\r\nhgetall\r\n$3\r\nmap\r\n");

    let result: HashGetAll = HashGetAll::try_from(frame).unwrap();
    assert_eq!(result.key, "map");
}

#[test]
fn test_hset_from_resp_array() {
    let frame = decode_array(b"*4\r\n$4\r\nhset\r\n$3\r\nmap\r\n$5\r\nhello\r\n$5\r\nworld\r\n");

    let result: HashSet = HashSet::try_from(frame).unwrap();
    assert_eq!(result.key, "map");
    assert_eq!(result.field, "hello");
    assert_eq!(result.value, RespFrame::BulkString(BulkString::new(b"world".to_vec())));
}

#[test]
fn test_hset_hget_hgetall_commands() {
    let mut backend = Backend::new();
    let cmd = HashSet {
        key: "map".to_string(),
        field: "hello".to_string(),
        value: RespFrame::BulkString(BulkString::new(b"world".to_vec())),
    };
    let result = cmd.execute(&mut backend);
    assert_eq!(result, resp_ok_frame());

    let cmd = HashSet {
        key: "map".to_string(),
        field: "hello1".to_string(),
        value: RespFrame::BulkString(BulkString::new(b"world1".to_vec())),
    };
    cmd.execute(&mut backend);

    let cmd = HashGet {
        key: "map".to_string(),
        field: "hello".to_string(),
    };
    let result = cmd.execute(&mut backend);
    assert_eq!(result, RespFrame::BulkString(BulkString::new(b"world".to_vec())));

    let cmd = HashGetAll {
        key: "map".to_string(),
        sort: true,
    };
    let result = cmd.execute(&mut backend);

    let expected = RespArray::new(vec![
        RespFrame::BulkString(BulkString::new(b"hello".to_vec())),
        RespFrame::BulkString(BulkString::new(b"world".to_vec())),
        RespFrame::BulkString(BulkString::new(b"hello1".to_vec())),
        RespFrame::BulkString(BulkString::new(b"world1".to_vec())),
    ]);
    assert_eq!(result, RespFrame::Array(expected));
}

#[test]
fn test_command() {
    let frame = decode_array(b"*2\r\n$3\r\nget\r\n$5\r\nhello\r\n");

    let cmd: Command = Command::try_from_array(frame).unwrap();

    let mut backend = Backend::new();

    let ret = cmd.execute(&mut backend);
    assert_eq!(ret, RespFrame::BulkString(BulkString::Null));
}

#[test]
fn test_get_from_resp_array() {
    let frame = decode_array(b"*2\r\n$3\r\nget\r\n$5\r\nhello\r\n");

    let result: StringGet = StringGet::try_from(frame).unwrap();
    assert_eq!(result.key, "hello");
}

#[test]
fn test_set_from_resp_array() {
    let frame = decode_array(b"*3\r\n$3\r\nset\r\n$5\r\nhello\r\n$5\r\nworld\r\n");

    let result: StringSet = StringSet::try_from(frame).unwrap();
    assert_eq!(result.key, "hello");
    assert_eq!(result.value, RespFrame::BulkString(BulkString::new(b"world".to_vec())));
}

#[test]
fn test_set_get_command() {
    let mut backend = Backend::new();
    let cmd = StringSet {
        key: "hello".to_string(),
        value: RespFrame::BulkString(BulkString::new(b"world".to_vec())),
    };
    let result = cmd.execute(&mut backend);
    assert_eq!(result, resp_ok_frame());

    let cmd = StringGet {
        key: "hello".to_string(),
    };
    let result = cmd.execute(&mut backend);
    assert_eq!(result, RespFrame::BulkString(BulkString::new(b"world".to_vec())));
}

#[test]
fn test_echo_command() {
    let frame = decode_array(b"*2\r\n$4\r\necho\r\n$12\r\nhello w\xc3\xb6rld\r\n");
    let cmd = Echo::try_from(frame).unwrap();
    assert_eq!(cmd.message, "hello w\u{f6}rld");
    let mut backend = Backend::new();
    let reply = cmd.execute(&mut backend);
    assert_eq!(
        reply,
        RespFrame::BulkString(BulkString::new("hello w\u{f6}rld".as_bytes().to_vec()))
    );
}

#[test]
fn test_unsupported_command() {
    // An unrecognized name decodes to a command and executes to the fixed
    // UNSUPPORTED reply; it is never an error.
    let frame = decode_array(b"*2\r\n$3\r\nfoo\r\n$1\r\nx\r\n");
    let cmd = Command::try_from_array(frame).unwrap();
    let mut backend = Backend::new();
    let reply = cmd.execute(&mut backend);
    assert_eq!(reply, RespFrame::SimpleString(b"UNSUPPORTED".to_vec()));
}

#[test]
fn test_command_must_be_array() {
    let r = Command::try_from(RespFrame::Integer(5));
    assert!(matches!(r, Err(CommandError::InvalidCommand(_))));
    let r = Command::try_from(RespFrame::Array(RespArray::Null));
    assert!(matches!(r, Err(CommandError::InvalidCommand(_))));
}

#[test]
fn test_wrong_arity_is_invalid_argument() {
    let frame = decode_array(b"*3\r\n$3\r\nget\r\n$1\r\na\r\n$1\r\nb\r\n");
    let r = Command::try_from_array(frame);
    assert!(matches!(r, Err(CommandError::InvalidArgument(_))));
}

#[test]
fn test_non_bulk_name_is_invalid_command() {
    let frame = RespArray::new(vec![RespFrame::Integer(1)]);
    let r = Command::try_from_array(frame);
    assert!(matches!(r, Err(CommandError::InvalidCommand(_))));
}

#[test]
fn test_non_utf8_key_is_invalid_argument() {
    // 0xff 0xfe is not valid UTF-8, so the key is rejected as an argument.
    let frame = decode_array(b"*2\r\n$3\r\nget\r\n$2\r\n\xff\xfe\r\n");
    let r = Command::try_from_array(frame);
    assert!(matches!(r, Err(CommandError::InvalidArgument(_))));
}

#[test]
fn test_case_insensitive_names() {
    let frame = decode_array(b"*2\r\n$3\r\nGeT\r\n$1\r\nk\r\n");
    let cmd = Command::try_from_array(frame).unwrap();
    assert!(matches!(cmd, Command::StringGet(_)));
}

#[test]
fn test_sadd_execute_counts_duplicates_once() {
    // SADD key a b a counts two insertions; a later SISMEMBER sees a.
    let frame = decode_array(b"*5\r\n$4\r\nsadd\r\n$3\r\nkey\r\n$1\r\na\r\n$1\r\nb\r\n$1\r\na\r\n");
    let cmd = Command::try_from_array(frame).unwrap();
    let mut backend = Backend::new();
    let reply = cmd.execute(&mut backend);
    assert_eq!(reply, RespFrame::Integer(2));

    let cmd = SetIsMember {
        key: "key".to_string(),
        member: "a".to_string(),
    };
    assert_eq!(cmd.execute(&mut backend), RespFrame::Integer(1));

    let cmd = SetIsMember {
        key: "key".to_string(),
        member: "c".to_string(),
    };
    assert_eq!(cmd.execute(&mut backend), RespFrame::Integer(0));

    // A second SADD of an already-present member counts zero.
    let cmd = SetAdd {
        key: "key".to_string(),
        members: vec!["a".to_string()],
    };
    assert_eq!(cmd.execute(&mut backend), RespFrame::Integer(0));
}
