use simple_redis::backend::Backend;
use simple_redis::cmd::{HashGetAll, HashMultiGet, SetMembers};
use simple_redis::frame::{BulkString, RespArray, RespFrame};

fn bulk(s: &[u8]) -> RespFrame {
    RespFrame::BulkString(BulkString::new(s.to_vec()))
}

#[test]
fn test_hmget_absent_key() {
    // HMGET on a missing key gives one null per requested field, the same
    // as when only the fields are missing.
    let mut backend = Backend::new();
    let cmd = HashMultiGet {
        key: "missing".to_string(),
        fields: vec!["f1".to_string(), "f2".to_string()],
    };
    let reply = cmd.execute(&mut backend);
    assert_eq!(
        reply,
        RespFrame::Array(RespArray::new(vec![
            RespFrame::BulkString(BulkString::Null),
            RespFrame::BulkString(BulkString::Null),
        ]))
    );
}

#[test]
fn test_hmget_mixed_presence() {
    let mut backend = Backend::new();
    backend.hash_set("h".to_string(), "f1".to_string(), bulk(b"v1"));
    let cmd = HashMultiGet {
        key: "h".to_string(),
        fields: vec!["f1".to_string(), "nope".to_string(), "f1".to_string()],
    };
    let reply = cmd.execute(&mut backend);
    assert_eq!(
        reply,
        RespFrame::Array(RespArray::new(vec![
            bulk(b"v1"),
            RespFrame::BulkString(BulkString::Null),
            bulk(b"v1"),
        ]))
    );
}

#[test]
fn test_hgetall_sorted_mode() {
    // Fields inserted f2 then f1 come back in field order under sort.
    let mut backend = Backend::new();
    backend.hash_set("h".to_string(), "f2".to_string(), bulk(b"v2"));
    backend.hash_set("h".to_string(), "f1".to_string(), bulk(b"v1"));
    let cmd = HashGetAll {
        key: "h".to_string(),
        sort: true,
    };
    let reply = cmd.execute(&mut backend);
    assert_eq!(
        reply,
        RespFrame::Array(RespArray::new(vec![
            bulk(b"f1"),
            bulk(b"v1"),
            bulk(b"f2"),
            bulk(b"v2"),
        ]))
    );
}

#[test]
fn test_hgetall_absent_key_is_empty_array() {
    let mut backend = Backend::new();
    let cmd = HashGetAll {
        key: "nothing".to_string(),
        sort: true,
    };
    assert_eq!(cmd.execute(&mut backend), RespFrame::Array(RespArray::new(vec![])));
}

#[test]
fn test_string_overwrite_last_write_wins() {
    let mut backend = Backend::new();
    backend.string_set("k".to_string(), bulk(b"one"));
    backend.string_set("k".to_string(), RespFrame::Integer(2));
    assert_eq!(backend.string_get("k"), Some(RespFrame::Integer(2)));
    assert_eq!(backend.string_get("other"), None);
}

#[test]
fn test_set_first_writes_all_land() {
    // Many single-member additions against a previously absent key: every
    // insertion succeeds and the resulting set holds exactly those members.
    let mut backend = Backend::new();
    let n: usize = 20;
    for i in 0..n {
        let member = format!("m{}", i);
        let count = backend.set_add("race", vec![member]);
        assert_eq!(count, 1, "every first write must land");
    }
    let cmd = SetMembers {
        key: "race".to_string(),
    };
    let reply = cmd.execute(&mut backend);
    let items = match reply {
        RespFrame::Array(RespArray::Normal(items)) => items,
        other => panic!("expected a normal array, got {:?}", other),
    };
    let mut got: Vec<Vec<u8>> = items
        .into_iter()
        .map(|f| match f {
            RespFrame::BulkString(BulkString::Normal(d)) => d,
            other => panic!("expected a bulk string, got {:?}", other),
        })
        .collect();
    got.sort();
    let mut want: Vec<Vec<u8>> = (0..n).map(|i| format!("m{}", i).into_bytes()).collect();
    want.sort();
    assert_eq!(got, want);
}

#[test]
fn test_smembers_absent_key_is_null_array() {
    let mut backend = Backend::new();
    let cmd = SetMembers {
        key: "none".to_string(),
    };
    assert_eq!(cmd.execute(&mut backend), RespFrame::Array(RespArray::Null));
}

#[test]
fn test_namespaces_are_independent() {
    // A string key, a hash key and a set key with the same name do not
    // interfere.
    let mut backend = Backend::new();
    backend.string_set("x".to_string(), bulk(b"s"));
    backend.hash_set("x".to_string(), "f".to_string(), bulk(b"h"));
    let count = backend.set_add("x", vec!["m".to_string()]);
    assert_eq!(count, 1);
    assert_eq!(backend.string_get("x"), Some(bulk(b"s")));
    assert_eq!(backend.hash_get("x", "f"), Some(bulk(b"h")));
    assert_eq!(
        backend.set_is_member("x", "m"),
        RespFrame::Integer(1)
    );
}
