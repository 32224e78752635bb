use bytes::BytesMut;

use simple_redis::decode::RespError;
use simple_redis::frame::{BulkString, RespArray, RespFrame};

fn bulk(s: &[u8]) -> RespFrame {
    RespFrame::BulkString(BulkString::new(s.to_vec()))
}

#[test]
fn test_array_encode() {
    let frame: RespFrame = RespFrame::Array(RespArray::new(vec![
        bulk(b"set"),
        bulk(b"hello"),
        bulk(b"world"),
    ]));
    assert_eq!(
        frame.encode(),
        b"*3\r\n$3\r\nset\r\n$5\r\nhello\r\n$5\r\nworld\r\n".to_vec()
    );
}

#[test]
fn test_array_encode_empty() {
    let frame: RespFrame = RespFrame::Array(RespArray::new(vec![]));
    assert_eq!(frame.encode(), b"*0\r\n".to_vec());
}

#[test]
fn test_array_encode_null() {
    let frame: RespFrame = RespFrame::Array(RespArray::Null);
    assert_eq!(frame.encode(), b"*-1\r\n".to_vec());
}

#[test]
fn test_array_decode() {
    let mut buf = BytesMut::new();
    buf.extend_from_slice(b"*2\r\n$3\r\nset\r\n$5\r\nhello\r\n");

    let frame = RespArray::decode(&mut buf).unwrap();
    assert_eq!(frame, RespArray::new(vec![bulk(b"set"), bulk(b"hello")]));

    buf.extend_from_slice(b"*2\r\n$3\r\nset\r\n");
    let ret = RespArray::decode(&mut buf);
    assert_eq!(ret.unwrap_err(), RespError::NotComplete);

    buf.extend_from_slice(b"$5\r\nhello\r\n");
    let frame = RespArray::decode(&mut buf).unwrap();
    assert_eq!(frame, RespArray::new(vec![bulk(b"set"), bulk(b"hello")]));
}

#[test]
fn test_array_decode_empty() {
    let mut buf = BytesMut::new();
    buf.extend_from_slice(b"*0\r\n");

    let frame = RespArray::decode(&mut buf).unwrap();
    assert_eq!(frame, RespArray::new(vec![]));
}

#[test]
fn test_array_decode_null() {
    let mut buf = BytesMut::new();
    buf.extend_from_slice(b"*-1\r\n");

    let frame = RespArray::decode(&mut buf).unwrap();
    assert_eq!(frame, RespArray::Null);
}

#[test]
fn test_bulk_string_encode() {
    let frame: RespFrame = bulk(b"hello");
    assert_eq!(frame.encode(), b"$5\r\nhello\r\n".to_vec());
}

#[test]
fn test_bulk_string_encode_empty() {
    let frame: RespFrame = bulk(b"");
    assert_eq!(frame.encode(), b"$0\r\n\r\n".to_vec());
}

#[test]
fn test_bulk_string_encode_null() {
    let frame: RespFrame = RespFrame::BulkString(BulkString::Null);
    assert_eq!(frame.encode(), b"$-1\r\n".to_vec());
}

#[test]
fn test_bulk_string_decode() {
    let mut buf = BytesMut::new();
    buf.extend_from_slice(b"$5\r\nhello\r\n");

    let frame = BulkString::decode(&mut buf).unwrap();
    assert_eq!(frame, BulkString::new(b"hello".to_vec()));

    buf.extend_from_slice(b"$5\r\nhello");
    let ret = BulkString::decode(&mut buf);
    assert_eq!(ret.unwrap_err(), RespError::NotComplete);

    buf.extend_from_slice(b"\r\n");
    let frame = BulkString::decode(&mut buf).unwrap();
    assert_eq!(frame, BulkString::new(b"hello".to_vec()));
}

#[test]
fn test_bulk_string_decode_empty() {
    let mut buf = BytesMut::new();
    buf.extend_from_slice(b"$0\r\n\r\n");

    let frame = BulkString::decode(&mut buf).unwrap();
    assert_eq!(frame, BulkString::new(b"".to_vec()));
}

#[test]
fn test_bulk_string_decode_null() {
    let mut buf = BytesMut::new();
    buf.extend_from_slice(b"$-1\r\n");

    let frame = BulkString::decode(&mut buf).unwrap();
    assert_eq!(frame, BulkString::Null);
}

fn sample_frame() -> RespFrame {
    RespFrame::Array(RespArray::new(vec![
        RespFrame::SimpleString(b"OK".to_vec()),
        RespFrame::SimpleError(b"ERR bad".to_vec()),
        RespFrame::Integer(-42),
        bulk(b"hello"),
        RespFrame::BulkString(BulkString::Null),
        RespFrame::Array(RespArray::Null),
        RespFrame::Array(RespArray::new(vec![bulk(b""), RespFrame::Integer(7)])),
    ]))
}

#[test]
fn test_round_trip_nested() {
    let v = sample_frame();
    let enc = v.encode();
    let mut buf = BytesMut::new();
    buf.extend_from_slice(&enc);
    let back = RespFrame::decode(&mut buf).unwrap();
    assert_eq!(back, v);
    assert_eq!(buf.len(), 0);
}

#[test]
fn test_incremental_all_splits() {
    // Splitting the encoding at any offset gives NotComplete, then the
    // full value, consuming exactly one frame even with a trailing tail.
    let v = sample_frame();
    let enc = v.encode();
    for cut in 0..enc.len() {
        let mut buf = BytesMut::new();
        buf.extend_from_slice(&enc[..cut]);
        let first = RespFrame::decode(&mut buf);
        assert_eq!(first.unwrap_err(), RespError::NotComplete);
        assert_eq!(buf.len(), cut, "nothing may be consumed at offset {}", cut);
        buf.extend_from_slice(&enc[cut..]);
        buf.extend_from_slice(b"+tail\r\n");
        let second = RespFrame::decode(&mut buf).unwrap();
        assert_eq!(second, v);
        assert_eq!(&buf[..], b"+tail\r\n");
    }
}

#[test]
fn test_null_and_empty_distinct() {
    let null_arr = RespFrame::Array(RespArray::Null).encode();
    let empty_arr = RespFrame::Array(RespArray::new(vec![])).encode();
    assert_ne!(null_arr, empty_arr);
    let null_bulk = RespFrame::BulkString(BulkString::Null).encode();
    let empty_bulk = bulk(b"").encode();
    assert_ne!(null_bulk, empty_bulk);
}

#[test]
fn test_nested_array_totality() {
    // An array of bulk strings with varying declared lengths: any byte
    // count short of the whole is NotComplete, never Malformed.
    let v = RespFrame::Array(RespArray::new(vec![
        bulk(b""),
        bulk(b"a"),
        bulk(b"longer payload with \r\n inside"),
    ]));
    let enc = v.encode();
    for cut in 0..enc.len() {
        let mut buf = BytesMut::new();
        buf.extend_from_slice(&enc[..cut]);
        assert_eq!(RespFrame::decode(&mut buf).unwrap_err(), RespError::NotComplete);
    }
}

#[test]
fn test_integer_encode_decode() {
    assert_eq!(RespFrame::Integer(0).encode(), b":0\r\n".to_vec());
    assert_eq!(RespFrame::Integer(-42).encode(), b":-42\r\n".to_vec());
    assert_eq!(
        RespFrame::Integer(i64::MIN).encode(),
        b":-9223372036854775808\r\n".to_vec()
    );
    let mut buf = BytesMut::new();
    buf.extend_from_slice(b":-9223372036854775808\r\n:123\r\n");
    assert_eq!(
        RespFrame::decode(&mut buf).unwrap(),
        RespFrame::Integer(i64::MIN)
    );
    assert_eq!(RespFrame::decode(&mut buf).unwrap(), RespFrame::Integer(123));
}

#[test]
fn test_malformed_frames() {
    // Unknown prefix byte.
    let mut buf = BytesMut::new();
    buf.extend_from_slice(b"?hello\r\n");
    assert_eq!(RespFrame::decode(&mut buf).unwrap_err(), RespError::Malformed);
    assert_eq!(buf.len(), 8, "a malformed buffer is left untouched");

    // Digits that are not digits.
    let mut buf = BytesMut::new();
    buf.extend_from_slice(b":12a\r\n");
    assert_eq!(RespFrame::decode(&mut buf).unwrap_err(), RespError::Malformed);

    // An integer outside the signed 64-bit range.
    let mut buf = BytesMut::new();
    buf.extend_from_slice(b":99999999999999999999\r\n");
    assert_eq!(RespFrame::decode(&mut buf).unwrap_err(), RespError::Malformed);

    // A negative bulk length other than the null sentinel.
    let mut buf = BytesMut::new();
    buf.extend_from_slice(b"$-2\r\n");
    assert_eq!(RespFrame::decode(&mut buf).unwrap_err(), RespError::Malformed);
}

#[test]
fn test_null_inside_array() {
    // The -1 sentinel is recognized mid-stream, not only at buffer end.
    let mut buf = BytesMut::new();
    buf.extend_from_slice(b"*2\r\n$-1\r\n*-1\r\n+ok\r\n");
    let frame = RespFrame::decode(&mut buf).unwrap();
    assert_eq!(
        frame,
        RespFrame::Array(RespArray::new(vec![
            RespFrame::BulkString(BulkString::Null),
            RespFrame::Array(RespArray::Null),
        ]))
    );
    assert_eq!(&buf[..], b"+ok\r\n");
}

#[test]
fn test_wrong_kind_decode() {
    // Decoding a complete frame of the wrong kind is Malformed.
    let mut buf = BytesMut::new();
    buf.extend_from_slice(b"$3\r\nabc\r\n");
    assert_eq!(RespArray::decode(&mut buf).unwrap_err(), RespError::Malformed);
    let mut buf = BytesMut::new();
    buf.extend_from_slice(b"*0\r\n");
    assert_eq!(BulkString::decode(&mut buf).unwrap_err(), RespError::Malformed);
}

#[test]
fn test_bulk_string_uppercase() {
    let b = BulkString::new(b"set Key-9".to_vec());
    assert_eq!(b.to_ascii_uppercase(), BulkString::new(b"SET KEY-9".to_vec()));
    assert_eq!(BulkString::Null.to_ascii_uppercase(), BulkString::Null);
}
