//! Decoding from the transport's accumulation buffer. The buffer type is
//! `bytes::BytesMut`; this module trusts only two of its operations and
//! verifies everything decoding does on top of them.
use vstd::prelude::*;

use bytes::Buf;

use crate::decode::{parse_frame, RespError};
use crate::frame::{BulkString, RespArray, RespFrame};
use crate::grammar::{parse_at, ParseOut};

verus! {

/// The bytes currently held by a `bytes::BytesMut`, oldest first.
pub uninterp spec fn buf_contents(b: bytes::BytesMut) -> Seq<u8>;

#[verifier::external_type_specification]
#[verifier::external_body]
pub struct ExBytesMut(bytes::BytesMut);

/// Relies on `<BytesMut as AsRef<[u8]>>::as_ref`: a slice of all bytes the
/// buffer currently holds, in order.
#[verifier::external_body]
fn buf_as_slice(b: &bytes::BytesMut) -> (r: &[u8])
    ensures
        r@ == buf_contents(*b),
{
    b.as_ref()
}

/// Relies on `bytes::Buf::advance` for `BytesMut`: discards exactly the
/// first `n` bytes and keeps the rest. Panics if `n` exceeds the length,
/// which the precondition rules out.
#[verifier::external_body]
fn buf_advance(b: &mut bytes::BytesMut, n: usize)
    requires
        n <= buf_contents(*old(b)).len(),
    ensures
        buf_contents(*final(b)) == buf_contents(*old(b)).skip(n as int),
{
    b.advance(n)
}

impl RespFrame {
    /// Decode one complete frame from the front of `buf` and advance past
    /// exactly its bytes. On `NotComplete` or `Malformed` the buffer is
    /// left untouched, so the caller may retry after appending more bytes.
    pub fn decode(buf: &mut bytes::BytesMut) -> (r: Result<RespFrame, RespError>)
        ensures
            r matches Ok(v) ==> (parse_at(buf_contents(*old(buf)), 0) matches ParseOut::Frame(w, c)
                && w == v@ && buf_contents(*final(buf)) == buf_contents(*old(buf)).skip(c as int)),
            r == Err::<RespFrame, RespError>(RespError::NotComplete) ==> parse_at(
                buf_contents(*old(buf)),
                0,
            ) is Incomplete && *final(buf) == *old(buf),
            r == Err::<RespFrame, RespError>(RespError::Malformed) ==> parse_at(
                buf_contents(*old(buf)),
                0,
            ) is Malformed && *final(buf) == *old(buf),
    {
        let s = buf_as_slice(buf);
        match parse_frame(s, 0) {
            Ok((v, c)) => {
                buf_advance(buf, c);
                Ok(v)
            },
            Err(e) => Err(e),
        }
    }
}

impl RespArray {
    /// Decode one complete frame, which must be an array (normal or null).
    /// Any other complete frame is reported as `Malformed`; the buffer is
    /// advanced only on success.
    pub fn decode(buf: &mut bytes::BytesMut) -> (r: Result<RespArray, RespError>)
        ensures
            r matches Ok(a) ==> (parse_at(buf_contents(*old(buf)), 0) matches ParseOut::Frame(w, c)
                && w == a@ && buf_contents(*final(buf)) == buf_contents(*old(buf)).skip(c as int)),
            r == Err::<RespArray, RespError>(RespError::NotComplete) ==> parse_at(
                buf_contents(*old(buf)),
                0,
            ) is Incomplete && *final(buf) == *old(buf),
            r == Err::<RespArray, RespError>(RespError::Malformed) ==> (parse_at(
                buf_contents(*old(buf)),
                0,
            ) is Malformed || (parse_at(buf_contents(*old(buf)), 0) matches ParseOut::Frame(w, _c)
                && !(w is Array || w is ArrayNull))) && *final(buf) == *old(buf),
    {
        let s = buf_as_slice(buf);
        match parse_frame(s, 0) {
            Ok((RespFrame::Array(a), c)) => {
                buf_advance(buf, c);
                Ok(a)
            },
            Ok(_) => Err(RespError::Malformed),
            Err(e) => Err(e),
        }
    }
}

impl BulkString {
    /// Decode one complete frame, which must be a bulk string (normal or
    /// null). Any other complete frame is reported as `Malformed`; the
    /// buffer is advanced only on success.
    pub fn decode(buf: &mut bytes::BytesMut) -> (r: Result<BulkString, RespError>)
        ensures
            r matches Ok(b) ==> (parse_at(buf_contents(*old(buf)), 0) matches ParseOut::Frame(w, c)
                && w == b@ && buf_contents(*final(buf)) == buf_contents(*old(buf)).skip(c as int)),
            r == Err::<BulkString, RespError>(RespError::NotComplete) ==> parse_at(
                buf_contents(*old(buf)),
                0,
            ) is Incomplete && *final(buf) == *old(buf),
            r == Err::<BulkString, RespError>(RespError::Malformed) ==> (parse_at(
                buf_contents(*old(buf)),
                0,
            ) is Malformed || (parse_at(buf_contents(*old(buf)), 0) matches ParseOut::Frame(w, _c)
                && !(w is Bulk || w is BulkNull))) && *final(buf) == *old(buf),
    {
        let s = buf_as_slice(buf);
        match parse_frame(s, 0) {
            Ok((RespFrame::BulkString(b), c)) => {
                buf_advance(buf, c);
                Ok(b)
            },
            Ok(_) => Err(RespError::Malformed),
            Err(e) => Err(e),
        }
    }
}

} // verus!
