//! The executable encoder: total, deterministic, and proved to produce
//! exactly the bytes `encode_spec` prescribes.
use vstd::prelude::*;

use crate::frame::{frame_view, frames_view, lemma_frames_view_push, BulkString, RespArray,
    RespFrame, SpecFrame};
use crate::grammar::{crlf, dec_rep, encode_seq, encode_spec, int_rep, CR, LF, PREFIX_ARRAY,
    PREFIX_BULK, PREFIX_ERROR, PREFIX_INTEGER, PREFIX_SIMPLE};

verus! {

/// Appending one frame to a list appends its encoding to the list's encoding.
pub proof fn lemma_encode_seq_push(vs: Seq<SpecFrame>, v: SpecFrame)
    ensures
        encode_seq(vs.push(v)) == encode_seq(vs) + encode_spec(v),
    decreases vs,
{
    if vs.len() == 0 {
        let e = vs.push(v).drop_first();
        assert(e =~= Seq::<SpecFrame>::empty());
        assert(encode_seq(e).len() == 0);
        assert(vs.push(v).first() == v);
        assert(encode_seq(vs.push(v)) =~= encode_seq(vs) + encode_spec(v));
    } else {
        assert(vs.push(v).drop_first() =~= vs.drop_first().push(v));
        assert(vs.push(v).first() == vs.first());
        lemma_encode_seq_push(vs.drop_first(), v);
        assert(encode_seq(vs.push(v)) =~= encode_seq(vs) + encode_spec(v));
    }
}

/// Append the decimal digits of `n` to `out`.
fn push_dec(n: u64, out: &mut Vec<u8>)
    ensures
        final(out)@ == old(out)@ + dec_rep(n as nat),
    decreases n,
{
    if n < 10 {
        out.push(48 + n as u8);
        proof {
            assert(out@ =~= old(out)@ + dec_rep(n as nat));
        }
    } else {
        push_dec(n / 10, out);
        out.push(48 + (n % 10) as u8);
        proof {
            assert((n as nat) / 10 == (n / 10) as nat);
            assert((n as nat) % 10 == (n % 10) as nat);
            assert(out@ =~= old(out)@ + dec_rep(n as nat));
        }
    }
}

fn push_crlf(out: &mut Vec<u8>)
    ensures
        final(out)@ == old(out)@ + crlf(),
{
    out.push(CR);
    out.push(LF);
    proof {
        assert(out@ =~= old(out)@ + crlf());
    }
}

/// Append the signed decimal representation of `n` to `out`.
fn push_int(n: i64, out: &mut Vec<u8>)
    ensures
        final(out)@ == old(out)@ + int_rep(n as int),
{
    if n < 0 {
        let mag: u64 = (-(n as i128)) as u64;
        proof {
            assert(mag as nat == (-(n as int)) as nat);
        }
        out.push(PREFIX_ERROR);
        push_dec(mag, out);
        proof {
            assert(out@ =~= old(out)@ + int_rep(n as int));
        }
    } else {
        push_dec(n as u64, out);
    }
}

fn push_null(prefix: u8, out: &mut Vec<u8>)
    ensures
        final(out)@ == old(out)@ + seq![prefix, PREFIX_ERROR, 49u8] + crlf(),
{
    out.push(prefix);
    out.push(PREFIX_ERROR);
    out.push(49);
    push_crlf(out);
    proof {
        assert(out@ =~= old(out)@ + seq![prefix, PREFIX_ERROR, 49u8] + crlf());
    }
}

/// Append the encoding of one frame to `out`.
fn encode_into(f: &RespFrame, out: &mut Vec<u8>)
    ensures
        final(out)@ == old(out)@ + encode_spec(f@),
    decreases *f,
{
    match f {
        RespFrame::SimpleString(s) => {
            out.push(PREFIX_SIMPLE);
            let mut i: usize = 0;
            while i < s.len()
                invariant
                    i <= s.len(),
                    out@ == old(out)@ + seq![PREFIX_SIMPLE] + s@.take(i as int),
                decreases s.len() - i,
            {
                out.push(s[i]);
                i = i + 1;
                proof {
                    assert(out@ =~= old(out)@ + seq![PREFIX_SIMPLE] + s@.take(i as int));
                }
            }
            push_crlf(out);
            proof {
                assert(s@.take(s@.len() as int) =~= s@);
                assert(out@ =~= old(out)@ + encode_spec(f@));
            }
        },
        RespFrame::SimpleError(s) => {
            out.push(PREFIX_ERROR);
            let mut i: usize = 0;
            while i < s.len()
                invariant
                    i <= s.len(),
                    out@ == old(out)@ + seq![PREFIX_ERROR] + s@.take(i as int),
                decreases s.len() - i,
            {
                out.push(s[i]);
                i = i + 1;
                proof {
                    assert(out@ =~= old(out)@ + seq![PREFIX_ERROR] + s@.take(i as int));
                }
            }
            push_crlf(out);
            proof {
                assert(s@.take(s@.len() as int) =~= s@);
                assert(out@ =~= old(out)@ + encode_spec(f@));
            }
        },
        RespFrame::Integer(n) => {
            out.push(PREFIX_INTEGER);
            push_int(*n, out);
            push_crlf(out);
            proof {
                assert(out@ =~= old(out)@ + encode_spec(f@));
            }
        },
        RespFrame::BulkString(BulkString::Null) => {
            push_null(PREFIX_BULK, out);
            proof {
                assert(out@ =~= old(out)@ + encode_spec(f@));
            }
        },
        RespFrame::BulkString(BulkString::Normal(data)) => {
            out.push(PREFIX_BULK);
            push_dec(data.len() as u64, out);
            push_crlf(out);
            let ghost mid = out@;
            let mut i: usize = 0;
            while i < data.len()
                invariant
                    i <= data.len(),
                    out@ == mid + data@.take(i as int),
                decreases data.len() - i,
            {
                out.push(data[i]);
                i = i + 1;
                proof {
                    assert(out@ =~= mid + data@.take(i as int));
                }
            }
            push_crlf(out);
            proof {
                assert(data@.take(data@.len() as int) =~= data@);
                assert(out@ =~= old(out)@ + encode_spec(f@));
            }
        },
        RespFrame::Array(RespArray::Null) => {
            push_null(PREFIX_ARRAY, out);
            proof {
                assert(out@ =~= old(out)@ + encode_spec(f@));
            }
        },
        RespFrame::Array(RespArray::Normal(items)) => {
            out.push(PREFIX_ARRAY);
            push_dec(items.len() as u64, out);
            push_crlf(out);
            encode_items_into(items, out);
            proof {
                crate::frame::frames_view_len(items@);
                assert(out@ =~= old(out)@ + encode_spec(f@));
            }
        },
    }
}

/// Append the encodings of all frames in `items` to `out`, in order.
fn encode_items_into(items: &Vec<RespFrame>, out: &mut Vec<u8>)
    ensures
        final(out)@ == old(out)@ + encode_seq(frames_view(items@)),
    decreases *items,
{
    let ghost mid = out@;
    let mut i: usize = 0;
    while i < items.len()
        invariant
            i <= items.len(),
            out@ == mid + encode_seq(frames_view(items@.take(i as int))),
        decreases items.len() - i,
    {
        encode_into(&items[i], out);
        i = i + 1;
        proof {
            let pre = items@.take(i - 1);
            let e = items@[i - 1];
            lemma_frames_view_push(pre, e);
            lemma_encode_seq_push(frames_view(pre), frame_view(e));
            assert(items@.take(i as int) =~= pre.push(e));
            assert(frames_view(pre) + seq![frame_view(e)] =~= frames_view(pre).push(
                frame_view(e),
            ));
            assert(out@ =~= mid + encode_seq(frames_view(items@.take(i as int))));
        }
    }
    proof {
        assert(items@.take(items@.len() as int) =~= items@);
    }
}

impl RespFrame {
    /// Encode this frame to its exact wire bytes. Total and deterministic.
    pub fn encode(&self) -> (r: Vec<u8>)
        ensures
            r@ == encode_spec(self@),
    {
        let mut out: Vec<u8> = Vec::new();
        encode_into(self, &mut out);
        out
    }
}

impl BulkString {
    /// Encode this bulk string as a stand-alone frame.
    pub fn encode(&self) -> (r: Vec<u8>)
        ensures
            r@ == encode_spec(self@),
    {
        match self {
            BulkString::Normal(data) => {
                let f = RespFrame::BulkString(BulkString::Normal(crate::frame::clone_bytes(data)));
                f.encode()
            },
            BulkString::Null => {
                let f = RespFrame::BulkString(BulkString::Null);
                f.encode()
            },
        }
    }
}

impl RespArray {
    /// Encode this array as a stand-alone frame.
    pub fn encode(&self) -> (r: Vec<u8>)
        ensures
            r@ == encode_spec(self@),
    {
        let mut out: Vec<u8> = Vec::new();
        match self {
            RespArray::Normal(items) => {
                out.push(PREFIX_ARRAY);
                push_dec(items.len() as u64, &mut out);
                push_crlf(&mut out);
                encode_items_into(items, &mut out);
                proof {
                    crate::frame::frames_view_len(items@);
                    assert(out@ =~= encode_spec(self@));
                }
            },
            RespArray::Null => {
                push_null(PREFIX_ARRAY, &mut out);
                proof {
                    assert(out@ =~= encode_spec(self@));
                }
            },
        }
        out
    }
}

} // verus!
