//! The executable incremental decoder, verified against `parse_at`: it
//! consumes exactly one complete frame, or consumes nothing and reports
//! that the bytes are incomplete or malformed.
use vstd::prelude::*;
use vstd::slice::slice_to_vec;

use crate::frame::{frames_view, lemma_frames_view_push, BulkString, RespArray, RespFrame,
    SpecFrame};
use crate::grammar::{all_digits, crlf_off, digits_val, int_of, parse_at, parse_elems, ElemsOut,
    ParseOut, CR, LF, PREFIX_ARRAY, PREFIX_BULK, PREFIX_ERROR, PREFIX_INTEGER, PREFIX_SIMPLE};

verus! {

/// How a decode attempt can fail. `NotComplete` is recoverable: append more
/// bytes and retry from the same position. `Malformed` is not: the stream
/// can no longer be trusted.
#[derive(Debug, Clone, Copy, PartialEq, Eq)]
pub enum RespError {
    NotComplete,
    Malformed,
}

/// Skipping a CRLF-free region does not change which CRLF is found first.
proof fn lemma_crlf_skip(s: Seq<u8>, from: int, i: int)
    requires
        0 <= from <= i <= s.len(),
        forall|j: int|
            from <= j < i && j + 1 < s.len() ==> !(#[trigger] s[j] == CR && s[j + 1] == LF),
    ensures
        crlf_off(s, from) == match crlf_off(s, i) {
            Some(k) => Some((k + i - from) as nat),
            None => Option::<nat>::None,
        },
    decreases i - from,
{
    if from < i {
        lemma_crlf_skip(s, from + 1, i);
    }
}

/// A found CRLF lies wholly inside the byte sequence.
proof fn lemma_crlf_bounds(s: Seq<u8>, from: int)
    requires
        crlf_off(s, from) is Some,
    ensures
        ({
            let k = crlf_off(s, from)->Some_0;
            &&& from + k + 2 <= s.len()
            &&& s[from + k] == CR
            &&& s[from + k + 1] == LF
        }),
    decreases crlf_off(s, from)->Some_0,
{
    if !(from < 0 || from + 2 > s.len()) && !(s[from] == CR && s[from + 1] == LF) {
        lemma_crlf_bounds(s, from + 1);
    }
}

/// Find the first CRLF at or after `from`, returning its offset from `from`.
fn find_crlf(s: &[u8], from: usize) -> (r: Option<usize>)
    requires
        from <= s@.len(),
    ensures
        match r {
            Some(k) => crlf_off(s@, from as int) == Some(k as nat),
            None => crlf_off(s@, from as int) is None,
        },
{
    let n = s.len();
    let mut i: usize = from;
    while n - i >= 2
        invariant
            from <= i <= n,
            n == s@.len(),
            forall|j: int|
                from <= j < i && j + 1 < s@.len() ==> !(#[trigger] s@[j] == CR && s@[j + 1] == LF),
        decreases n - i,
    {
        if s[i] == CR && s[i + 1] == LF {
            proof {
                lemma_crlf_skip(s@, from as int, i as int);
            }
            return Some(i - from);
        }
        i = i + 1;
    }
    proof {
        lemma_crlf_skip(s@, from as int, i as int);
    }
    None
}

/// A digit string denotes a nonnegative value.
proof fn lemma_digits_val_nonneg(d: Seq<u8>)
    requires
        all_digits(d),
    ensures
        digits_val(d) >= 0,
    decreases d.len(),
{
    if d.len() > 0 {
        assert(all_digits(d.drop_last()));
        lemma_digits_val_nonneg(d.drop_last());
    }
}

/// Extending a digit string never lowers its value.
proof fn lemma_digits_val_take_le(d: Seq<u8>, j: int)
    requires
        all_digits(d),
        0 <= j <= d.len(),
    ensures
        digits_val(d.take(j)) <= digits_val(d),
    decreases d.len() - j,
{
    if j < d.len() {
        assert(d.take(j + 1).drop_last() =~= d.take(j));
        assert(all_digits(d.take(j)));
        lemma_digits_val_nonneg(d.take(j));
        lemma_digits_val_take_le(d, j + 1);
    } else {
        assert(d.take(j) =~= d);
    }
}

/// Parse the digit run `s[start..end]` as an unsigned value. `None` means
/// the run is empty, holds a non-digit, or denotes a value above `u64::MAX`.
fn parse_digits(s: &[u8], start: usize, end: usize) -> (r: Option<u64>)
    requires
        start <= end <= s@.len(),
    ensures
        ({
            let d = s@.subrange(start as int, end as int);
            match r {
                Some(m) => d.len() >= 1 && all_digits(d) && digits_val(d) == m,
                None => d.len() == 0 || !all_digits(d) || digits_val(d) > u64::MAX,
            }
        }),
{
    let ghost d = s@.subrange(start as int, end as int);
    if start == end {
        return None;
    }
    let mut acc: u128 = 0;
    let mut i: usize = start;
    while i < end
        invariant
            start <= i <= end <= s@.len(),
            d == s@.subrange(start as int, end as int),
            all_digits(d.take(i - start)),
            acc == digits_val(d.take(i - start)),
            acc <= u64::MAX,
        decreases end - i,
    {
        let c = s[i];
        if c < 48 || c > 57 {
            proof {
                assert(d[i - start] == c);
            }
            return None;
        }
        acc = acc * 10 + ((c - 48) as u128);
        i = i + 1;
        proof {
            assert(d.take(i - start).drop_last() =~= d.take(i - start - 1));
            assert(d.take(i - start).last() == c);
            assert(all_digits(d.take(i - start)));
            assert(acc == digits_val(d.take(i - start)));
        }
        if acc > u64::MAX as u128 {
            proof {
                assert(all_digits(d) ==> digits_val(d) > u64::MAX) by {
                    if all_digits(d) {
                        lemma_digits_val_take_le(d, i - start);
                    }
                }
            }
            return None;
        }
    }
    proof {
        assert(d.take(end - start) =~= d);
    }
    Some(acc as u64)
}

/// The value of a length line, split by sign, with `Bad` covering both
/// malformed digit runs and magnitudes above `u64::MAX`.
enum LineVal {
    Bad,
    Neg(u64),
    NonNeg(u64),
}

/// Parse `s[start..end]` as a signed decimal line.
fn parse_int_line(s: &[u8], start: usize, end: usize) -> (r: LineVal)
    requires
        start <= end <= s@.len(),
    ensures
        ({
            let d = s@.subrange(start as int, end as int);
            match r {
                LineVal::NonNeg(m) => int_of(d) == Some(m as int),
                LineVal::Neg(m) => int_of(d) == Some(-(m as int)),
                LineVal::Bad => int_of(d) is None || (int_of(d) matches Some(n) && (n > u64::MAX
                    || n < -(u64::MAX as int))),
            }
        }),
{
    let ghost d = s@.subrange(start as int, end as int);
    if start < end && s[start] == PREFIX_ERROR {
        proof {
            assert(d.drop_first() =~= s@.subrange(start + 1, end as int));
            if d.drop_first().len() >= 1 && all_digits(d.drop_first()) {
                lemma_digits_val_nonneg(d.drop_first());
            }
        }
        match parse_digits(s, start + 1, end) {
            Some(m) => LineVal::Neg(m),
            None => LineVal::Bad,
        }
    } else {
        match parse_digits(s, start, end) {
            Some(m) => LineVal::NonNeg(m),
            None => LineVal::Bad,
        }
    }
}

/// Splice one parsed prefix into the outcome of parsing the frames after it.
spec fn elems_ctx(prefix: Seq<SpecFrame>, consumed: nat, rest: ElemsOut) -> ElemsOut {
    match rest {
        ElemsOut::Incomplete => ElemsOut::Incomplete,
        ElemsOut::Malformed => ElemsOut::Malformed,
        ElemsOut::Elems(vs, c) => ElemsOut::Elems(prefix + vs, (consumed + c) as nat),
    }
}

/// Parse one frame starting at `pos`. Returns the frame and its byte count,
/// or the reason none could be produced; the slice itself is never touched.
#[verifier::loop_isolation(false)]
#[verifier::rlimit(100)]
pub fn parse_frame(s: &[u8], pos: usize) -> (r: Result<(RespFrame, usize), RespError>)
    requires
        pos <= s@.len(),
    ensures
        r matches Ok(p) ==> parse_at(s@, pos as int) == ParseOut::Frame(p.0@, p.1 as nat) && pos
            + p.1 <= s@.len() && p.1 >= 3,
        r == Err::<(RespFrame, usize), RespError>(RespError::NotComplete) ==> parse_at(
            s@,
            pos as int,
        ) is Incomplete,
        r == Err::<(RespFrame, usize), RespError>(RespError::Malformed) ==> parse_at(
            s@,
            pos as int,
        ) is Malformed,
    decreases s@.len() - pos,
{
    if pos >= s.len() {
        return Err(RespError::NotComplete);
    }
    let b = s[pos];
    if b == PREFIX_SIMPLE || b == PREFIX_ERROR {
        match find_crlf(s, pos + 1) {
            None => Err(RespError::NotComplete),
            Some(k) => {
                proof {
                    lemma_crlf_bounds(s@, pos + 1);
                }
                let content = slice_to_vec(slice_range(s, pos + 1, pos + 1 + k));
                if b == PREFIX_SIMPLE {
                    Ok((RespFrame::SimpleString(content), k + 3))
                } else {
                    Ok((RespFrame::SimpleError(content), k + 3))
                }
            },
        }
    } else if b == PREFIX_INTEGER {
        match find_crlf(s, pos + 1) {
            None => Err(RespError::NotComplete),
            Some(k) => {
                proof {
                    lemma_crlf_bounds(s@, pos + 1);
                }
                match parse_int_line(s, pos + 1, pos + 1 + k) {
                    LineVal::Bad => Err(RespError::Malformed),
                    LineVal::NonNeg(m) => {
                        if m <= i64::MAX as u64 {
                            Ok((RespFrame::Integer(m as i64), k + 3))
                        } else {
                            Err(RespError::Malformed)
                        }
                    },
                    LineVal::Neg(m) => {
                        let neg: i128 = -(m as i128);
                        if neg >= i64::MIN as i128 {
                            Ok((RespFrame::Integer(neg as i64), k + 3))
                        } else {
                            Err(RespError::Malformed)
                        }
                    },
                }
            },
        }
    } else if b == PREFIX_BULK {
        match find_crlf(s, pos + 1) {
            None => Err(RespError::NotComplete),
            Some(k) => {
                proof {
                    lemma_crlf_bounds(s@, pos + 1);
                }
                let len_or: Option<usize> = match parse_int_line(s, pos + 1, pos + 1 + k) {
                    LineVal::Bad => {
                        return Err(RespError::Malformed);
                    },
                    LineVal::Neg(m) => {
                        if m == 1 {
                            return Ok((RespFrame::BulkString(BulkString::Null), k + 3));
                        } else if m == 0 {
                            Some(0)
                        } else {
                            return Err(RespError::Malformed);
                        }
                    },
                    LineVal::NonNeg(m) => {
                        if m > usize::MAX as u64 {
                            return Err(RespError::Malformed);
                        } else {
                            Some(m as usize)
                        }
                    },
                };
                let n = match len_or {
                    Some(n) => n,
                    None => {
                        return Err(RespError::Malformed);
                    },
                };
                let body = pos + k + 3;
                let avail = s.len() - body;
                if avail < n || avail - n < 2 {
                    return Err(RespError::NotComplete);
                }
                if s[body + n] == CR && s[body + n + 1] == LF {
                    let data = slice_to_vec(slice_range(s, body, body + n));
                    Ok((RespFrame::BulkString(BulkString::Normal(data)), k + n + 5))
                } else {
                    Err(RespError::Malformed)
                }
            },
        }
    } else if b == PREFIX_ARRAY {
        match find_crlf(s, pos + 1) {
            None => Err(RespError::NotComplete),
            Some(k) => {
                proof {
                    lemma_crlf_bounds(s@, pos + 1);
                }
                let len_or: Option<usize> = match parse_int_line(s, pos + 1, pos + 1 + k) {
                    LineVal::Bad => {
                        return Err(RespError::Malformed);
                    },
                    LineVal::Neg(m) => {
                        if m == 1 {
                            return Ok((RespFrame::Array(RespArray::Null), k + 3));
                        } else if m == 0 {
                            Some(0)
                        } else {
                            return Err(RespError::Malformed);
                        }
                    },
                    LineVal::NonNeg(m) => {
                        if m > usize::MAX as u64 {
                            return Err(RespError::Malformed);
                        } else {
                            Some(m as usize)
                        }
                    },
                };
                let n = match len_or {
                    Some(n) => n,
                    None => {
                        return Err(RespError::Malformed);
                    },
                };
                let hdr_end = pos + k + 3;
                let mut items: Vec<RespFrame> = Vec::new();
                let mut cur: usize = hdr_end;
                let mut j: usize = 0;
                while j < n
                    invariant
                        j <= n,
                        hdr_end <= cur <= s@.len(),
                        items@.len() == j,
                        parse_elems(s@, hdr_end as int, n as nat) == elems_ctx(
                            frames_view(items@),
                            (cur - hdr_end) as nat,
                            parse_elems(s@, cur as int, (n - j) as nat),
                        ),
                    decreases n - j,
                {
                    match parse_frame(s, cur) {
                        Ok((v, c)) => {
                            let ghost gv = v@;
                            let ghost prev = items@;
                            proof {
                                lemma_frames_view_push(prev, v);
                                let rest = parse_elems(s@, cur + c, (n - (j + 1)) as nat);
                                match rest {
                                    ElemsOut::Elems(vs, c2) => {
                                        assert((frames_view(prev) + seq![gv]) + vs =~= frames_view(
                                            prev,
                                        ) + (seq![gv] + vs));
                                    },
                                    _ => {},
                                }
                            }
                            items.push(v);
                            cur = cur + c;
                            j = j + 1;
                        },
                        Err(e) => {
                            return Err(e);
                        },
                    }
                }
                proof {
                    assert(frames_view(items@) + Seq::<SpecFrame>::empty() =~= frames_view(
                        items@,
                    ));
                }
                Ok((RespFrame::Array(RespArray::Normal(items)), cur - pos))
            },
        }
    } else {
        Err(RespError::Malformed)
    }
}

/// The subslice `s[from..to]`.
fn slice_range(s: &[u8], from: usize, to: usize) -> (r: &[u8])
    requires
        from <= to <= s@.len(),
    ensures
        r@ == s@.subrange(from as int, to as int),
{
    &s[from..to]
}

} // verus!
