//! The codec's laws: the encoding of every well-formed frame parses back to
//! exactly that frame wherever it sits in a stream, any strict prefix of it
//! reports `Incomplete`, and null stays distinct from empty.
use vstd::prelude::*;

use crate::frame::SpecFrame;
use crate::grammar::{all_digits, clip, crlf_off, dec_rep, digits_val, encode_seq, encode_spec,
    frame_wf, frames_wf, int_of, int_rep, parse_at, parse_elems, ElemsOut, ParseOut, CR, LF,
    PREFIX_ERROR};

verus! {

/// Every byte of `dec_rep(n)` is a decimal digit, and the digits denote `n`.
pub proof fn lemma_dec_rep(n: nat)
    ensures
        dec_rep(n).len() >= 1,
        all_digits(dec_rep(n)),
        digits_val(dec_rep(n)) == n,
    decreases n,
{
    if n < 10 {
        let d = dec_rep(n);
        assert(d.drop_last() =~= Seq::<u8>::empty());
        assert(d.last() == (48 + n) as u8);
        assert(digits_val(d.drop_last()) == 0);
        assert(digits_val(d) == ((48 + n) as u8 - 48));
    } else {
        lemma_dec_rep(n / 10);
        let d = dec_rep(n);
        assert(d.drop_last() =~= dec_rep(n / 10));
        assert(d.last() == (48 + n % 10) as u8);
        vstd::arithmetic::div_mod::lemma_fundamental_div_mod(n as int, 10);
        assert(digits_val(d) == (n / 10) * 10 + n % 10);
    }
}

/// A byte of a signed decimal line: a digit or the leading minus sign.
pub open spec fn line_digit_ok(b: u8) -> bool {
    b == PREFIX_ERROR || (48 <= b <= 57)
}

/// The representation of a length line parses back to its value, and holds
/// neither CR nor LF.
pub proof fn lemma_int_rep(n: int)
    ensures
        int_rep(n).len() >= 1,
        int_of(int_rep(n)) == Some(n),
        forall|i: int| 0 <= i < int_rep(n).len() ==> line_digit_ok(#[trigger] int_rep(n)[i]),
{
    if n < 0 {
        lemma_dec_rep((-n) as nat);
        let rep = int_rep(n);
        assert(rep[0] == PREFIX_ERROR);
        assert(rep.drop_first() =~= dec_rep((-n) as nat));
        assert(int_of(rep) == Some(n));
        assert forall|i: int| 0 <= i < rep.len() implies line_digit_ok(rep[i]) by {
            if i > 0 {
                assert(rep[i] == dec_rep((-n) as nat)[i - 1]);
            }
        }
    } else {
        lemma_dec_rep(n as nat);
        let rep = int_rep(n);
        assert(rep =~= dec_rep(n as nat));
        assert(48 <= rep[0] <= 57);
        assert(rep[0] != PREFIX_ERROR);
        assert(int_of(rep) == Some(n));
    }
}

/// No CRLF pair can be found in a region free of CR bytes that runs to the
/// end of the sequence.
pub proof fn lemma_crlf_none(s: Seq<u8>, from: int)
    requires
        0 <= from,
        forall|j: int| from <= j && j + 1 < s.len() ==> #[trigger] s[j] != CR,
    ensures
        crlf_off(s, from) is None,
    decreases clip(s.len() - from),
{
    if !(from + 2 > s.len()) {
        lemma_crlf_none(s, from + 1);
    }
}

/// A CRLF at offset `m`, preceded only by CR-free bytes, is the first one.
pub proof fn lemma_crlf_exact(s: Seq<u8>, from: int, m: int)
    requires
        0 <= from,
        0 <= m,
        from + m + 2 <= s.len(),
        s[from + m] == CR,
        s[from + m + 1] == LF,
        forall|j: int| from <= j < from + m ==> #[trigger] s[j] != CR,
    ensures
        crlf_off(s, from) == Some(m as nat),
    decreases m,
{
    if m > 0 {
        lemma_crlf_exact(s, from + 1, m - 1);
    }
}

/// Completeness: wherever the exact encoding of a well-formed frame sits in
/// a byte stream — whatever bytes follow it — parsing at its first byte
/// yields exactly that frame and consumes exactly its length.
#[verifier::rlimit(100)]
#[verifier::spinoff_prover]
pub proof fn lemma_parse_encoded(s: Seq<u8>, pos: int, v: SpecFrame)
    requires
        frame_wf(v),
        0 <= pos,
        pos + encode_spec(v).len() <= s.len(),
        s.subrange(pos, pos + encode_spec(v).len()) == encode_spec(v),
    ensures
        parse_at(s, pos) == ParseOut::Frame(v, encode_spec(v).len() as nat),
    decreases v,
{
    let enc = encode_spec(v);
    let len = enc.len() as int;
    assert forall|j: int| pos <= j < pos + len implies s[j] == enc[j - pos] by {
        assert(s.subrange(pos, pos + len)[j - pos] == s[j]);
    }
    match v {
        SpecFrame::Simple(t) => {
            let m = t.len() as int;
            assert forall|j: int| pos + 1 <= j < pos + 1 + m implies #[trigger] s[j] != CR by {
                assert(s[j] == enc[j - pos]);
                assert(enc[j - pos] == t[j - pos - 1]);
            }
            assert(s[pos + 1 + m] == enc[1 + m] && enc[1 + m] == CR);
            assert(s[pos + 2 + m] == enc[2 + m] && enc[2 + m] == LF);
            lemma_crlf_exact(s, pos + 1, m);
            assert(s.subrange(pos + 1, pos + 1 + m) =~= t) by {
                assert forall|i: int| 0 <= i < m implies s.subrange(pos + 1, pos + 1 + m)[i]
                    == t[i] by {
                    assert(s[pos + 1 + i] == enc[(pos + 1 + i) - pos]);
                    assert(enc[1 + i] == t[i]);
                }
            }
        },
        SpecFrame::SimpleError(t) => {
            let m = t.len() as int;
            assert forall|j: int| pos + 1 <= j < pos + 1 + m implies #[trigger] s[j] != CR by {
                assert(s[j] == enc[j - pos]);
                assert(enc[j - pos] == t[j - pos - 1]);
            }
            assert(s[pos + 1 + m] == enc[1 + m] && enc[1 + m] == CR);
            assert(s[pos + 2 + m] == enc[2 + m] && enc[2 + m] == LF);
            lemma_crlf_exact(s, pos + 1, m);
            assert(s.subrange(pos + 1, pos + 1 + m) =~= t) by {
                assert forall|i: int| 0 <= i < m implies s.subrange(pos + 1, pos + 1 + m)[i]
                    == t[i] by {
                    assert(s[pos + 1 + i] == enc[(pos + 1 + i) - pos]);
                    assert(enc[1 + i] == t[i]);
                }
            }
        },
        SpecFrame::Integer(n) => {
            lemma_int_rep(n);
            let rep = int_rep(n);
            let m = rep.len() as int;
            assert forall|j: int| pos + 1 <= j < pos + 1 + m implies #[trigger] s[j] != CR by {
                assert(s[j] == enc[j - pos]);
                assert(enc[j - pos] == rep[j - pos - 1]);
                assert(line_digit_ok(rep[j - pos - 1]));
            }
            assert(s[pos + 1 + m] == enc[1 + m] && enc[1 + m] == CR);
            assert(s[pos + 2 + m] == enc[2 + m] && enc[2 + m] == LF);
            lemma_crlf_exact(s, pos + 1, m);
            assert(s.subrange(pos + 1, pos + 1 + m) =~= rep) by {
                assert forall|i: int| 0 <= i < m implies s.subrange(pos + 1, pos + 1 + m)[i]
                    == rep[i] by {
                    assert(s[pos + 1 + i] == enc[(pos + 1 + i) - pos]);
                    assert(enc[1 + i] == rep[i]);
                }
            }
        },
        SpecFrame::BulkNull => {
            assert(len == 5);
            assert(s[pos + 1] == enc[1] && enc[1] == PREFIX_ERROR);
            assert(s[pos + 2] == enc[2] && enc[2] == 49u8);
            assert(s[pos + 3] == enc[3] && enc[3] == CR);
            assert(s[pos + 4] == enc[4] && enc[4] == LF);
            lemma_crlf_exact(s, pos + 1, 2);
            let content = s.subrange(pos + 1, pos + 3);
            assert(content =~= seq![PREFIX_ERROR, 49u8]);
            assert(content.drop_first() =~= seq![49u8]);
            assert(seq![49u8].drop_last() =~= Seq::<u8>::empty());
            assert(seq![49u8].last() == 49u8);
            assert(digits_val(seq![49u8].drop_last()) == 0);
            assert(digits_val(seq![49u8]) == 1);
            assert(int_of(content) == Some(-1int));
        },
        SpecFrame::ArrayNull => {
            assert(len == 5);
            assert(s[pos + 1] == enc[1] && enc[1] == PREFIX_ERROR);
            assert(s[pos + 2] == enc[2] && enc[2] == 49u8);
            assert(s[pos + 3] == enc[3] && enc[3] == CR);
            assert(s[pos + 4] == enc[4] && enc[4] == LF);
            lemma_crlf_exact(s, pos + 1, 2);
            let content = s.subrange(pos + 1, pos + 3);
            assert(content =~= seq![PREFIX_ERROR, 49u8]);
            assert(content.drop_first() =~= seq![49u8]);
            assert(seq![49u8].drop_last() =~= Seq::<u8>::empty());
            assert(seq![49u8].last() == 49u8);
            assert(digits_val(seq![49u8].drop_last()) == 0);
            assert(digits_val(seq![49u8]) == 1);
            assert(int_of(content) == Some(-1int));
        },
        SpecFrame::Bulk(b) => {
            lemma_dec_rep(b.len());
            let rep = dec_rep(b.len());
            let k = rep.len() as int;
            let n = b.len() as int;
            assert(len == k + n + 5);
            assert forall|j: int| pos + 1 <= j < pos + 1 + k implies #[trigger] s[j] != CR by {
                assert(s[j] == enc[j - pos]);
                assert(enc[j - pos] == rep[j - pos - 1]);
                assert(48 <= rep[j - pos - 1] <= 57);
            }
            assert(s[pos + 1 + k] == enc[1 + k] && enc[1 + k] == CR);
            assert(s[pos + 2 + k] == enc[2 + k] && enc[2 + k] == LF);
            lemma_crlf_exact(s, pos + 1, k);
            assert(s.subrange(pos + 1, pos + 1 + k) =~= rep) by {
                assert forall|i: int| 0 <= i < k implies s.subrange(pos + 1, pos + 1 + k)[i]
                    == rep[i] by {
                    assert(s[pos + 1 + i] == enc[(pos + 1 + i) - pos]);
                    assert(enc[1 + i] == rep[i]);
                }
            }
            assert(48 <= rep[0] <= 57);
            assert(int_of(rep) == Some(n));
            let body = pos + 1 + k + 2;
            assert(s[body + n] == enc[3 + k + n] && enc[3 + k + n] == CR);
            assert(s[body + n + 1] == enc[4 + k + n] && enc[4 + k + n] == LF);
            assert(s.subrange(body, body + n) =~= b) by {
                assert forall|i: int| 0 <= i < n implies s.subrange(body, body + n)[i] == b[i] by {
                    assert(s[body + i] == enc[(body + i) - pos]);
                    assert(enc[3 + k + i] == b[i]);
                }
            }
        },
        SpecFrame::Array(items) => {
            lemma_dec_rep(items.len());
            let rep = dec_rep(items.len());
            let k = rep.len() as int;
            let n = items.len() as int;
            let es = encode_seq(items);
            assert(len == k + 3 + es.len());
            assert forall|j: int| pos + 1 <= j < pos + 1 + k implies #[trigger] s[j] != CR by {
                assert(s[j] == enc[j - pos]);
                assert(enc[j - pos] == rep[j - pos - 1]);
                assert(48 <= rep[j - pos - 1] <= 57);
            }
            assert(s[pos + 1 + k] == enc[1 + k] && enc[1 + k] == CR);
            assert(s[pos + 2 + k] == enc[2 + k] && enc[2 + k] == LF);
            lemma_crlf_exact(s, pos + 1, k);
            assert(s.subrange(pos + 1, pos + 1 + k) =~= rep) by {
                assert forall|i: int| 0 <= i < k implies s.subrange(pos + 1, pos + 1 + k)[i]
                    == rep[i] by {
                    assert(s[pos + 1 + i] == enc[(pos + 1 + i) - pos]);
                    assert(enc[1 + i] == rep[i]);
                }
            }
            assert(48 <= rep[0] <= 57);
            assert(int_of(rep) == Some(n));
            let body = pos + 1 + k + 2;
            assert(s.subrange(body, body + es.len()) =~= es) by {
                assert forall|i: int| 0 <= i < es.len() implies s.subrange(body, body + es.len())[i]
                    == es[i] by {
                    assert(s[body + i] == enc[(body + i) - pos]);
                    assert(enc[3 + k + i] == es[i]);
                }
            }
            lemma_parse_encoded_elems(s, body, items);
        },
    }
}

/// Completeness for a run of frames: the concatenated encodings of `items`,
/// wherever they sit, parse back to exactly `items`.
pub proof fn lemma_parse_encoded_elems(s: Seq<u8>, pos: int, items: Seq<SpecFrame>)
    requires
        frames_wf(items),
        0 <= pos,
        pos + encode_seq(items).len() <= s.len(),
        s.subrange(pos, pos + encode_seq(items).len()) == encode_seq(items),
    ensures
        parse_elems(s, pos, items.len()) == ElemsOut::Elems(items, encode_seq(items).len() as nat),
    decreases items,
{
    let es = encode_seq(items);
    if items.len() == 0 {
        assert(items =~= Seq::<SpecFrame>::empty());
    } else {
        let first = items.first();
        let e0 = encode_spec(first);
        let rest = items.drop_first();
        let er = encode_seq(rest);
        assert forall|i: int| 0 <= i < es.len() implies s[pos + i] == es[i] by {
            assert(s.subrange(pos, pos + es.len())[i] == s[pos + i]);
        }
        assert(s.subrange(pos, pos + e0.len()) =~= e0);
        lemma_parse_encoded(s, pos, first);
        assert(s.subrange(pos + e0.len(), pos + e0.len() + er.len()) =~= er) by {
            assert forall|i: int| 0 <= i < er.len() implies s[pos + e0.len() + i] == er[i] by {
                assert(es[e0.len() + i] == er[i]);
            }
        }
        lemma_parse_encoded_elems(s, pos + e0.len(), rest);
        assert(seq![first] + rest =~= items);
    }
}

/// Incremental delivery: feeding any strict prefix of a well-formed frame's
/// encoding reports `Incomplete` — never `Malformed`, never a frame, and
/// (through the decoder's contract) never a consumed byte.
#[verifier::rlimit(100)]
#[verifier::spinoff_prover]
pub proof fn lemma_parse_prefix_incomplete(s: Seq<u8>, pos: int, v: SpecFrame)
    requires
        frame_wf(v),
        0 <= pos <= s.len(),
        s.len() - pos < encode_spec(v).len(),
        s.skip(pos) == encode_spec(v).take(s.len() - pos),
    ensures
        parse_at(s, pos) is Incomplete,
    decreases v,
{
    let enc = encode_spec(v);
    let len = enc.len() as int;
    let avail = s.len() - pos;
    assert forall|j: int| pos <= j < s.len() implies s[j] == enc[j - pos] by {
        assert(s.skip(pos)[j - pos] == s[j]);
        assert(enc.take(avail)[j - pos] == enc[j - pos]);
    }
    if avail == 0 {
    } else {
        match v {
            SpecFrame::Simple(t) => {
                assert forall|j: int| pos + 1 <= j && j + 1 < s.len() implies #[trigger] s[j]
                    != CR by {
                    assert(s[j] == enc[j - pos]);
                    assert(enc[j - pos] == t[j - pos - 1]);
                }
                lemma_crlf_none(s, pos + 1);
            },
            SpecFrame::SimpleError(t) => {
                assert forall|j: int| pos + 1 <= j && j + 1 < s.len() implies #[trigger] s[j]
                    != CR by {
                    assert(s[j] == enc[j - pos]);
                    assert(enc[j - pos] == t[j - pos - 1]);
                }
                lemma_crlf_none(s, pos + 1);
            },
            SpecFrame::Integer(n) => {
                lemma_int_rep(n);
                let rep = int_rep(n);
                assert forall|j: int| pos + 1 <= j && j + 1 < s.len() implies #[trigger] s[j]
                    != CR by {
                    assert(s[j] == enc[j - pos]);
                    assert(enc[j - pos] == rep[j - pos - 1]);
                    assert(line_digit_ok(rep[j - pos - 1]));
                }
                lemma_crlf_none(s, pos + 1);
            },
            SpecFrame::BulkNull => {
                assert(len == 5);
                assert forall|j: int| pos + 1 <= j && j + 1 < s.len() implies #[trigger] s[j]
                    != CR by {
                    assert(s[j] == enc[j - pos]);
                    assert(1 <= j - pos <= 2);
                }
                lemma_crlf_none(s, pos + 1);
            },
            SpecFrame::ArrayNull => {
                assert(len == 5);
                assert forall|j: int| pos + 1 <= j && j + 1 < s.len() implies #[trigger] s[j]
                    != CR by {
                    assert(s[j] == enc[j - pos]);
                    assert(1 <= j - pos <= 2);
                }
                lemma_crlf_none(s, pos + 1);
            },
            SpecFrame::Bulk(b) => {
                lemma_dec_rep(b.len());
                let rep = dec_rep(b.len());
                let k = rep.len() as int;
                let n = b.len() as int;
                assert(len == k + n + 5);
                if avail < k + 3 {
                    assert forall|j: int| pos + 1 <= j && j + 1 < s.len() implies #[trigger] s[j]
                        != CR by {
                        assert(s[j] == enc[j - pos]);
                        assert(1 <= j - pos <= k);
                        assert(enc[j - pos] == rep[j - pos - 1]);
                        assert(48 <= rep[j - pos - 1] <= 57);
                    }
                    lemma_crlf_none(s, pos + 1);
                } else {
                    assert forall|j: int| pos + 1 <= j < pos + 1 + k implies #[trigger] s[j]
                        != CR by {
                        assert(s[j] == enc[j - pos]);
                        assert(enc[j - pos] == rep[j - pos - 1]);
                        assert(48 <= rep[j - pos - 1] <= 57);
                    }
                    assert(s[pos + 1 + k] == enc[1 + k] && enc[1 + k] == CR);
                    assert(s[pos + 2 + k] == enc[2 + k] && enc[2 + k] == LF);
                    lemma_crlf_exact(s, pos + 1, k);
                    assert(s.subrange(pos + 1, pos + 1 + k) =~= rep) by {
                        assert forall|i: int| 0 <= i < k implies s.subrange(
                            pos + 1,
                            pos + 1 + k,
                        )[i] == rep[i] by {
                            assert(s[pos + 1 + i] == enc[(pos + 1 + i) - pos]);
                            assert(enc[1 + i] == rep[i]);
                        }
                    }
                    assert(48 <= rep[0] <= 57);
                    assert(int_of(rep) == Some(n));
                }
            },
            SpecFrame::Array(items) => {
                lemma_dec_rep(items.len());
                let rep = dec_rep(items.len());
                let k = rep.len() as int;
                let n = items.len() as int;
                let es = encode_seq(items);
                assert(len == k + 3 + es.len());
                if avail < k + 3 {
                    assert forall|j: int| pos + 1 <= j && j + 1 < s.len() implies #[trigger] s[j]
                        != CR by {
                        assert(s[j] == enc[j - pos]);
                        assert(1 <= j - pos <= k);
                        assert(enc[j - pos] == rep[j - pos - 1]);
                        assert(48 <= rep[j - pos - 1] <= 57);
                    }
                    lemma_crlf_none(s, pos + 1);
                } else {
                    assert forall|j: int| pos + 1 <= j < pos + 1 + k implies #[trigger] s[j]
                        != CR by {
                        assert(s[j] == enc[j - pos]);
                        assert(enc[j - pos] == rep[j - pos - 1]);
                        assert(48 <= rep[j - pos - 1] <= 57);
                    }
                    assert(s[pos + 1 + k] == enc[1 + k] && enc[1 + k] == CR);
                    assert(s[pos + 2 + k] == enc[2 + k] && enc[2 + k] == LF);
                    lemma_crlf_exact(s, pos + 1, k);
                    assert(s.subrange(pos + 1, pos + 1 + k) =~= rep) by {
                        assert forall|i: int| 0 <= i < k implies s.subrange(
                            pos + 1,
                            pos + 1 + k,
                        )[i] == rep[i] by {
                            assert(s[pos + 1 + i] == enc[(pos + 1 + i) - pos]);
                            assert(enc[1 + i] == rep[i]);
                        }
                    }
                    assert(48 <= rep[0] <= 57);
                    assert(int_of(rep) == Some(n));
                    let body = pos + 1 + k + 2;
                    assert(s.skip(body) =~= es.take(s.len() - body)) by {
                        assert forall|i: int| 0 <= i < s.len() - body implies s.skip(body)[i]
                            == es.take(s.len() - body)[i] by {
                            assert(s[body + i] == enc[(body + i) - pos]);
                            assert(enc[3 + k + i] == es[i]);
                        }
                    }
                    lemma_parse_prefix_elems(s, body, items);
                }
            },
        }
    }
}

/// Incremental delivery for a run of frames: a strict prefix of the
/// concatenated encodings parses to `Incomplete`.
pub proof fn lemma_parse_prefix_elems(s: Seq<u8>, pos: int, items: Seq<SpecFrame>)
    requires
        frames_wf(items),
        0 <= pos <= s.len(),
        s.len() - pos < encode_seq(items).len(),
        s.skip(pos) == encode_seq(items).take(s.len() - pos),
    ensures
        parse_elems(s, pos, items.len()) == ElemsOut::Incomplete,
    decreases items,
{
    let es = encode_seq(items);
    let avail = s.len() - pos;
    assert(items.len() > 0);
    let first = items.first();
    let e0 = encode_spec(first);
    let rest = items.drop_first();
    let er = encode_seq(rest);
    assert forall|j: int| pos <= j < s.len() implies s[j] == es[j - pos] by {
        assert(s.skip(pos)[j - pos] == s[j]);
        assert(es.take(avail)[j - pos] == es[j - pos]);
    }
    if avail < e0.len() {
        assert(s.skip(pos) =~= e0.take(avail)) by {
            assert forall|i: int| 0 <= i < avail implies s.skip(pos)[i] == e0.take(avail)[i] by {
                assert(s[pos + i] == es[i]);
                assert(es[i] == e0[i]);
            }
        }
        lemma_parse_prefix_incomplete(s, pos, first);
    } else {
        assert(s.subrange(pos, pos + e0.len()) =~= e0) by {
            assert forall|i: int| 0 <= i < e0.len() implies s.subrange(pos, pos + e0.len())[i]
                == e0[i] by {
                assert(s[pos + i] == es[i]);
                assert(es[i] == e0[i]);
            }
        }
        lemma_parse_encoded(s, pos, first);
        let mid = pos + e0.len();
        assert(s.skip(mid) =~= er.take(s.len() - mid)) by {
            assert forall|i: int| 0 <= i < s.len() - mid implies s.skip(mid)[i] == er.take(
                s.len() - mid,
            )[i] by {
                assert(s[mid + i] == es[(mid + i) - pos]);
                assert(es[e0.len() + i] == er[i]);
            }
        }
        lemma_parse_prefix_elems(s, mid, rest);
    }
}

/// Round-trip: the encoding of any well-formed frame parses back to exactly
/// that frame, consuming exactly its whole length.
pub proof fn lemma_round_trip(v: SpecFrame)
    requires
        frame_wf(v),
    ensures
        parse_at(encode_spec(v), 0) == ParseOut::Frame(v, encode_spec(v).len() as nat),
{
    let enc = encode_spec(v);
    assert(enc.subrange(0, enc.len() as int) =~= enc);
    lemma_parse_encoded(enc, 0, v);
}

/// Null and empty have different encodings, for bulk strings and arrays
/// alike; with the round-trip law, decoding each yields its own variant.
pub proof fn lemma_null_empty_distinct()
    ensures
        encode_spec(SpecFrame::ArrayNull) != encode_spec(SpecFrame::Array(Seq::empty())),
        encode_spec(SpecFrame::BulkNull) != encode_spec(SpecFrame::Bulk(Seq::empty())),
{
    assert(encode_spec(SpecFrame::ArrayNull).len() == 5);
    assert(encode_spec(SpecFrame::BulkNull).len() == 5);
    assert(dec_rep(0).len() == 1);
    assert(encode_seq(Seq::empty()).len() == 0);
    assert(encode_spec(SpecFrame::Array(Seq::empty())).len() == 4);
    assert(encode_spec(SpecFrame::Bulk(Seq::empty())).len() == 6);
}

} // verus!
