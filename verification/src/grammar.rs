//! The wire grammar, stated mathematically: what the byte encoding of every
//! frame is, and what one incremental parsing step yields on any byte
//! sequence. The executable codec is verified against these definitions.
use vstd::prelude::*;

use crate::frame::SpecFrame;

verus! {

pub const CR: u8 = 13;

pub const LF: u8 = 10;

pub const PREFIX_SIMPLE: u8 = 43;

// '-' doubles as the error prefix (frame position) and the sign (inside a length line).
pub const PREFIX_ERROR: u8 = 45;

pub const PREFIX_INTEGER: u8 = 58;

pub const PREFIX_BULK: u8 = 36;

pub const PREFIX_ARRAY: u8 = 42;

pub open spec fn crlf() -> Seq<u8> {
    seq![CR, LF]
}

/// The decimal digits of `n`, most significant first, without leading zeros.
pub open spec fn dec_rep(n: nat) -> Seq<u8>
    decreases n,
{
    if n < 10 {
        seq![(48 + n) as u8]
    } else {
        dec_rep(n / 10) + seq![(48 + n % 10) as u8]
    }
}

/// The signed decimal representation used for integer frames.
pub open spec fn int_rep(n: int) -> Seq<u8> {
    if n < 0 {
        seq![PREFIX_ERROR] + dec_rep((-n) as nat)
    } else {
        dec_rep(n as nat)
    }
}

/// No CR or LF anywhere: the requirement on simple-string and error payloads.
pub open spec fn line_ok(s: Seq<u8>) -> bool {
    forall|i: int| 0 <= i < s.len() ==> #[trigger] s[i] != CR && s[i] != LF
}

/// A frame the codec promises to round-trip: line payloads are clean, and
/// every count fits the machine.
pub open spec fn frame_wf(v: SpecFrame) -> bool
    decreases v,
{
    match v {
        SpecFrame::Simple(s) => line_ok(s),
        SpecFrame::SimpleError(s) => line_ok(s),
        SpecFrame::Integer(n) => i64::MIN <= n <= i64::MAX,
        SpecFrame::Bulk(b) => b.len() <= usize::MAX,
        SpecFrame::BulkNull => true,
        SpecFrame::Array(items) => items.len() <= usize::MAX && frames_wf(items),
        SpecFrame::ArrayNull => true,
    }
}

pub open spec fn frames_wf(items: Seq<SpecFrame>) -> bool
    decreases items,
{
    items.len() == 0 || (frame_wf(items.first()) && frames_wf(items.drop_first()))
}

/// The bytes of one frame on the wire.
pub open spec fn encode_spec(v: SpecFrame) -> Seq<u8>
    decreases v,
{
    match v {
        SpecFrame::Simple(s) => seq![PREFIX_SIMPLE] + s + crlf(),
        SpecFrame::SimpleError(s) => seq![PREFIX_ERROR] + s + crlf(),
        SpecFrame::Integer(n) => seq![PREFIX_INTEGER] + int_rep(n) + crlf(),
        SpecFrame::Bulk(b) => seq![PREFIX_BULK] + dec_rep(b.len()) + crlf() + b + crlf(),
        SpecFrame::BulkNull => seq![PREFIX_BULK, PREFIX_ERROR, 49u8] + crlf(),
        SpecFrame::Array(items) => seq![PREFIX_ARRAY] + dec_rep(items.len()) + crlf()
            + encode_seq(items),
        SpecFrame::ArrayNull => seq![PREFIX_ARRAY, PREFIX_ERROR, 49u8] + crlf(),
    }
}

/// The concatenated encodings of a list of frames.
pub open spec fn encode_seq(items: Seq<SpecFrame>) -> Seq<u8>
    decreases items,
{
    if items.len() == 0 {
        Seq::empty()
    } else {
        encode_spec(items.first()) + encode_seq(items.drop_first())
    }
}

/// `int - int` clamped at zero; the parser's termination measure.
pub open spec fn clip(n: int) -> int {
    if n >= 0 {
        n
    } else {
        0
    }
}

/// Offset (relative to `from`) of the first CRLF pair wholly inside `s`,
/// if one is visible yet.
pub open spec fn crlf_off(s: Seq<u8>, from: int) -> Option<nat>
    decreases clip(s.len() - from),
{
    if from < 0 || from + 2 > s.len() {
        None
    } else if s[from] == CR && s[from + 1] == LF {
        Some(0)
    } else {
        match crlf_off(s, from + 1) {
            Some(k) => Some((k + 1) as nat),
            None => None,
        }
    }
}

pub open spec fn all_digits(s: Seq<u8>) -> bool {
    forall|i: int| 0 <= i < s.len() ==> 48 <= #[trigger] s[i] <= 57
}

/// The value of a digit string, most significant digit first.
pub open spec fn digits_val(s: Seq<u8>) -> int
    decreases s.len(),
{
    if s.len() == 0 {
        0
    } else {
        digits_val(s.drop_last()) * 10 + (s.last() - 48)
    }
}

/// The integer a length line denotes: an optional leading '-' followed by at
/// least one digit. Anything else is malformed.
pub open spec fn int_of(s: Seq<u8>) -> Option<int> {
    if s.len() >= 1 && s[0] == PREFIX_ERROR {
        let d = s.drop_first();
        if d.len() >= 1 && all_digits(d) {
            Some(-digits_val(d))
        } else {
            None
        }
    } else if s.len() >= 1 && all_digits(s) {
        Some(digits_val(s))
    } else {
        None
    }
}

/// What parsing one frame at position `pos` of `s` yields.
pub enum ParseOut {
    /// The bytes so far are a prefix of some frame; wait for more.
    Incomplete,
    /// No continuation of the bytes at `pos` is a frame.
    Malformed,
    /// A complete frame and the number of bytes it occupies.
    Frame(SpecFrame, nat),
}

/// What parsing `n` consecutive frames yields.
pub enum ElemsOut {
    Incomplete,
    Malformed,
    Elems(Seq<SpecFrame>, nat),
}

/// One incremental parsing step: either a complete frame together with its
/// exact extent, or a report that the bytes are still incomplete, or that
/// they are malformed. Defined on every byte sequence.
pub open spec fn parse_at(s: Seq<u8>, pos: int) -> ParseOut
    decreases clip(s.len() - pos), 0int,
{
    if pos < 0 || pos >= s.len() {
        ParseOut::Incomplete
    } else if s[pos] == PREFIX_SIMPLE || s[pos] == PREFIX_ERROR {
        match crlf_off(s, pos + 1) {
            None => ParseOut::Incomplete,
            Some(k) => {
                let content = s.subrange(pos + 1, pos + 1 + k);
                if s[pos] == PREFIX_SIMPLE {
                    ParseOut::Frame(SpecFrame::Simple(content), (k + 3) as nat)
                } else {
                    ParseOut::Frame(SpecFrame::SimpleError(content), (k + 3) as nat)
                }
            },
        }
    } else if s[pos] == PREFIX_INTEGER {
        match crlf_off(s, pos + 1) {
            None => ParseOut::Incomplete,
            Some(k) => match int_of(s.subrange(pos + 1, pos + 1 + k)) {
                None => ParseOut::Malformed,
                Some(n) => {
                    if i64::MIN <= n <= i64::MAX {
                        ParseOut::Frame(SpecFrame::Integer(n), (k + 3) as nat)
                    } else {
                        ParseOut::Malformed
                    }
                },
            },
        }
    } else if s[pos] == PREFIX_BULK {
        match crlf_off(s, pos + 1) {
            None => ParseOut::Incomplete,
            Some(k) => match int_of(s.subrange(pos + 1, pos + 1 + k)) {
                None => ParseOut::Malformed,
                Some(n) => {
                    if n == -1 {
                        ParseOut::Frame(SpecFrame::BulkNull, (k + 3) as nat)
                    } else if n < 0 || n > usize::MAX {
                        ParseOut::Malformed
                    } else {
                        let body = pos + 1 + k + 2;
                        if s.len() < body + n + 2 {
                            ParseOut::Incomplete
                        } else if s[body + n] == CR && s[body + n + 1] == LF {
                            ParseOut::Frame(
                                SpecFrame::Bulk(s.subrange(body, body + n)),
                                (k + 3 + n + 2) as nat,
                            )
                        } else {
                            ParseOut::Malformed
                        }
                    }
                },
            },
        }
    } else if s[pos] == PREFIX_ARRAY {
        match crlf_off(s, pos + 1) {
            None => ParseOut::Incomplete,
            Some(k) => match int_of(s.subrange(pos + 1, pos + 1 + k)) {
                None => ParseOut::Malformed,
                Some(n) => {
                    if n == -1 {
                        ParseOut::Frame(SpecFrame::ArrayNull, (k + 3) as nat)
                    } else if n < 0 || n > usize::MAX {
                        ParseOut::Malformed
                    } else {
                        match parse_elems(s, pos + 1 + k + 2, n as nat) {
                            ElemsOut::Incomplete => ParseOut::Incomplete,
                            ElemsOut::Malformed => ParseOut::Malformed,
                            ElemsOut::Elems(vs, c) => ParseOut::Frame(
                                SpecFrame::Array(vs),
                                (k + 3 + c) as nat,
                            ),
                        }
                    }
                },
            },
        }
    } else {
        ParseOut::Malformed
    }
}

/// Parse `n` frames one after another, adding up their extents.
pub open spec fn parse_elems(s: Seq<u8>, pos: int, n: nat) -> ElemsOut
    decreases clip(s.len() - pos), n + 1int,
{
    if n == 0 {
        ElemsOut::Elems(Seq::empty(), 0)
    } else {
        match parse_at(s, pos) {
            ParseOut::Incomplete => ElemsOut::Incomplete,
            ParseOut::Malformed => ElemsOut::Malformed,
            ParseOut::Frame(v, c) => match parse_elems(s, pos + c, (n - 1) as nat) {
                ElemsOut::Incomplete => ElemsOut::Incomplete,
                ElemsOut::Malformed => ElemsOut::Malformed,
                ElemsOut::Elems(vs, c2) => ElemsOut::Elems(seq![v] + vs, (c + c2) as nat),
            },
        }
    }
}

} // verus!
