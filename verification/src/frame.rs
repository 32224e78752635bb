//! The RESP frame model: a tagged union over every wire value, together with
//! its mathematical view (`SpecFrame`) used by all codec contracts.
use vstd::prelude::*;

verus! {

/// A bulk string: length-prefixed binary data, or the distinguished null
/// bulk string. Null and empty are distinct values on the wire.
#[derive(Debug, PartialEq, Eq)]
pub enum BulkString {
    Normal(Vec<u8>),
    Null,
}

/// An array of frames, or the distinguished null array. Null and empty are
/// distinct values on the wire.
#[derive(Debug, PartialEq)]
pub enum RespArray {
    Normal(Vec<RespFrame>),
    Null,
}

/// One self-describing value of the wire protocol.
#[derive(Debug, PartialEq)]
pub enum RespFrame {
    /// Short trusted text; well-formed frames hold no CR or LF byte here.
    SimpleString(Vec<u8>),
    /// A protocol- or application-level error reply; same shape as a simple string.
    SimpleError(Vec<u8>),
    Integer(i64),
    BulkString(BulkString),
    Array(RespArray),
}

/// The mathematical shape of a frame: what the codec contracts speak about.
pub enum SpecFrame {
    Simple(Seq<u8>),
    SimpleError(Seq<u8>),
    Integer(int),
    Bulk(Seq<u8>),
    BulkNull,
    Array(Seq<SpecFrame>),
    ArrayNull,
}

pub open spec fn bulk_view(b: BulkString) -> SpecFrame {
    match b {
        BulkString::Normal(data) => SpecFrame::Bulk(data@),
        BulkString::Null => SpecFrame::BulkNull,
    }
}

pub open spec fn frame_view(f: RespFrame) -> SpecFrame
    decreases f,
{
    match f {
        RespFrame::SimpleString(s) => SpecFrame::Simple(s@),
        RespFrame::SimpleError(s) => SpecFrame::SimpleError(s@),
        RespFrame::Integer(n) => SpecFrame::Integer(n as int),
        RespFrame::BulkString(b) => bulk_view(b),
        RespFrame::Array(RespArray::Normal(items)) => SpecFrame::Array(frames_view(items@)),
        RespFrame::Array(RespArray::Null) => SpecFrame::ArrayNull,
    }
}

pub open spec fn frames_view(s: Seq<RespFrame>) -> Seq<SpecFrame>
    decreases s,
{
    if s.len() == 0 {
        Seq::empty()
    } else {
        seq![frame_view(s.first())] + frames_view(s.drop_first())
    }
}

impl View for BulkString {
    type V = SpecFrame;

    open spec fn view(&self) -> SpecFrame {
        bulk_view(*self)
    }
}

impl View for RespFrame {
    type V = SpecFrame;

    open spec fn view(&self) -> SpecFrame {
        frame_view(*self)
    }
}

impl View for RespArray {
    type V = SpecFrame;

    open spec fn view(&self) -> SpecFrame {
        match *self {
            RespArray::Normal(items) => SpecFrame::Array(frames_view(items@)),
            RespArray::Null => SpecFrame::ArrayNull,
        }
    }
}

pub broadcast proof fn frames_view_len(s: Seq<RespFrame>)
    ensures
        #[trigger] frames_view(s).len() == s.len(),
    decreases s,
{
    if s.len() > 0 {
        frames_view_len(s.drop_first());
    }
}

pub broadcast proof fn frames_view_index(s: Seq<RespFrame>, i: int)
    requires
        0 <= i < s.len(),
    ensures
        #[trigger] frames_view(s)[i] == frame_view(s[i]),
    decreases s,
{
    frames_view_len(s);
    if i > 0 {
        frames_view_index(s.drop_first(), i - 1);
    }
}

/// Dropping a prefix of a frame list drops the same prefix of its view.
pub proof fn frames_view_skip(s: Seq<RespFrame>, k: int)
    requires
        0 <= k <= s.len(),
    ensures
        frames_view(s.skip(k)) == frames_view(s).skip(k),
{
    frames_view_len(s);
    frames_view_len(s.skip(k));
    assert forall|i: int| 0 <= i < s.len() - k implies frames_view(s.skip(k))[i] == frames_view(
        s,
    ).skip(k)[i] by {
        frames_view_index(s.skip(k), i);
        frames_view_index(s, k + i);
        assert(s.skip(k)[i] == s[k + i]);
    }
    assert(frames_view(s.skip(k)) =~= frames_view(s).skip(k));
}

impl RespArray {
    /// An array of the given frames. An empty array is distinct from the
    /// null array; callers wanting the latter use `RespArray::Null` directly.
    pub fn new(frames: Vec<RespFrame>) -> (r: RespArray)
        ensures
            r == RespArray::Normal(frames),
    {
        RespArray::Normal(frames)
    }

    pub fn empty() -> (r: RespArray)
        ensures
            r@ == SpecFrame::Array(Seq::<SpecFrame>::empty()),
    {
        RespArray::Normal(Vec::new())
    }
}

impl BulkString {
    pub fn new(data: Vec<u8>) -> (r: BulkString)
        ensures
            r == BulkString::Normal(data),
    {
        BulkString::Normal(data)
    }

    /// The same bulk string with every ASCII lowercase letter replaced by its
    /// uppercase counterpart; the null bulk string is left as it is.
    pub fn to_ascii_uppercase(&self) -> (r: BulkString)
        ensures
            r@ == spec_upper_frame(self@),
    {
        match self {
            BulkString::Normal(data) => {
                let mut out: Vec<u8> = Vec::new();
                let mut i: usize = 0;
                while i < data.len()
                    invariant
                        i <= data.len(),
                        out@ == data@.take(i as int).map_values(|b: u8| spec_upper(b)),
                    decreases data.len() - i,
                {
                    out.push(upper_byte(data[i]));
                    i = i + 1;
                    proof {
                        assert(data@.take(i as int).drop_last() =~= data@.take(i - 1));
                        assert(data@.take(i as int).map_values(|b: u8| spec_upper(b)) =~= data@.take(
                            i - 1,
                        ).map_values(|b: u8| spec_upper(b)).push(spec_upper(data@[i - 1])));
                    }
                }
                proof {
                    assert(data@.take(data@.len() as int) =~= data@);
                }
                BulkString::Normal(out)
            },
            BulkString::Null => BulkString::Null,
        }
    }
}

pub(crate) fn clone_bytes(data: &Vec<u8>) -> (r: Vec<u8>)
    ensures
        r@ == data@,
{
    let mut out: Vec<u8> = Vec::new();
    let mut i: usize = 0;
    while i < data.len()
        invariant
            i <= data.len(),
            out@ == data@.take(i as int),
        decreases data.len() - i,
    {
        out.push(data[i]);
        i = i + 1;
        proof {
            assert(out@ =~= data@.take(i as int));
        }
    }
    proof {
        assert(data@.take(data@.len() as int) =~= data@);
    }
    out
}

fn clone_frame(f: &RespFrame) -> (r: RespFrame)
    ensures
        r@ == f@,
    decreases *f,
{
    match f {
        RespFrame::SimpleString(s) => RespFrame::SimpleString(clone_bytes(s)),
        RespFrame::SimpleError(s) => RespFrame::SimpleError(clone_bytes(s)),
        RespFrame::Integer(n) => RespFrame::Integer(*n),
        RespFrame::BulkString(BulkString::Normal(data)) => RespFrame::BulkString(
            BulkString::Normal(clone_bytes(data)),
        ),
        RespFrame::BulkString(BulkString::Null) => RespFrame::BulkString(BulkString::Null),
        RespFrame::Array(RespArray::Null) => RespFrame::Array(RespArray::Null),
        RespFrame::Array(RespArray::Normal(items)) => RespFrame::Array(
            RespArray::Normal(clone_frames(items)),
        ),
    }
}

fn clone_frames(items: &Vec<RespFrame>) -> (r: Vec<RespFrame>)
    ensures
        frames_view(r@) == frames_view(items@),
        r@.len() == items@.len(),
    decreases *items,
{
    let mut out: Vec<RespFrame> = Vec::new();
    let mut i: usize = 0;
    while i < items.len()
        invariant
            i <= items.len(),
            frames_view(out@) == frames_view(items@.take(i as int)),
            out@.len() == i,
        decreases items.len() - i,
    {
        let c = clone_frame(&items[i]);
        let ghost prev = out@;
        out.push(c);
        i = i + 1;
        proof {
            lemma_frames_view_push(prev, c);
            lemma_frames_view_push(items@.take(i - 1), items@[i - 1]);
            assert(items@.take(i as int) =~= items@.take(i - 1).push(items@[i - 1]));
        }
    }
    proof {
        assert(items@.take(items@.len() as int) =~= items@);
    }
    out
}

/// Appending one frame to a list appends its view to the list's view.
pub proof fn lemma_frames_view_push(s: Seq<RespFrame>, f: RespFrame)
    ensures
        frames_view(s.push(f)) == frames_view(s) + seq![frame_view(f)],
    decreases s,
{
    if s.len() == 0 {
        let e = s.push(f).drop_first();
        assert(e =~= Seq::<RespFrame>::empty());
        assert(frames_view(e).len() == 0);
        assert(s.push(f).first() == f);
        assert(frames_view(s.push(f)) =~= seq![frame_view(f)] + frames_view(e));
        assert(frames_view(s.push(f)) =~= frames_view(s) + seq![frame_view(f)]);
    } else {
        assert(s.push(f).drop_first() =~= s.drop_first().push(f));
        assert(s.push(f).first() == s.first());
        lemma_frames_view_push(s.drop_first(), f);
        assert(frames_view(s.push(f)) =~= frames_view(s) + seq![frame_view(f)]);
    }
}

impl Clone for BulkString {
    fn clone(&self) -> (r: Self)
        ensures
            r@ == self@,
    {
        match self {
            BulkString::Normal(data) => BulkString::Normal(clone_bytes(data)),
            BulkString::Null => BulkString::Null,
        }
    }
}

impl Clone for RespFrame {
    fn clone(&self) -> (r: Self)
        ensures
            r@ == self@,
    {
        clone_frame(self)
    }
}

impl Clone for RespArray {
    fn clone(&self) -> (r: Self)
        ensures
            r@ == self@,
    {
        match self {
            RespArray::Normal(items) => RespArray::Normal(clone_frames(items)),
            RespArray::Null => RespArray::Null,
        }
    }
}

/// ASCII uppercasing of one byte.
pub open spec fn spec_upper(b: u8) -> u8 {
    if 97 <= b <= 122 {
        (b - 32) as u8
    } else {
        b
    }
}

/// ASCII uppercasing lifted to a whole bulk string.
pub open spec fn spec_upper_frame(v: SpecFrame) -> SpecFrame {
    match v {
        SpecFrame::Bulk(data) => SpecFrame::Bulk(data.map_values(|b: u8| spec_upper(b))),
        _ => v,
    }
}

fn upper_byte(b: u8) -> (r: u8)
    ensures
        r == spec_upper(b),
{
    if 97 <= b && b <= 122 {
        b - 32
    } else {
        b
    }
}

} // verus!
