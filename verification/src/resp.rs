//! RESP (Redis serialization protocol) frames: a binary-safe, length-prefixed
//! wire format. Parsing and encoding are exact inverses for well-formed
//! frames, and `lemma_resp_round_trip` proves it.

use vstd::prelude::*;
use crate::num::{
    dec_digits, dec_digits_signed, format_i64, parse_i64, spec_parse_i64,
};
use crate::wire::{crlf_at, find_crlf, spec_find_crlf, lemma_spec_find_crlf, lemma_find_crlf_at};

verus! {

/// A RESP frame.
#[derive(Debug, PartialEq, Eq)]
pub enum Frame {
    /// Simple string: `+…\r\n`.
    Simple(Vec<u8>),
    /// Error: `-…\r\n`.
    Error(Vec<u8>),
    /// Integer: `:…\r\n`.
    Integer(i64),
    /// Bulk string: `$len\r\n<data>\r\n`, or `$-1\r\n` (null).
    Bulk(Option<Vec<u8>>),
    /// Array: `*N\r\n<frames>`, or `*-1\r\n` (null).
    Array(Option<Vec<Frame>>),
}

/// The mathematical shape of a RESP frame.
pub ghost enum FrameModel {
    /// Simple string payload.
    Simple(Seq<u8>),
    /// Error payload.
    Error(Seq<u8>),
    /// Integer payload.
    Integer(i64),
    /// Bulk string payload, `None` for the null bulk string.
    Bulk(Option<Seq<u8>>),
    /// Array elements, `None` for the null array.
    Array(Option<Seq<FrameModel>>),
}

impl Frame {
    /// The frame's mathematical shape.
    pub open spec fn view(self) -> FrameModel
        decreases self, 0int,
    {
        match self {
            Frame::Simple(s) => FrameModel::Simple(s@),
            Frame::Error(s) => FrameModel::Error(s@),
            Frame::Integer(n) => FrameModel::Integer(n),
            Frame::Bulk(None) => FrameModel::Bulk(None),
            Frame::Bulk(Some(d)) => FrameModel::Bulk(Some(d@)),
            Frame::Array(None) => FrameModel::Array(None),
            Frame::Array(Some(v)) => FrameModel::Array(Some(view_elems(v@, 0))),
        }
    }
}

/// The shapes of the frames `v[i..]`, in order.
pub open spec fn view_elems(v: Seq<Frame>, i: int) -> Seq<FrameModel>
    decreases v, v.len() - i,
{
    if 0 <= i < v.len() {
        seq![v[i].view()] + view_elems(v, i + 1)
    } else {
        Seq::empty()
    }
}

/// `view_elems` from the start maps each frame to its shape.
pub proof fn lemma_view_elems0(v: Seq<Frame>)
    ensures
        view_elems(v, 0).len() == v.len(),
        forall|j: int| 0 <= j < v.len() ==> view_elems(v, 0)[j] == v[j].view(),
{
    lemma_view_elems(v, 0);
    assert forall|j: int| 0 <= j < v.len() implies view_elems(v, 0)[j] == v[j].view() by {
        assert(view_elems(v, 0)[j - 0] == v[j].view());
    }
}

/// `view_elems` maps each frame to its shape.
pub proof fn lemma_view_elems(v: Seq<Frame>, i: int)
    requires
        0 <= i <= v.len(),
    ensures
        view_elems(v, i).len() == v.len() - i,
        forall|j: int| i <= j < v.len() ==> view_elems(v, i)[j - i] == v[j].view(),
    decreases v.len() - i,
{
    if i < v.len() {
        lemma_view_elems(v, i + 1);
        assert forall|j: int| i <= j < v.len() implies
            view_elems(v, i)[j - i] == v[j].view() by {
            if j > i {
                assert(view_elems(v, i)[j - i] == view_elems(v, i + 1)[j - i - 1]);
            }
        }
    }
}

/// The line terminator.
pub open spec fn crlf() -> Seq<u8> {
    seq![13u8, 10u8]
}

/// Canonical encoding of a frame.
pub open spec fn spec_encode(f: FrameModel) -> Seq<u8>
    decreases f, 0int,
{
    match f {
        FrameModel::Simple(s) => seq![43u8] + s + crlf(),
        FrameModel::Error(s) => seq![45u8] + s + crlf(),
        FrameModel::Integer(n) => seq![58u8] + dec_digits_signed(n as int) + crlf(),
        FrameModel::Bulk(None) => seq![36u8, 45u8, 49u8, 13u8, 10u8],
        FrameModel::Bulk(Some(d)) =>
            seq![36u8] + dec_digits(d.len()) + crlf() + d + crlf(),
        FrameModel::Array(None) => seq![42u8, 45u8, 49u8, 13u8, 10u8],
        FrameModel::Array(Some(fs)) =>
            seq![42u8] + dec_digits(fs.len()) + crlf() + spec_encode_elems(fs, 0),
    }
}

/// Concatenated canonical encodings of `fs[i..]`.
pub open spec fn spec_encode_elems(fs: Seq<FrameModel>, i: int) -> Seq<u8>
    decreases fs, fs.len() - i,
{
    if 0 <= i < fs.len() {
        spec_encode(fs[i]) + spec_encode_elems(fs, i + 1)
    } else {
        Seq::empty()
    }
}

impl Frame {
    /// Append the canonical encoding of the frame to `buf`.
    pub fn encode_into(&self, buf: &mut Vec<u8>)
        ensures
            final(buf)@ == old(buf)@ + spec_encode(self.view()),
        decreases *self, 0int,
    {
        match self {
            Frame::Simple(s) => {
                buf.push(43u8);
                buf.extend_from_slice(s.as_slice());
                buf.push(13u8);
                buf.push(10u8);
                proof {
                    assert(buf@ =~= old(buf)@ + spec_encode(self.view()));
                }
            }
            Frame::Error(s) => {
                buf.push(45u8);
                buf.extend_from_slice(s.as_slice());
                buf.push(13u8);
                buf.push(10u8);
                proof {
                    assert(buf@ =~= old(buf)@ + spec_encode(self.view()));
                }
            }
            Frame::Integer(n) => {
                buf.push(58u8);
                let digits = format_i64(*n);
                buf.extend_from_slice(digits.as_slice());
                buf.push(13u8);
                buf.push(10u8);
                proof {
                    assert(buf@ =~= old(buf)@ + spec_encode(self.view()));
                }
            }
            Frame::Bulk(None) => {
                let bytes = [36u8, 45u8, 49u8, 13u8, 10u8];
                buf.extend_from_slice(bytes.as_slice());
                proof {
                    assert(buf@ =~= old(buf)@ + spec_encode(self.view()));
                }
            }
            Frame::Bulk(Some(d)) => {
                buf.push(36u8);
                let digits = crate::num::format_u64(d.len() as u64);
                buf.extend_from_slice(digits.as_slice());
                buf.push(13u8);
                buf.push(10u8);
                buf.extend_from_slice(d.as_slice());
                buf.push(13u8);
                buf.push(10u8);
                proof {
                    assert(buf@ =~= old(buf)@ + spec_encode(self.view()));
                }
            }
            Frame::Array(None) => {
                let bytes = [42u8, 45u8, 49u8, 13u8, 10u8];
                buf.extend_from_slice(bytes.as_slice());
                proof {
                    assert(buf@ =~= old(buf)@ + spec_encode(self.view()));
                }
            }
            Frame::Array(Some(frames)) => {
                let ghost fs = view_elems(frames@, 0);
                buf.push(42u8);
                let digits = crate::num::format_u64(frames.len() as u64);
                buf.extend_from_slice(digits.as_slice());
                buf.push(13u8);
                buf.push(10u8);
                proof {
                    lemma_view_elems(frames@, 0);
                    assert(buf@ + spec_encode_elems(fs, 0)
                        =~= old(buf)@ + spec_encode(self.view()));
                }
                let n = frames.len();
                for i in 0..n
                    invariant
                        n == frames@.len(),
                        *self == Frame::Array(Some(*frames)),
                        fs == view_elems(frames@, 0),
                        fs.len() == n,
                        forall|j: int| 0 <= j < n ==> fs[j] == frames@[j].view(),
                        buf@ + spec_encode_elems(fs, i as int)
                            == old(buf)@ + spec_encode(self.view()),
                {
                    proof {
                        assert(decreases_to!(*self => self->Array_0));
                        assert(self->Array_0 == Some(*frames));
                        assert(decreases_to!(self->Array_0 => self->Array_0->0));
                        assert(self->Array_0->0 == *frames);
                        assert(decreases_to!(*frames => frames@));
                        assert(decreases_to!(frames@ => frames@[i as int]));
                        assert(decreases_to!(*self => frames@[i as int]));
                    }
                    let ghost pre = buf@;
                    frames[i].encode_into(buf);
                    proof {
                        assert(spec_encode_elems(fs, i as int)
                            == spec_encode(fs[i as int]) + spec_encode_elems(fs, i + 1));
                        assert(buf@ + spec_encode_elems(fs, i + 1)
                            =~= old(buf)@ + spec_encode(self.view()));
                    }
                }
                proof {
                    assert(spec_encode_elems(fs, n as int) =~= Seq::<u8>::empty());
                    assert(buf@ =~= buf@ + spec_encode_elems(fs, n as int));
                }
            }
        }
    }

    /// The canonical encoding of the frame.
    pub fn encode(&self) -> (r: Vec<u8>)
        ensures
            r@ == spec_encode(self.view()),
    {
        let mut buf: Vec<u8> = Vec::new();
        self.encode_into(&mut buf);
        proof {
            assert(buf@ =~= spec_encode(self.view()));
        }
        buf
    }

    /// A simple-string frame.
    pub fn simple(s: Vec<u8>) -> (r: Frame)
        ensures
            r.view() == FrameModel::Simple(s@),
    {
        Frame::Simple(s)
    }

    /// An error frame.
    pub fn error(s: Vec<u8>) -> (r: Frame)
        ensures
            r.view() == FrameModel::Error(s@),
    {
        Frame::Error(s)
    }

    /// The null bulk string.
    pub fn null() -> (r: Frame)
        ensures
            r.view() == FrameModel::Bulk(None),
    {
        Frame::Bulk(None)
    }

    /// A bulk-string frame.
    pub fn bulk(data: Vec<u8>) -> (r: Frame)
        ensures
            r.view() == FrameModel::Bulk(Some(data@)),
    {
        Frame::Bulk(Some(data))
    }

    /// An integer frame.
    pub fn integer(n: i64) -> (r: Frame)
        ensures
            r.view() == FrameModel::Integer(n),
    {
        Frame::Integer(n)
    }

    /// An array frame.
    pub fn array(frames: Vec<Frame>) -> (r: Frame)
        ensures
            r.view() == FrameModel::Array(Some(view_elems(frames@, 0))),
    {
        Frame::Array(Some(frames))
    }
}

/// Result of parsing a frame, at the spec level.
pub ghost enum ParseModel {
    /// A frame and the bytes it consumed.
    Complete(FrameModel, int),
    /// More input is needed.
    Incomplete,
    /// The input violates the protocol.
    Error,
}

/// Result of parsing a run of frames, at the spec level.
pub ghost enum ElemsModel {
    /// The frames and the bytes they consumed.
    Complete(Seq<FrameModel>, int),
    /// More input is needed.
    Incomplete,
    /// The input violates the protocol.
    Error,
}

/// Parse one frame off the front of `s`.
pub open spec fn spec_parse(s: Seq<u8>) -> ParseModel
    decreases s.len(), 0int,
    via spec_parse_decreases
{
    if s.len() == 0 {
        ParseModel::Incomplete
    } else if s[0] == 43 || s[0] == 45 {
        let e = spec_find_crlf(s);
        if e < 0 {
            ParseModel::Incomplete
        } else {
            let line = s.subrange(1, e);
            if s[0] == 43 {
                ParseModel::Complete(FrameModel::Simple(line), e + 2)
            } else {
                ParseModel::Complete(FrameModel::Error(line), e + 2)
            }
        }
    } else if s[0] == 58 {
        let e = spec_find_crlf(s);
        if e < 0 {
            ParseModel::Incomplete
        } else {
            match spec_parse_i64(s.subrange(1, e)) {
                Some(n) => ParseModel::Complete(FrameModel::Integer(n), e + 2),
                None => ParseModel::Error,
            }
        }
    } else if s[0] == 36 {
        let e = spec_find_crlf(s);
        if e < 0 {
            ParseModel::Incomplete
        } else {
            match spec_parse_i64(s.subrange(1, e)) {
                None => ParseModel::Error,
                Some(len) => if len < 0 {
                    ParseModel::Complete(FrameModel::Bulk(None), e + 2)
                } else {
                    let ds = e + 2;
                    let de = ds + len;
                    if s.len() < de + 2 {
                        ParseModel::Incomplete
                    } else if s[de] != 13 || s[de + 1] != 10 {
                        ParseModel::Error
                    } else {
                        ParseModel::Complete(
                            FrameModel::Bulk(Some(s.subrange(ds, de))), de + 2,
                        )
                    }
                },
            }
        }
    } else if s[0] == 42 {
        let e = spec_find_crlf(s);
        if e < 0 {
            ParseModel::Incomplete
        } else {
            match spec_parse_i64(s.subrange(1, e)) {
                None => ParseModel::Error,
                Some(len) => if len < 0 {
                    ParseModel::Complete(FrameModel::Array(None), e + 2)
                } else {
                    match spec_parse_elems(s.skip(e + 2), len as nat) {
                        ElemsModel::Complete(fs, c) => ParseModel::Complete(
                            FrameModel::Array(Some(fs)), e + 2 + c,
                        ),
                        ElemsModel::Incomplete => ParseModel::Incomplete,
                        ElemsModel::Error => ParseModel::Error,
                    }
                },
            }
        }
    } else {
        ParseModel::Error
    }
}

#[via_fn]
proof fn spec_parse_decreases(s: Seq<u8>) {
    lemma_spec_find_crlf(s);
}

/// Parse `n` frames off the front of `s`.
pub open spec fn spec_parse_elems(s: Seq<u8>, n: nat) -> ElemsModel
    decreases s.len(), n,
{
    if n == 0 {
        ElemsModel::Complete(Seq::empty(), 0)
    } else {
        match spec_parse(s) {
            ParseModel::Complete(f, c) => if 1 <= c <= s.len() {
                match spec_parse_elems(s.skip(c), (n - 1) as nat) {
                    ElemsModel::Complete(fs, c2) => ElemsModel::Complete(
                        seq![f] + fs, c + c2,
                    ),
                    ElemsModel::Incomplete => ElemsModel::Incomplete,
                    ElemsModel::Error => ElemsModel::Error,
                }
            } else {
                ElemsModel::Error
            },
            ParseModel::Incomplete => ElemsModel::Incomplete,
            ParseModel::Error => ElemsModel::Error,
        }
    }
}

/// Result of parsing a frame.
#[derive(Debug)]
pub enum ParseResult {
    /// Successfully parsed a frame, with the bytes consumed.
    Complete(Frame, usize),
    /// Need more data.
    Incomplete,
    /// The input violates the protocol.
    Error,
}

/// Parse one frame off the front of `buffer`.
pub fn parse(buffer: &[u8]) -> (r: ParseResult)
    ensures
        match r {
            ParseResult::Complete(f, c) => {
                &&& spec_parse(buffer@) == ParseModel::Complete(f.view(), c as int)
                &&& 1 <= c <= buffer@.len()
                &&& frame_within(f.view(), buffer@.len() as int)
            },
            ParseResult::Incomplete => spec_parse(buffer@) is Incomplete,
            ParseResult::Error => spec_parse(buffer@) is Error,
        },
    decreases buffer@.len(),
{
    let n = buffer.len();
    if n == 0 {
        return ParseResult::Incomplete;
    }
    let tag = buffer[0];
    if tag == 43 || tag == 45 {
        let e = match find_crlf(buffer) {
            Some(e) => e,
            None => {
                return ParseResult::Incomplete;
            }
        };
        let line = vstd::slice::slice_to_vec(&buffer[1..e]);
        if tag == 43 {
            ParseResult::Complete(Frame::Simple(line), e + 2)
        } else {
            ParseResult::Complete(Frame::Error(line), e + 2)
        }
    } else if tag == 58 {
        let e = match find_crlf(buffer) {
            Some(e) => e,
            None => {
                return ParseResult::Incomplete;
            }
        };
        match parse_i64(&buffer[1..e]) {
            Some(v) => ParseResult::Complete(Frame::Integer(v), e + 2),
            None => ParseResult::Error,
        }
    } else if tag == 36 {
        let e = match find_crlf(buffer) {
            Some(e) => e,
            None => {
                return ParseResult::Incomplete;
            }
        };
        match parse_i64(&buffer[1..e]) {
            None => ParseResult::Error,
            Some(len) => {
                if len < 0 {
                    ParseResult::Complete(Frame::Bulk(None), e + 2)
                } else {
                    let ds = e + 2;
                    let remaining = n - ds;
                    if (len as u64) > u64::MAX - 2 || (len as u64) + 2 > remaining as u64 {
                        proof {
                            assert(buffer@.len() < e + 2 + len + 2);
                        }
                        return ParseResult::Incomplete;
                    }
                    let de = ds + (len as usize);
                    if buffer[de] != 13 || buffer[de + 1] != 10 {
                        return ParseResult::Error;
                    }
                    let data = vstd::slice::slice_to_vec(&buffer[ds..de]);
                    ParseResult::Complete(Frame::Bulk(Some(data)), de + 2)
                }
            }
        }
    } else if tag == 42 {
        let e = match find_crlf(buffer) {
            Some(e) => e,
            None => {
                return ParseResult::Incomplete;
            }
        };
        match parse_i64(&buffer[1..e]) {
            None => ParseResult::Error,
            Some(len) => {
                if len < 0 {
                    return ParseResult::Complete(Frame::Array(None), e + 2);
                }
                let start = e + 2;
                let ghost n0 = len as nat;
                let mut frames: Vec<Frame> = Vec::new();
                let mut offset = start;
                let mut k: u64 = 0;
                proof {
                    assert(view_elems(frames@, 0) =~= Seq::<FrameModel>::empty());
                    let m0 = spec_parse_elems(buffer@.skip(start as int), n0);
                    match m0 {
                        ElemsModel::Complete(fs, c) => {
                            assert(view_elems(frames@, 0) + fs =~= fs);
                        }
                        ElemsModel::Incomplete => {}
                        ElemsModel::Error => {}
                    }
                }
                while k < len as u64
                    invariant
                        n == buffer@.len(),
                        2 <= start <= offset <= n,
                        0 <= len,
                        0 <= k <= len as u64,
                        n0 == len as nat,
                        k <= n0,
                        spec_parse(buffer@) == (
                            match spec_parse_elems(buffer@.skip(start as int), n0) {
                                ElemsModel::Complete(fs, c) => ParseModel::Complete(
                                    FrameModel::Array(Some(fs)), start + c,
                                ),
                                ElemsModel::Incomplete => ParseModel::Incomplete,
                                ElemsModel::Error => ParseModel::Error,
                            }
                        ),
                        spec_parse_elems(buffer@.skip(start as int), n0) == (
                            match spec_parse_elems(
                                buffer@.skip(offset as int), (n0 - k) as nat,
                            ) {
                                ElemsModel::Complete(fs, c) => ElemsModel::Complete(
                                    view_elems(frames@, 0) + fs, offset - start + c,
                                ),
                                ElemsModel::Incomplete => ElemsModel::Incomplete,
                                ElemsModel::Error => ElemsModel::Error,
                            }
                        ),
                        frames@.len() == k,
                        view_elems(frames@, 0).len() == k,
                        k <= offset - start,
                        forall|j: int| 0 <= j < k ==>
                            frame_within(#[trigger] view_elems(frames@, 0)[j], n as int),
                    decreases len as u64 - k,
                {
                    let sub = vstd::slice::slice_subrange(buffer, offset, n);
                    proof {
                        assert(sub@ =~= buffer@.skip(offset as int));
                    }
                    let ghost pre_frames = frames@;
                    let ghost pre_offset = offset as int;
                    match parse(sub) {
                        ParseResult::Complete(f, c) => {
                            frames.push(f);
                            offset = offset + c;
                            k = k + 1;
                            proof {
                                assert(buffer@.skip(pre_offset).skip(c as int)
                                    =~= buffer@.skip(offset as int));
                                lemma_view_elems0(pre_frames);
                                lemma_view_elems0(frames@);
                                assert(view_elems(frames@, 0)
                                    =~= view_elems(pre_frames, 0) + seq![f.view()]);
                                assert(spec_parse(buffer@.skip(pre_offset))
                                    == ParseModel::Complete(f.view(), c as int));
                                let s_pre = buffer@.skip(pre_offset);
                                assert(1 <= c <= s_pre.len());
                                assert(s_pre.skip(c as int) =~= buffer@.skip(offset as int));
                                assert(((n0 - (k - 1)) as nat) > 0);
                                let m2 = spec_parse_elems(
                                    buffer@.skip(offset as int), (n0 - k) as nat,
                                );
                                reveal_with_fuel(spec_parse_elems, 2);
                                assert(spec_parse_elems(
                                    buffer@.skip(pre_offset), (n0 - (k - 1)) as nat,
                                ) == (
                                    match m2 {
                                        ElemsModel::Complete(fs, c2) => ElemsModel::Complete(
                                            seq![f.view()] + fs, c + c2,
                                        ),
                                        ElemsModel::Incomplete => ElemsModel::Incomplete,
                                        ElemsModel::Error => ElemsModel::Error,
                                    }
                                ));
                                match m2 {
                                    ElemsModel::Complete(fs2, c2) => {
                                        assert(view_elems(pre_frames, 0)
                                            + (seq![f.view()] + fs2)
                                            =~= view_elems(frames@, 0) + fs2);
                                    }
                                    ElemsModel::Incomplete => {}
                                    ElemsModel::Error => {}
                                }
                                lemma_frame_within_mono(
                                    f.view(), sub@.len() as int, n as int,
                                );
                                assert forall|j: int| 0 <= j < k implies
                                    frame_within(
                                        #[trigger] view_elems(frames@, 0)[j], n as int,
                                    ) by {
                                    if j < k - 1 {
                                        assert(view_elems(frames@, 0)[j]
                                            == view_elems(pre_frames, 0)[j]);
                                    } else {
                                        assert(view_elems(frames@, 0)[j] == f.view());
                                    }
                                }
                            }
                        }
                        ParseResult::Incomplete => {
                            proof {
                                reveal_with_fuel(spec_parse_elems, 2);
                                assert(((n0 - k) as nat) > 0);
                                assert(spec_parse_elems(
                                    buffer@.skip(offset as int), (n0 - k) as nat,
                                ) is Incomplete);
                            }
                            return ParseResult::Incomplete;
                        }
                        ParseResult::Error => {
                            proof {
                                reveal_with_fuel(spec_parse_elems, 2);
                                assert(((n0 - k) as nat) > 0);
                                assert(spec_parse_elems(
                                    buffer@.skip(offset as int), (n0 - k) as nat,
                                ) is Error);
                            }
                            return ParseResult::Error;
                        }
                    }
                }
                proof {
                    assert(spec_parse_elems(buffer@.skip(offset as int), (n0 - k) as nat)
                        == ElemsModel::Complete(Seq::<FrameModel>::empty(), 0));
                    assert(view_elems(frames@, 0) + Seq::<FrameModel>::empty()
                        =~= view_elems(frames@, 0));
                    lemma_frames_within_from_index(view_elems(frames@, 0), n as int);
                }
                ParseResult::Complete(Frame::Array(Some(frames)), offset)
            }
        }
    } else {
        ParseResult::Error
    }
}

/// No CRLF pair occurs inside `s`.
pub open spec fn no_crlf(s: Seq<u8>) -> bool {
    forall|j: int| 0 <= j < s.len() - 1 ==> !crlf_at(s, j)
}

/// A frame whose canonical encoding parses back to it: simple strings and
/// errors carry no line terminator, and bulk and array lengths fit the
/// signed 64-bit lengths of the wire format.
pub open spec fn frame_wf(f: FrameModel) -> bool
    decreases f, 0int,
{
    match f {
        FrameModel::Simple(s) => no_crlf(s),
        FrameModel::Error(s) => no_crlf(s),
        FrameModel::Integer(_) => true,
        FrameModel::Bulk(None) => true,
        FrameModel::Bulk(Some(d)) => d.len() <= i64::MAX,
        FrameModel::Array(None) => true,
        FrameModel::Array(Some(fs)) => fs.len() <= i64::MAX && frames_wf(fs, 0),
    }
}

/// All of `fs[i..]` are well-formed.
pub open spec fn frames_wf(fs: Seq<FrameModel>, i: int) -> bool
    decreases fs, fs.len() - i,
{
    if 0 <= i < fs.len() {
        frame_wf(fs[i]) && frames_wf(fs, i + 1)
    } else {
        true
    }
}

/// The first CRLF of a tagged header line followed by anything sits right
/// after the line's payload.
proof fn lemma_header_crlf(tag: u8, s: Seq<u8>, tail: Seq<u8>)
    requires
        tag != 13,
        no_crlf(s),
    ensures
        spec_find_crlf(seq![tag] + s + seq![13u8, 10u8] + tail) == 1 + s.len(),
{
    let full = seq![tag] + s + seq![13u8, 10u8] + tail;
    assert(full[1 + s.len() as int] == 13 && full[2 + s.len() as int] == 10);
    assert(crlf_at(full, 1 + s.len() as int));
    assert forall|j: int| 0 <= j < 1 + s.len() implies !crlf_at(full, j) by {
        if j == 0 {
            assert(full[0] == tag);
        } else if j < s.len() {
            assert(full[j] == s[j - 1] && full[j + 1] == s[j]);
            assert(!crlf_at(s, j - 1));
        } else {
            assert(full[j] == s[j - 1] && full[j + 1] == 13);
        }
    }
    lemma_find_crlf_at(full, 1 + s.len() as int);
}

/// Decimal digits contain no carriage return, so a numeral line holds no
/// CRLF pair.
proof fn lemma_digits_no_crlf(n: int)
    ensures
        no_crlf(dec_digits_signed(n)),
        n >= 0 ==> no_crlf(dec_digits(n as nat)),
{
    if n >= 0 {
        crate::num::lemma_dec_digits_value(n as nat);
        assert forall|j: int| 0 <= j < dec_digits_signed(n).len() - 1 implies
            !crlf_at(dec_digits_signed(n), j) by {
            assert(crate::num::is_digit(dec_digits(n as nat)[j]));
        }
    } else {
        crate::num::lemma_dec_digits_value((-n) as nat);
        let s = dec_digits_signed(n);
        assert forall|j: int| 0 <= j < s.len() - 1 implies !crlf_at(s, j) by {
            if j > 0 {
                assert(s[j] == dec_digits((-n) as nat)[j - 1]);
                assert(crate::num::is_digit(dec_digits((-n) as nat)[j - 1]));
            }
        }
    }
}

/// Every encoding is non-empty.
proof fn lemma_encode_nonempty(f: FrameModel)
    ensures
        spec_encode(f).len() >= 1,
{
    match f {
        FrameModel::Integer(n) => {
            if n >= 0 {
                crate::num::lemma_dec_digits_value(n as nat);
            } else {
                crate::num::lemma_dec_digits_value((-n) as nat);
            }
        }
        FrameModel::Bulk(Some(d)) => {
            crate::num::lemma_dec_digits_value(d.len());
        }
        FrameModel::Array(Some(fs)) => {
            crate::num::lemma_dec_digits_value(fs.len());
        }
        _ => {}
    }
}

/// Parsing the canonical encoding of a well-formed frame, whatever follows
/// it, gives the frame back and consumes exactly the encoding.
pub proof fn lemma_parse_encode(f: FrameModel, rest: Seq<u8>)
    requires
        frame_wf(f),
    ensures
        spec_parse(spec_encode(f) + rest)
            == ParseModel::Complete(f, spec_encode(f).len() as int),
    decreases f, 0int,
{
    let enc = spec_encode(f);
    let full = enc + rest;
    match f {
        FrameModel::Simple(p) => {
            assert(full =~= seq![43u8] + p + seq![13u8, 10u8] + rest);
            lemma_header_crlf(43u8, p, rest);
            assert(full[0] == 43);
            assert(full.subrange(1, 1 + p.len() as int) =~= p);
        }
        FrameModel::Error(p) => {
            assert(full =~= seq![45u8] + p + seq![13u8, 10u8] + rest);
            lemma_header_crlf(45u8, p, rest);
            assert(full[0] == 45);
            assert(full.subrange(1, 1 + p.len() as int) =~= p);
        }
        FrameModel::Integer(n) => {
            let digits = dec_digits_signed(n as int);
            assert(full =~= seq![58u8] + digits + seq![13u8, 10u8] + rest);
            lemma_digits_no_crlf(n as int);
            lemma_header_crlf(58u8, digits, rest);
            assert(full[0] == 58);
            assert(full.subrange(1, 1 + digits.len() as int) =~= digits);
            crate::num::lemma_i64_round_trip(n);
        }
        FrameModel::Bulk(None) => {
            let digits = seq![45u8, 49u8];
            assert(full =~= seq![36u8] + digits + seq![13u8, 10u8] + rest);
            assert(no_crlf(digits));
            lemma_header_crlf(36u8, digits, rest);
            assert(full[0] == 36);
            assert(full.subrange(1, 3) =~= digits);
            lemma_minus_one_parses();
        }
        FrameModel::Bulk(Some(d)) => {
            let digits = dec_digits(d.len());
            assert(full =~= seq![36u8] + digits + (seq![13u8, 10u8]
                + (d + (seq![13u8, 10u8] + rest))));
            assert(full =~= seq![36u8] + digits + seq![13u8, 10u8]
                + (d + seq![13u8, 10u8] + rest));
            lemma_digits_no_crlf(d.len() as int);
            lemma_header_crlf(36u8, digits, d + seq![13u8, 10u8] + rest);
            assert(full[0] == 36);
            let e = 1 + digits.len() as int;
            assert(full.subrange(1, e) =~= digits);
            crate::num::lemma_i64_round_trip(d.len() as i64);
            assert(spec_parse_i64(digits) == Some(d.len() as i64)) by {
                assert(dec_digits_signed(d.len() as int) == digits);
            }
            let ds = e + 2;
            let de = ds + d.len() as int;
            assert(full.len() >= de + 2);
            assert(full[de] == 13 && full[de + 1] == 10);
            assert(full.subrange(ds, de) =~= d);
        }
        FrameModel::Array(None) => {
            let digits = seq![45u8, 49u8];
            assert(full =~= seq![42u8] + digits + seq![13u8, 10u8] + rest);
            assert(no_crlf(digits));
            lemma_header_crlf(42u8, digits, rest);
            assert(full[0] == 42);
            assert(full.subrange(1, 3) =~= digits);
            lemma_minus_one_parses();
        }
        FrameModel::Array(Some(fs)) => {
            let digits = dec_digits(fs.len());
            let body = spec_encode_elems(fs, 0);
            assert(full =~= seq![42u8] + digits + seq![13u8, 10u8] + (body + rest));
            lemma_digits_no_crlf(fs.len() as int);
            lemma_header_crlf(42u8, digits, body + rest);
            assert(full[0] == 42);
            let e = 1 + digits.len() as int;
            assert(full.subrange(1, e) =~= digits);
            crate::num::lemma_i64_round_trip(fs.len() as i64);
            assert(spec_parse_i64(digits) == Some(fs.len() as i64)) by {
                assert(dec_digits_signed(fs.len() as int) == digits);
            }
            assert(full.skip(e + 2) =~= body + rest);
            lemma_parse_encode_elems(fs, 0, rest);
            assert(fs.skip(0) =~= fs);
            assert(spec_parse_elems(body + rest, fs.len())
                == ElemsModel::Complete(fs, body.len() as int));
        }
    }
}

/// Parsing the concatenated encodings of well-formed frames gives the
/// frames back and consumes exactly their encodings.
proof fn lemma_parse_encode_elems(fs: Seq<FrameModel>, i: int, rest: Seq<u8>)
    requires
        0 <= i <= fs.len(),
        frames_wf(fs, i),
    ensures
        spec_parse_elems(spec_encode_elems(fs, i) + rest, (fs.len() - i) as nat)
            == ElemsModel::Complete(fs.skip(i), spec_encode_elems(fs, i).len() as int),
    decreases fs, fs.len() - i,
{
    if i == fs.len() {
        assert(spec_encode_elems(fs, i) =~= Seq::<u8>::empty());
        assert(spec_encode_elems(fs, i) + rest =~= rest);
        assert(fs.skip(i) =~= Seq::<FrameModel>::empty());
    } else {
        let head = spec_encode(fs[i]);
        let tail = spec_encode_elems(fs, i + 1);
        let x = spec_encode_elems(fs, i) + rest;
        assert(x =~= head + (tail + rest));
        lemma_parse_encode(fs[i], tail + rest);
        lemma_encode_nonempty(fs[i]);
        assert(spec_parse(x) == ParseModel::Complete(fs[i], head.len() as int));
        assert(x.skip(head.len() as int) =~= tail + rest);
        lemma_parse_encode_elems(fs, i + 1, rest);
        reveal_with_fuel(spec_parse_elems, 2);
        assert(seq![fs[i]] + fs.skip(i + 1) =~= fs.skip(i));
    }
}

/// The numeral `-1` parses to -1.
proof fn lemma_minus_one_parses()
    ensures
        spec_parse_i64(seq![45u8, 49u8]) == Some(-1i64),
{
    let s = seq![45u8, 49u8];
    let digits = s.drop_first();
    assert(digits =~= seq![49u8]);
    assert(digits.drop_last() =~= Seq::<u8>::empty());
    assert(crate::num::dec_value(digits.drop_last()) == 0);
    assert(crate::num::dec_value(digits) == 1);
    assert(crate::num::all_digits(digits));
}

/// Round trip: the canonical encoding of a well-formed frame parses back to
/// exactly that frame, consuming the whole encoding.
pub proof fn lemma_resp_round_trip(f: FrameModel)
    requires
        frame_wf(f),
    ensures
        spec_parse(spec_encode(f))
            == ParseModel::Complete(f, spec_encode(f).len() as int),
{
    lemma_parse_encode(f, Seq::empty());
    assert(spec_encode(f) + Seq::<u8>::empty() =~= spec_encode(f));
}

/// Every payload of the frame fits within `n` bytes (as anything parsed
/// out of an `n`-byte buffer does).
pub open spec fn frame_within(f: FrameModel, n: int) -> bool
    decreases f, 0int,
{
    match f {
        FrameModel::Simple(s) => s.len() <= n,
        FrameModel::Error(s) => s.len() <= n,
        FrameModel::Integer(_) => true,
        FrameModel::Bulk(None) => true,
        FrameModel::Bulk(Some(d)) => d.len() <= n,
        FrameModel::Array(None) => true,
        FrameModel::Array(Some(fs)) => fs.len() <= n && frames_within(fs, 0, n),
    }
}

/// Every frame of `fs[i..]` fits within `n` bytes.
pub open spec fn frames_within(fs: Seq<FrameModel>, i: int, n: int) -> bool
    decreases fs, fs.len() - i,
{
    if 0 <= i < fs.len() {
        frame_within(fs[i], n) && frames_within(fs, i + 1, n)
    } else {
        true
    }
}

/// `frame_within` is monotone in the bound.
pub proof fn lemma_frame_within_mono(f: FrameModel, m: int, n: int)
    requires
        frame_within(f, m),
        m <= n,
    ensures
        frame_within(f, n),
    decreases f, 0int,
{
    match f {
        FrameModel::Array(Some(fs)) => {
            lemma_frames_within_mono(fs, 0, m, n);
        }
        _ => {}
    }
}

/// `frames_within` is monotone in the bound.
proof fn lemma_frames_within_mono(fs: Seq<FrameModel>, i: int, m: int, n: int)
    requires
        frames_within(fs, i, m),
        m <= n,
        0 <= i <= fs.len(),
    ensures
        frames_within(fs, i, n),
    decreases fs, fs.len() - i,
{
    if i < fs.len() {
        lemma_frame_within_mono(fs[i], m, n);
        lemma_frames_within_mono(fs, i + 1, m, n);
    }
}

/// `frames_within` of every index once all elements are bounded.
pub proof fn lemma_frames_within_index(fs: Seq<FrameModel>, i: int, n: int)
    requires
        frames_within(fs, i, n),
        0 <= i <= fs.len(),
    ensures
        forall|j: int| i <= j < fs.len() ==> frame_within(#[trigger] fs[j], n),
    decreases fs.len() - i,
{
    if i < fs.len() {
        lemma_frames_within_index(fs, i + 1, n);
    }
}

/// All elements bounded gives `frames_within` from the start.
proof fn lemma_frames_within_from_index(fs: Seq<FrameModel>, n: int)
    requires
        forall|j: int| 0 <= j < fs.len() ==> frame_within(#[trigger] fs[j], n),
    ensures
        frames_within(fs, 0, n),
{
    lemma_frames_within_build(fs, 0, n);
}

/// Helper induction for `lemma_frames_within_from_index`.
proof fn lemma_frames_within_build(fs: Seq<FrameModel>, i: int, n: int)
    requires
        0 <= i <= fs.len(),
        forall|j: int| 0 <= j < fs.len() ==> frame_within(#[trigger] fs[j], n),
    ensures
        frames_within(fs, i, n),
    decreases fs.len() - i,
{
    if i < fs.len() {
        lemma_frames_within_build(fs, i + 1, n);
    }
}

} // verus!
