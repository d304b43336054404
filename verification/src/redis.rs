//! RESP, the Redis serialization protocol (versions 2 and 3): frames, their
//! encoding and decoding, commands, an in-memory store and the command handler.
use vstd::prelude::*;
use vstd::utf8::{encode_utf8, valid_utf8, decode_utf8};
use crate::ascii::{dec_text, float_text, int_text, is_float_text, parse_i64, parse_i64_spec, push_dec, push_int};
use crate::error::{ProtoError, ProtoResult};
use crate::text::{ascii_upper, ascii_upper_str, chars_of, lossy_text, split_words, string_from_chars, string_from_utf8, string_from_utf8_lossy, to_ascii_uppercase, utf8_bytes, utf8_lossy, words_from};
use crate::wire::{copy_range, push_bytes};

verus! {

/// The deepest nesting of aggregates that the decoder accepts.
pub const MAX_DEPTH: usize = 32;

/// The protocol version a connection speaks.
#[derive(Debug, Clone, Copy, PartialEq, Eq)]
pub enum RespVersion {
    Resp2,
    Resp3,
}

/// A RESP value. A double is carried by its decimal text, which reads as a float.
#[derive(Debug, PartialEq)]
pub enum RespFrame {
    SimpleString(String),
    Error(String),
    Integer(i64),
    BulkString(Option<Vec<u8>>),
    Array(Option<Vec<RespFrame>>),
    Null,
    Boolean(bool),
    Double(Vec<u8>),
    BigNumber(String),
    BulkError(Vec<u8>),
    Verbatim([u8; 3], Vec<u8>),
    MapOf(Vec<(RespFrame, RespFrame)>),
    SetOf(Vec<RespFrame>),
    Push(Vec<RespFrame>),
}

/// The mathematical content of a RESP value.
pub enum RespModel {
    SimpleString(Seq<char>),
    Error(Seq<char>),
    Integer(i64),
    BulkString(Option<Seq<u8>>),
    Array(Option<Seq<RespModel>>),
    Null,
    Boolean(bool),
    Double(Seq<u8>),
    BigNumber(Seq<char>),
    BulkError(Seq<u8>),
    Verbatim(Seq<u8>, Seq<u8>),
    MapOf(Seq<(RespModel, RespModel)>),
    SetOf(Seq<RespModel>),
    Push(Seq<RespModel>),
}

/// The content of a frame.
pub open spec fn frame_model(f: RespFrame) -> RespModel
    decreases f,
{
    match f {
        RespFrame::SimpleString(s) => RespModel::SimpleString(s@),
        RespFrame::Error(s) => RespModel::Error(s@),
        RespFrame::Integer(v) => RespModel::Integer(v),
        RespFrame::BulkString(b) => RespModel::BulkString(
            match b {
                Some(v) => Some(v@),
                None => None,
            },
        ),
        RespFrame::Array(a) => RespModel::Array(
            match a {
                Some(v) => Some(frames_model(v@)),
                None => None,
            },
        ),
        RespFrame::Null => RespModel::Null,
        RespFrame::Boolean(b) => RespModel::Boolean(b),
        RespFrame::Double(t) => RespModel::Double(t@),
        RespFrame::BigNumber(s) => RespModel::BigNumber(s@),
        RespFrame::BulkError(b) => RespModel::BulkError(b@),
        RespFrame::Verbatim(fmt, v) => RespModel::Verbatim(fmt@, v@),
        RespFrame::MapOf(v) => RespModel::MapOf(pairs_model(v@)),
        RespFrame::SetOf(v) => RespModel::SetOf(frames_model(v@)),
        RespFrame::Push(v) => RespModel::Push(frames_model(v@)),
    }
}

/// The contents of a sequence of frames.
pub open spec fn frames_model(s: Seq<RespFrame>) -> Seq<RespModel>
    decreases s,
{
    if s.len() == 0 {
        Seq::empty()
    } else {
        frames_model(s.subrange(0, s.len() - 1)).push(frame_model(s[s.len() - 1]))
    }
}

/// The contents of a sequence of key/value frames.
pub open spec fn pairs_model(s: Seq<(RespFrame, RespFrame)>) -> Seq<(RespModel, RespModel)>
    decreases s,
{
    if s.len() == 0 {
        Seq::empty()
    } else {
        pairs_model(s.subrange(0, s.len() - 1)).push(
            (frame_model(s[s.len() - 1].0), frame_model(s[s.len() - 1].1)),
        )
    }
}

proof fn lemma_frames_model_len(s: Seq<RespFrame>)
    ensures
        frames_model(s).len() == s.len(),
    decreases s.len(),
{
    if s.len() > 0 {
        lemma_frames_model_len(s.subrange(0, s.len() - 1));
    }
}

proof fn lemma_pairs_model_len(s: Seq<(RespFrame, RespFrame)>)
    ensures
        pairs_model(s).len() == s.len(),
    decreases s.len(),
{
    if s.len() > 0 {
        lemma_pairs_model_len(s.subrange(0, s.len() - 1));
    }
}

impl View for RespFrame {
    type V = RespModel;

    open spec fn view(&self) -> RespModel {
        frame_model(*self)
    }
}

/// Carriage return and line feed.
pub open spec fn crlf() -> Seq<u8> {
    seq![13u8, 10u8]
}

/// A line: a type marker, the text, and the line end.
pub open spec fn resp_line(marker: u8, text: Seq<u8>) -> Seq<u8> {
    seq![marker] + text + crlf()
}

/// A length-prefixed blob: marker, decimal length, line end, the bytes, line end.
pub open spec fn resp_blob(marker: u8, b: Seq<u8>) -> Seq<u8> {
    resp_line(marker, dec_text(b.len())) + b + crlf()
}

/// The wire image of a value.
pub open spec fn resp_bytes(m: RespModel, ver: RespVersion) -> Seq<u8>
    decreases m,
{
    match m {
        RespModel::SimpleString(s) => resp_line(43, encode_utf8(s)),
        RespModel::Error(s) => resp_line(45, encode_utf8(s)),
        RespModel::Integer(v) => resp_line(58, int_text(v as int)),
        RespModel::BulkString(b) => match b {
            Some(v) => resp_blob(36, v),
            None => seq![36u8, 45, 49, 13, 10],
        },
        RespModel::Array(a) => match a {
            Some(items) => resp_line(42, dec_text(items.len())) + resp_list_bytes(items, ver),
            None => seq![42u8, 45, 49, 13, 10],
        },
        RespModel::Null => match ver {
            RespVersion::Resp2 => seq![36u8, 45, 49, 13, 10],
            RespVersion::Resp3 => seq![95u8, 13, 10],
        },
        RespModel::Boolean(b) => if b {
            seq![35u8, 116, 13, 10]
        } else {
            seq![35u8, 102, 13, 10]
        },
        RespModel::Double(t) => resp_line(44, t),
        RespModel::BigNumber(s) => resp_line(40, encode_utf8(s)),
        RespModel::BulkError(b) => resp_blob(33, b),
        RespModel::Verbatim(fmt, v) => resp_blob(61, fmt + seq![58u8] + v),
        RespModel::MapOf(entries) => resp_line(37, dec_text(entries.len())) + resp_pairs_bytes(entries, ver),
        RespModel::SetOf(items) => resp_line(126, dec_text(items.len())) + resp_list_bytes(items, ver),
        RespModel::Push(items) => resp_line(62, dec_text(items.len())) + resp_list_bytes(items, ver),
    }
}

/// The images of values, one after another.
pub open spec fn resp_list_bytes(items: Seq<RespModel>, ver: RespVersion) -> Seq<u8>
    decreases items,
{
    if items.len() == 0 {
        Seq::empty()
    } else {
        resp_list_bytes(items.subrange(0, items.len() - 1), ver) + resp_bytes(items[items.len() - 1], ver)
    }
}

/// The images of key/value pairs, key before value.
pub open spec fn resp_pairs_bytes(items: Seq<(RespModel, RespModel)>, ver: RespVersion) -> Seq<u8>
    decreases items,
{
    if items.len() == 0 {
        Seq::empty()
    } else {
        resp_pairs_bytes(items.subrange(0, items.len() - 1), ver) + resp_bytes(items[items.len() - 1].0, ver)
            + resp_bytes(items[items.len() - 1].1, ver)
    }
}

fn push_line_end(out: &mut Vec<u8>)
    ensures
        final(out)@ == old(out)@ + crlf(),
{
    out.push(13u8);
    out.push(10u8);
    assert(final(out)@ =~= old(out)@ + crlf());
}

fn push_nil(out: &mut Vec<u8>, marker: u8)
    ensures
        final(out)@ == old(out)@ + seq![marker, 45u8, 49u8, 13u8, 10u8],
{
    out.push(marker);
    out.push(45u8);
    out.push(49u8);
    push_line_end(out);
    assert(final(out)@ =~= old(out)@ + seq![marker, 45u8, 49u8, 13u8, 10u8]);
}

fn push_text_line(out: &mut Vec<u8>, marker: u8, text: &[u8])
    ensures
        final(out)@ == old(out)@ + resp_line(marker, text@),
{
    let ghost start = out@;
    out.push(marker);
    push_bytes(out, text);
    push_line_end(out);
    assert(out@ =~= start + resp_line(marker, text@));
}

fn push_len_line(out: &mut Vec<u8>, marker: u8, n: usize)
    ensures
        final(out)@ == old(out)@ + resp_line(marker, dec_text(n as nat)),
{
    let ghost start = out@;
    out.push(marker);
    push_dec(out, n as u64);
    push_line_end(out);
    assert(out@ =~= start + resp_line(marker, dec_text(n as nat)));
}

fn push_blob(out: &mut Vec<u8>, marker: u8, b: &[u8])
    ensures
        final(out)@ == old(out)@ + resp_blob(marker, b@),
{
    let ghost start = out@;
    push_len_line(out, marker, b.len());
    push_bytes(out, b);
    push_line_end(out);
    assert(out@ =~= start + resp_blob(marker, b@));
}

impl RespFrame {
    /// Encodes the frame for a connection that speaks `version`.
    pub fn encode(&self, version: RespVersion) -> (out: Vec<u8>)
        ensures
            out@ == resp_bytes(self@, version),
    {
        let mut out: Vec<u8> = Vec::new();
        self.encode_into(version, &mut out);
        assert(out@ =~= resp_bytes(self@, version));
        out
    }

    /// Appends the frame's image.
    pub fn encode_into(&self, version: RespVersion, out: &mut Vec<u8>)
        ensures
            final(out)@ == old(out)@ + resp_bytes(self@, version),
        decreases self,
    {
        let ghost start = out@;
        match self {
            RespFrame::SimpleString(value) => {
                push_text_line(out, 43u8, value.as_str().as_bytes());
            },
            RespFrame::Error(value) => {
                push_text_line(out, 45u8, value.as_str().as_bytes());
            },
            RespFrame::Integer(value) => {
                out.push(58u8);
                push_int(out, *value);
                push_line_end(out);
                assert(out@ =~= start + resp_bytes(self@, version));
            },
            RespFrame::BulkString(value) => match value {
                Some(bytes) => {
                    push_blob(out, 36u8, bytes.as_slice());
                },
                None => {
                    push_nil(out, 36u8);
                },
            },
            RespFrame::Array(values) => match values {
                Some(items) => {
                    push_len_line(out, 42u8, items.len());
                    encode_list(items, version, out);
                    proof {
                        lemma_frames_model_len(items@);
                    }
                    assert(out@ =~= start + resp_bytes(self@, version));
                },
                None => {
                    push_nil(out, 42u8);
                },
            },
            RespFrame::Null => match version {
                RespVersion::Resp2 => {
                    push_nil(out, 36u8);
                },
                RespVersion::Resp3 => {
                    out.push(95u8);
                    push_line_end(out);
                    assert(out@ =~= start + resp_bytes(self@, version));
                },
            },
            RespFrame::Boolean(value) => {
                out.push(35u8);
                if *value {
                    out.push(116u8);
                } else {
                    out.push(102u8);
                }
                push_line_end(out);
                assert(out@ =~= start + resp_bytes(self@, version));
            },
            RespFrame::Double(text) => {
                push_text_line(out, 44u8, text.as_slice());
            },
            RespFrame::BigNumber(value) => {
                push_text_line(out, 40u8, value.as_str().as_bytes());
            },
            RespFrame::BulkError(value) => {
                push_blob(out, 33u8, value.as_slice());
            },
            RespFrame::Verbatim(format, value) => {
                let mut payload: Vec<u8> = Vec::new();
                push_bytes(&mut payload, format.as_slice());
                payload.push(58u8);
                push_bytes(&mut payload, value.as_slice());
                assert(payload@ =~= format@ + seq![58u8] + value@);
                push_blob(out, 61u8, payload.as_slice());
            },
            RespFrame::MapOf(entries) => {
                push_len_line(out, 37u8, entries.len());
                encode_pairs(entries, version, out);
                proof {
                    lemma_pairs_model_len(entries@);
                }
                assert(out@ =~= start + resp_bytes(self@, version));
            },
            RespFrame::SetOf(items) => {
                push_len_line(out, 126u8, items.len());
                encode_list(items, version, out);
                proof {
                    lemma_frames_model_len(items@);
                }
                assert(out@ =~= start + resp_bytes(self@, version));
            },
            RespFrame::Push(items) => {
                push_len_line(out, 62u8, items.len());
                encode_list(items, version, out);
                proof {
                    lemma_frames_model_len(items@);
                }
                assert(out@ =~= start + resp_bytes(self@, version));
            },
        }
    }
}

fn encode_list(items: &Vec<RespFrame>, version: RespVersion, out: &mut Vec<u8>)
    ensures
        final(out)@ == old(out)@ + resp_list_bytes(frames_model(items@), version),
    decreases items,
{
    let ghost start = out@;
    let mut i: usize = 0;
    while i < items.len()
        invariant
            i <= items.len(),
            out@ == start + resp_list_bytes(frames_model(items@.subrange(0, i as int)), version),
        decreases items.len() - i,
    {
        assert(decreases_to!(items => items@[i as int]));
        items[i].encode_into(version, out);
        proof {
            let pre = items@.subrange(0, i as int + 1);
            assert(pre.subrange(0, pre.len() - 1) =~= items@.subrange(0, i as int));
            lemma_frames_model_len(items@.subrange(0, i as int));
            assert(frames_model(pre) == frames_model(items@.subrange(0, i as int)).push(items@[i as int]@));
            assert(frames_model(pre).subrange(0, i as int) =~= frames_model(items@.subrange(0, i as int)));
        }
        i = i + 1;
    }
    assert(items@.subrange(0, i as int) =~= items@);
}

fn encode_pairs(items: &Vec<(RespFrame, RespFrame)>, version: RespVersion, out: &mut Vec<u8>)
    ensures
        final(out)@ == old(out)@ + resp_pairs_bytes(pairs_model(items@), version),
    decreases items,
{
    let ghost start = out@;
    let mut i: usize = 0;
    while i < items.len()
        invariant
            i <= items.len(),
            out@ == start + resp_pairs_bytes(pairs_model(items@.subrange(0, i as int)), version),
        decreases items.len() - i,
    {
        assert(decreases_to!(items => items@[i as int].0));
        assert(decreases_to!(items => items@[i as int].1));
        items[i].0.encode_into(version, out);
        items[i].1.encode_into(version, out);
        proof {
            let pre = items@.subrange(0, i as int + 1);
            assert(pre.subrange(0, pre.len() - 1) =~= items@.subrange(0, i as int));
            lemma_pairs_model_len(items@.subrange(0, i as int));
            assert(pairs_model(pre) == pairs_model(items@.subrange(0, i as int)).push(
                (items@[i as int].0@, items@[i as int].1@),
            ));
            assert(pairs_model(pre).subrange(0, i as int) =~= pairs_model(items@.subrange(0, i as int)));
        }
        i = i + 1;
    }
    assert(items@.subrange(0, i as int) =~= items@);
}

/// How decoding from a position ended: a whole value and the position after it,
/// or the bytes ran out before the value was complete.
pub enum Parsed<T> {
    Done(T, int),
    Short,
}

/// Where the first line end at or after `i` starts.
pub open spec fn find_crlf_from(d: Seq<u8>, i: int) -> Option<int>
    decreases d.len() - i,
{
    if i < 0 || i + 1 >= d.len() {
        None
    } else if d[i] == 13 && d[i + 1] == 10 {
        Some(i)
    } else {
        find_crlf_from(d, i + 1)
    }
}

/// A blob of `n` bytes at `at`, followed by a line end.
pub open spec fn blob_at(d: Seq<u8>, at: int, n: int) -> Option<Parsed<Seq<u8>>> {
    if at + n + 2 > d.len() {
        Some(Parsed::Short)
    } else if d[at + n] != 13 || d[at + n + 1] != 10 {
        None
    } else {
        Some(Parsed::Done(d.subrange(at, at + n), at + n + 2))
    }
}

/// `pre` before the values that were decoded.
pub open spec fn prepend_items(pre: Seq<RespModel>, r: Option<Parsed<Seq<RespModel>>>) -> Option<
    Parsed<Seq<RespModel>>,
> {
    match r {
        Some(Parsed::Done(items, q)) => Some(Parsed::Done(pre + items, q)),
        other => other,
    }
}

/// `pre` before the pairs that were decoded.
pub open spec fn prepend_pairs(
    pre: Seq<(RespModel, RespModel)>,
    r: Option<Parsed<Seq<(RespModel, RespModel)>>>,
) -> Option<Parsed<Seq<(RespModel, RespModel)>>> {
    match r {
        Some(Parsed::Done(items, q)) => Some(Parsed::Done(pre + items, q)),
        other => other,
    }
}

/// The value that starts at `pos`, decoded at nesting `depth`; `None` when the bytes are
/// not RESP.
pub open spec fn resp_decode(d: Seq<u8>, pos: int, depth: int) -> Option<Parsed<RespModel>>
    decreases 33 - depth, 0int,
{
    if depth > 32 {
        None
    } else {
        match find_crlf_from(d, pos) {
            None => Some(Parsed::Short),
            Some(e) => {
                let line = d.subrange(pos, e);
                let next = e + 2;
                if line.len() == 0 {
                    None
                } else {
                    let p = line[0];
                    let rest = line.subrange(1, line.len() as int);
                    if p == 43 {
                        Some(Parsed::Done(RespModel::SimpleString(lossy_text(rest)), next))
                    } else if p == 45 {
                        Some(Parsed::Done(RespModel::Error(lossy_text(rest)), next))
                    } else if p == 58 {
                        match parse_i64_spec(rest) {
                            None => None,
                            Some(v) => Some(Parsed::Done(RespModel::Integer(v), next)),
                        }
                    } else if p == 95 {
                        Some(Parsed::Done(RespModel::Null, next))
                    } else if p == 35 {
                        if rest == seq![116u8] {
                            Some(Parsed::Done(RespModel::Boolean(true), next))
                        } else if rest == seq![102u8] {
                            Some(Parsed::Done(RespModel::Boolean(false), next))
                        } else {
                            None
                        }
                    } else if p == 44 {
                        if float_text(rest) {
                            Some(Parsed::Done(RespModel::Double(rest), next))
                        } else {
                            None
                        }
                    } else if p == 40 {
                        Some(Parsed::Done(RespModel::BigNumber(lossy_text(rest)), next))
                    } else if p == 36 || p == 42 || p == 33 || p == 61 || p == 37 || p == 126 || p == 62 {
                        match parse_i64_spec(rest) {
                            None => None,
                            Some(n) => if n < 0 {
                                if p == 36 {
                                    Some(Parsed::Done(RespModel::BulkString(None), next))
                                } else if p == 42 {
                                    Some(Parsed::Done(RespModel::Array(None), next))
                                } else {
                                    None
                                }
                            } else if p == 36 || p == 33 || p == 61 {
                                match blob_at(d, next, n as int) {
                                    None => None,
                                    Some(Parsed::Short) => Some(Parsed::Short),
                                    Some(Parsed::Done(b, q)) => if p == 36 {
                                        Some(Parsed::Done(RespModel::BulkString(Some(b)), q))
                                    } else if p == 33 {
                                        Some(Parsed::Done(RespModel::BulkError(b), q))
                                    } else if b.len() < 4 || b[3] != 58 {
                                        None
                                    } else {
                                        Some(
                                            Parsed::Done(
                                                RespModel::Verbatim(b.subrange(0, 3), b.subrange(4, b.len() as int)),
                                                q,
                                            ),
                                        )
                                    },
                                }
                            } else if p == 37 {
                                match resp_decode_pairs(d, next, depth + 1, n as nat) {
                                    None => None,
                                    Some(Parsed::Short) => Some(Parsed::Short),
                                    Some(Parsed::Done(items, q)) => Some(Parsed::Done(RespModel::MapOf(items), q)),
                                }
                            } else {
                                match resp_decode_items(d, next, depth + 1, n as nat) {
                                    None => None,
                                    Some(Parsed::Short) => Some(Parsed::Short),
                                    Some(Parsed::Done(items, q)) => Some(
                                        Parsed::Done(
                                            if p == 42 {
                                                RespModel::Array(Some(items))
                                            } else if p == 126 {
                                                RespModel::SetOf(items)
                                            } else {
                                                RespModel::Push(items)
                                            },
                                            q,
                                        ),
                                    ),
                                }
                            },
                        }
                    } else {
                        None
                    }
                }
            },
        }
    }
}

/// `n` values, one after another from `pos`, each decoded at nesting `depth`.
pub open spec fn resp_decode_items(d: Seq<u8>, pos: int, depth: int, n: nat) -> Option<Parsed<Seq<RespModel>>>
    decreases 33 - depth, n + 1,
{
    if n == 0 {
        Some(Parsed::Done(Seq::empty(), pos))
    } else {
        match resp_decode(d, pos, depth) {
            None => None,
            Some(Parsed::Short) => Some(Parsed::Short),
            Some(Parsed::Done(f, p)) => prepend_items(seq![f], resp_decode_items(d, p, depth, (n - 1) as nat)),
        }
    }
}

/// `n` key/value pairs, one after another from `pos`, each decoded at nesting `depth`.
pub open spec fn resp_decode_pairs(d: Seq<u8>, pos: int, depth: int, n: nat) -> Option<
    Parsed<Seq<(RespModel, RespModel)>>,
>
    decreases 33 - depth, n + 1,
{
    if n == 0 {
        Some(Parsed::Done(Seq::empty(), pos))
    } else {
        match resp_decode(d, pos, depth) {
            None => None,
            Some(Parsed::Short) => Some(Parsed::Short),
            Some(Parsed::Done(k, p)) => match resp_decode(d, p, depth) {
                None => None,
                Some(Parsed::Short) => Some(Parsed::Short),
                Some(Parsed::Done(v, q)) => prepend_pairs(seq![(k, v)], resp_decode_pairs(d, q, depth, (n - 1) as nat)),
            },
        }
    }
}

/// What the decoder produced: a whole frame and the position after it, or the
/// report that more bytes are needed.
#[derive(Debug, PartialEq)]
pub enum RespDecode {
    Complete(RespFrame, usize),
    Incomplete,
}

/// The outcome of decoding, in terms of values.
pub open spec fn decode_view(r: RespDecode) -> Parsed<RespModel> {
    match r {
        RespDecode::Complete(f, p) => Parsed::Done(f@, p as int),
        RespDecode::Incomplete => Parsed::Short,
    }
}

/// Where the first line end at or after `i` starts.
pub fn find_crlf(data: &[u8], i: usize) -> (r: Option<usize>)
    ensures
        match r {
            Some(e) => find_crlf_from(data@, i as int) == Some(e as int),
            None => find_crlf_from(data@, i as int) is None,
        },
    decreases data.len() - i,
{
    if i >= data.len() || data.len() - i < 2 {
        None
    } else if data[i] == 13 && data[i + 1] == 10 {
        Some(i)
    } else {
        find_crlf(data, i + 1)
    }
}

fn decode_blob(data: &[u8], at: usize, n: i64) -> (r: ProtoResult<Option<(Vec<u8>, usize)>>)
    requires
        at <= data.len(),
        n >= 0,
    ensures
        match r {
            Ok(Some((b, q))) => blob_at(data@, at as int, n as int) == Some(Parsed::Done(b@, q as int)),
            Ok(None) => blob_at(data@, at as int, n as int) == Some(Parsed::<Seq<u8>>::Short),
            Err(e) => blob_at(data@, at as int, n as int) is None && e is Parse,
        },
{
    if (n as u64) > (data.len() - at) as u64 || data.len() - at - (n as usize) < 2 {
        return Ok(None);
    }
    let n = n as usize;
    if data[at + n] != 13 || data[at + n + 1] != 10 {
        return Err(ProtoError::Parse("invalid blob terminator"));
    }
    Ok(Some((copy_range(data, at, n), at + n + 2)))
}

/// Decodes the frame that starts at `pos`, at nesting `depth`.
pub fn decode_frame(data: &[u8], pos: usize, depth: usize) -> (r: ProtoResult<RespDecode>)
    requires
        pos <= data.len(),
    ensures
        match r {
            Ok(x) => resp_decode(data@, pos as int, depth as int) == Some(decode_view(x)),
            Err(e) => resp_decode(data@, pos as int, depth as int) is None && e is Parse,
        },
        r matches Ok(RespDecode::Complete(_, q)) ==> pos < q <= data.len(),
    decreases 33 - depth, 0int,
{
    if depth > MAX_DEPTH {
        return Err(ProtoError::Parse("frame too deep"));
    }
    let e = match find_crlf(data, pos) {
        None => return Ok(RespDecode::Incomplete),
        Some(e) => e,
    };
    proof {
        lemma_find_crlf_bounds(data@, pos as int);
    }
    let next = e + 2;
    if e == pos {
        return Err(ProtoError::Parse("empty frame"));
    }
    let p = data[pos];
    let rest = copy_range(data, pos + 1, e - pos - 1);
    let ghost line = data@.subrange(pos as int, e as int);
    assert(rest@ =~= line.subrange(1, line.len() as int));
    if p == 43 {
        Ok(RespDecode::Complete(RespFrame::SimpleString(string_from_utf8_lossy(rest.as_slice())), next))
    } else if p == 45 {
        Ok(RespDecode::Complete(RespFrame::Error(string_from_utf8_lossy(rest.as_slice())), next))
    } else if p == 58 {
        match parse_i64(rest.as_slice()) {
            None => Err(ProtoError::Parse("invalid number")),
            Some(v) => Ok(RespDecode::Complete(RespFrame::Integer(v), next)),
        }
    } else if p == 95 {
        Ok(RespDecode::Complete(RespFrame::Null, next))
    } else if p == 35 {
        if rest.len() == 1 && rest[0] == 116 {
            assert(rest@ =~= seq![116u8]);
            Ok(RespDecode::Complete(RespFrame::Boolean(true), next))
        } else if rest.len() == 1 && rest[0] == 102 {
            assert(rest@ =~= seq![102u8]);
            Ok(RespDecode::Complete(RespFrame::Boolean(false), next))
        } else {
            assert(rest@ != seq![116u8] && rest@ != seq![102u8]);
            Err(ProtoError::Parse("invalid boolean"))
        }
    } else if p == 44 {
        if !is_float_text(rest.as_slice()) {
            return Err(ProtoError::Parse("invalid double"));
        }
        Ok(RespDecode::Complete(RespFrame::Double(rest), next))
    } else if p == 40 {
        Ok(RespDecode::Complete(RespFrame::BigNumber(string_from_utf8_lossy(rest.as_slice())), next))
    } else if p == 36 || p == 42 || p == 33 || p == 61 || p == 37 || p == 126 || p == 62 {
        let n = match parse_i64(rest.as_slice()) {
            None => return Err(ProtoError::Parse("invalid length")),
            Some(n) => n,
        };
        if n < 0 {
            if p == 36 {
                return Ok(RespDecode::Complete(RespFrame::BulkString(None), next));
            } else if p == 42 {
                return Ok(RespDecode::Complete(RespFrame::Array(None), next));
            } else {
                return Err(ProtoError::Parse("invalid length"));
            }
        }
        if p == 36 || p == 33 || p == 61 {
            let (b, q) = match decode_blob(data, next, n) {
                Err(e) => return Err(e),
                Ok(None) => return Ok(RespDecode::Incomplete),
                Ok(Some(x)) => x,
            };
            if p == 36 {
                Ok(RespDecode::Complete(RespFrame::BulkString(Some(b)), q))
            } else if p == 33 {
                Ok(RespDecode::Complete(RespFrame::BulkError(b), q))
            } else if b.len() < 4 || b[3] != 58 {
                Err(ProtoError::Parse("invalid verbatim payload"))
            } else {
                let format = [b[0], b[1], b[2]];
                let value = copy_range(b.as_slice(), 4, b.len() - 4);
                assert(format@ =~= b@.subrange(0, 3));
                assert(value@ =~= b@.subrange(4, b@.len() as int));
                Ok(RespDecode::Complete(RespFrame::Verbatim(format, value), q))
            }
        } else if p == 37 {
            match decode_pairs(data, next, depth + 1, n as u64) {
                Err(e) => Err(e),
                Ok(None) => Ok(RespDecode::Incomplete),
                Ok(Some((items, q))) => {
                    proof {
                        lemma_pairs_model_len(items@);
                    }
                    Ok(RespDecode::Complete(RespFrame::MapOf(items), q))
                },
            }
        } else {
            match decode_items(data, next, depth + 1, n as u64) {
                Err(e) => Err(e),
                Ok(None) => Ok(RespDecode::Incomplete),
                Ok(Some((items, q))) => if p == 42 {
                    Ok(RespDecode::Complete(RespFrame::Array(Some(items)), q))
                } else if p == 126 {
                    Ok(RespDecode::Complete(RespFrame::SetOf(items), q))
                } else {
                    Ok(RespDecode::Complete(RespFrame::Push(items), q))
                },
            }
        }
    } else {
        Err(ProtoError::Parse("unknown frame prefix"))
    }
}

proof fn lemma_find_crlf_bounds(d: Seq<u8>, i: int)
    ensures
        find_crlf_from(d, i) matches Some(e) ==> i <= e && e + 2 <= d.len() && d[e] == 13 && d[e + 1] == 10,
    decreases d.len() - i,
{
    if !(i < 0 || i + 1 >= d.len()) && !(d[i] == 13 && d[i + 1] == 10) {
        lemma_find_crlf_bounds(d, i + 1);
    }
}

fn decode_items(data: &[u8], pos: usize, depth: usize, n: u64) -> (r: ProtoResult<Option<(Vec<RespFrame>, usize)>>)
    requires
        pos <= data.len(),
    ensures
        match r {
            Ok(Some((items, q))) => resp_decode_items(data@, pos as int, depth as int, n as nat) == Some(
                Parsed::Done(frames_model(items@), q as int),
            ) && pos <= q <= data.len(),
            Ok(None) => resp_decode_items(data@, pos as int, depth as int, n as nat) == Some(
                Parsed::<Seq<RespModel>>::Short,
            ),
            Err(e) => resp_decode_items(data@, pos as int, depth as int, n as nat) is None && e is Parse,
        },
    decreases 33 - depth, 1int,
{
    let mut items: Vec<RespFrame> = Vec::new();
    let mut p: usize = pos;
    let mut k: u64 = 0;
    while k < n
        invariant
            k <= n,
            pos <= p <= data.len(),
            resp_decode_items(data@, pos as int, depth as int, n as nat) == prepend_items(
                frames_model(items@),
                resp_decode_items(data@, p as int, depth as int, (n - k) as nat),
            ),
        decreases n - k,
    {
        match decode_frame(data, p, depth) {
            Err(e) => return Err(e),
            Ok(RespDecode::Incomplete) => return Ok(None),
            Ok(RespDecode::Complete(f, q)) => {
                proof {
                    let rest = resp_decode_items(data@, q as int, depth as int, (n - k - 1) as nat);
                    assert(resp_decode_items(data@, p as int, depth as int, (n - k) as nat) == prepend_items(
                        seq![f@],
                        rest,
                    ));
                    assert(frames_model(items@.push(f)) == frames_model(items@).push(f@)) by {
                        assert(items@.push(f).subrange(0, items@.len() as int) =~= items@);
                    }
                    match rest {
                        Some(Parsed::Done(fs, _)) => {
                            assert(frames_model(items@) + (seq![f@] + fs) =~= frames_model(items@).push(f@) + fs);
                        },
                        _ => {},
                    }
                }
                items.push(f);
                p = q;
                k = k + 1;
            },
        }
    }
    assert(frames_model(items@) + Seq::<RespModel>::empty() =~= frames_model(items@));
    Ok(Some((items, p)))
}

fn decode_pairs(data: &[u8], pos: usize, depth: usize, n: u64) -> (r: ProtoResult<
    Option<(Vec<(RespFrame, RespFrame)>, usize)>,
>)
    requires
        pos <= data.len(),
    ensures
        match r {
            Ok(Some((items, q))) => resp_decode_pairs(data@, pos as int, depth as int, n as nat) == Some(
                Parsed::Done(pairs_model(items@), q as int),
            ) && pos <= q <= data.len(),
            Ok(None) => resp_decode_pairs(data@, pos as int, depth as int, n as nat) == Some(
                Parsed::<Seq<(RespModel, RespModel)>>::Short,
            ),
            Err(e) => resp_decode_pairs(data@, pos as int, depth as int, n as nat) is None && e is Parse,
        },
    decreases 33 - depth, 1int,
{
    let mut items: Vec<(RespFrame, RespFrame)> = Vec::new();
    let mut p: usize = pos;
    let mut k: u64 = 0;
    while k < n
        invariant
            k <= n,
            pos <= p <= data.len(),
            resp_decode_pairs(data@, pos as int, depth as int, n as nat) == prepend_pairs(
                pairs_model(items@),
                resp_decode_pairs(data@, p as int, depth as int, (n - k) as nat),
            ),
        decreases n - k,
    {
        let (key, q1) = match decode_frame(data, p, depth) {
            Err(e) => return Err(e),
            Ok(RespDecode::Incomplete) => return Ok(None),
            Ok(RespDecode::Complete(f, q)) => (f, q),
        };
        match decode_frame(data, q1, depth) {
            Err(e) => return Err(e),
            Ok(RespDecode::Incomplete) => return Ok(None),
            Ok(RespDecode::Complete(value, q)) => {
                proof {
                    let rest = resp_decode_pairs(data@, q as int, depth as int, (n - k - 1) as nat);
                    assert(resp_decode_pairs(data@, p as int, depth as int, (n - k) as nat) == prepend_pairs(
                        seq![(key@, value@)],
                        rest,
                    ));
                    assert(pairs_model(items@.push((key, value))) == pairs_model(items@).push((key@, value@))) by {
                        assert(items@.push((key, value)).subrange(0, items@.len() as int) =~= items@);
                    }
                    match rest {
                        Some(Parsed::Done(fs, _)) => {
                            assert(pairs_model(items@) + (seq![(key@, value@)] + fs) =~= pairs_model(items@).push(
                                (key@, value@),
                            ) + fs);
                        },
                        _ => {},
                    }
                }
                items.push((key, value));
                p = q;
                k = k + 1;
            },
        }
    }
    assert(pairs_model(items@) + Seq::<(RespModel, RespModel)>::empty() =~= pairs_model(items@));
    Ok(Some((items, p)))
}

/// No line end inside `t`.
pub open spec fn no_crlf(t: Seq<u8>) -> bool {
    forall|i: int| 0 <= i < t.len() - 1 ==> !(#[trigger] t[i] == 13 && t[i + 1] == 10)
}

/// A value that decodes back to itself when it is encoded at nesting `depth`:
/// text without line ends, lengths within `i64`, nulls only under RESP3, a
/// three-byte verbatim format, and no deeper nesting than the decoder takes.
pub open spec fn resp_wf(m: RespModel, ver: RespVersion, depth: int) -> bool
    decreases m,
{
    0 <= depth <= 32 && match m {
        RespModel::SimpleString(s) => no_crlf(encode_utf8(s)),
        RespModel::Error(s) => no_crlf(encode_utf8(s)),
        RespModel::BigNumber(s) => no_crlf(encode_utf8(s)),
        RespModel::Double(t) => no_crlf(t) && float_text(t),
        RespModel::Null => ver == RespVersion::Resp3,
        RespModel::BulkString(Some(b)) => b.len() <= i64::MAX,
        RespModel::BulkError(b) => b.len() <= i64::MAX,
        RespModel::Verbatim(fmt, v) => fmt.len() == 3 && v.len() + 4 <= i64::MAX,
        RespModel::Array(Some(items)) => items.len() <= i64::MAX && items_wf(items, ver, depth + 1),
        RespModel::SetOf(items) => items.len() <= i64::MAX && items_wf(items, ver, depth + 1),
        RespModel::Push(items) => items.len() <= i64::MAX && items_wf(items, ver, depth + 1),
        RespModel::MapOf(items) => items.len() <= i64::MAX && pairs_wf(items, ver, depth + 1),
        _ => true,
    }
}

/// Every value of `items` decodes back to itself at nesting `depth`.
pub open spec fn items_wf(items: Seq<RespModel>, ver: RespVersion, depth: int) -> bool
    decreases items,
{
    items.len() == 0 || (resp_wf(items[0], ver, depth) && items_wf(items.subrange(1, items.len() as int), ver, depth))
}

/// Every key and value of `items` decodes back to itself at nesting `depth`.
pub open spec fn pairs_wf(items: Seq<(RespModel, RespModel)>, ver: RespVersion, depth: int) -> bool
    decreases items,
{
    items.len() == 0 || (resp_wf(items[0].0, ver, depth) && resp_wf(items[0].1, ver, depth) && pairs_wf(
        items.subrange(1, items.len() as int),
        ver,
        depth,
    ))
}

proof fn lemma_list_front(items: Seq<RespModel>, ver: RespVersion)
    requires
        items.len() > 0,
    ensures
        resp_list_bytes(items, ver) == resp_bytes(items[0], ver) + resp_list_bytes(
            items.subrange(1, items.len() as int),
            ver,
        ),
    decreases items.len(),
{
    let n = items.len() as int;
    if n == 1 {
        assert(items.subrange(0, 0) =~= Seq::<RespModel>::empty());
        assert(items.subrange(1, 1) =~= Seq::<RespModel>::empty());
        assert(resp_list_bytes(items.subrange(0, 0), ver) =~= Seq::<u8>::empty());
        assert(resp_list_bytes(items, ver) =~= resp_bytes(items[0], ver));
    } else {
        let init = items.subrange(0, n - 1);
        lemma_list_front(init, ver);
        assert(init.subrange(1, n - 1) =~= items.subrange(1, n).subrange(0, n - 2));
        assert(items.subrange(1, n)[n - 2] == items[n - 1]);
        assert(resp_list_bytes(items, ver) =~= resp_bytes(items[0], ver) + resp_list_bytes(items.subrange(1, n), ver));
    }
}

proof fn lemma_pairs_front(items: Seq<(RespModel, RespModel)>, ver: RespVersion)
    requires
        items.len() > 0,
    ensures
        resp_pairs_bytes(items, ver) == resp_bytes(items[0].0, ver) + resp_bytes(items[0].1, ver)
            + resp_pairs_bytes(items.subrange(1, items.len() as int), ver),
    decreases items.len(),
{
    let n = items.len() as int;
    if n == 1 {
        assert(items.subrange(0, 0) =~= Seq::<(RespModel, RespModel)>::empty());
        assert(items.subrange(1, 1) =~= Seq::<(RespModel, RespModel)>::empty());
        assert(resp_pairs_bytes(items.subrange(0, 0), ver) =~= Seq::<u8>::empty());
        assert(resp_pairs_bytes(items, ver) =~= resp_bytes(items[0].0, ver) + resp_bytes(items[0].1, ver));
    } else {
        let init = items.subrange(0, n - 1);
        lemma_pairs_front(init, ver);
        assert(init.subrange(1, n - 1) =~= items.subrange(1, n).subrange(0, n - 2));
        assert(items.subrange(1, n)[n - 2] == items[n - 1]);
        assert(resp_pairs_bytes(items, ver) =~= resp_bytes(items[0].0, ver) + resp_bytes(items[0].1, ver)
            + resp_pairs_bytes(items.subrange(1, n), ver));
    }
}

proof fn lemma_split_at(d: Seq<u8>, pos: int, a: Seq<u8>, b: Seq<u8>)
    requires
        0 <= pos,
        pos + a.len() + b.len() <= d.len(),
        d.subrange(pos, pos + a.len() + b.len()) == a + b,
    ensures
        d.subrange(pos, pos + a.len()) == a,
        d.subrange(pos + a.len(), pos + a.len() + b.len()) == b,
{
    assert(d.subrange(pos, pos + a.len()) =~= (a + b).subrange(0, a.len() as int));
    assert(d.subrange(pos + a.len(), pos + a.len() + b.len()) =~= (a + b).subrange(
        a.len() as int,
        (a.len() + b.len()) as int,
    ));
}

proof fn lemma_find_line(d: Seq<u8>, pos: int, t: Seq<u8>, i: int)
    requires
        0 <= pos <= i <= pos + t.len(),
        pos + t.len() + 2 <= d.len(),
        d.subrange(pos, pos + t.len() + 2) == t + crlf(),
        no_crlf(t),
    ensures
        find_crlf_from(d, i) == Some(pos + t.len()),
    decreases pos + t.len() - i,
{
    assert(d.subrange(pos, pos + t.len() + 2)[t.len() as int] == d[pos + t.len()]);
    assert(d.subrange(pos, pos + t.len() + 2)[t.len() + 1int] == d[pos + t.len() + 1]);
    assert(d[pos + t.len()] == (t + crlf())[t.len() as int]);
    assert(d[pos + t.len() + 1] == (t + crlf())[t.len() + 1int]);
    if i < pos + t.len() {
        assert(d.subrange(pos, pos + t.len() + 2)[i - pos] == d[i]);
        assert(d[i] == t[i - pos]);
        if i + 1 < pos + t.len() {
            assert(d.subrange(pos, pos + t.len() + 2)[i + 1 - pos] == d[i + 1]);
            assert(d[i + 1] == t[i + 1 - pos]);
            assert(!(t[i - pos] == 13 && t[i - pos + 1] == 10));
        } else {
            assert(d.subrange(pos, pos + t.len() + 2)[i + 1 - pos] == d[i + 1]);
            assert(d[i + 1] == 13);
        }
        lemma_find_line(d, pos, t, i + 1);
    }
}

proof fn lemma_line_at(d: Seq<u8>, pos: int, marker: u8, text: Seq<u8>)
    requires
        0 <= pos,
        pos + resp_line(marker, text).len() <= d.len(),
        d.subrange(pos, pos + resp_line(marker, text).len()) == resp_line(marker, text),
        no_crlf(text),
        marker != 13,
    ensures
        find_crlf_from(d, pos) == Some(pos + 1 + text.len()),
        d.subrange(pos, pos + 1 + text.len()) == seq![marker] + text,
{
    let t = seq![marker] + text;
    assert(resp_line(marker, text) =~= t + crlf());
    assert forall|i: int| 0 <= i < t.len() - 1 implies !(#[trigger] t[i] == 13 && t[i + 1] == 10) by {
        if i > 0 {
            assert(t[i] == text[i - 1] && t[i + 1] == text[i]);
        }
    }
    lemma_find_line(d, pos, t, pos);
    lemma_split_at(d, pos, t, crlf());
}

proof fn lemma_digits_no_crlf(n: nat)
    ensures
        no_crlf(dec_text(n)),
        parse_i64_spec(dec_text(n)) == (if n <= i64::MAX { Some(n as i64) } else { parse_i64_spec(dec_text(n)) }),
{
    crate::ascii::lemma_dec_text_digits(n);
    if n <= i64::MAX {
        crate::ascii::lemma_int_text_roundtrip(n as i64);
    }
}

proof fn lemma_int_no_crlf(v: i64)
    ensures
        no_crlf(int_text(v as int)),
{
    if v < 0 {
        crate::ascii::lemma_dec_text_digits((-v) as nat);
        let t = int_text(v as int);
        assert forall|i: int| 0 <= i < t.len() - 1 implies !(#[trigger] t[i] == 13 && t[i + 1] == 10) by {
            if i > 0 {
                assert(t[i] == dec_text((-v) as nat)[i - 1]);
            }
        }
    } else {
        crate::ascii::lemma_dec_text_digits(v as nat);
    }
}

/// Decoding the image of a well-formed value, wherever it stands, gives the value back
/// and the position just after the image.
pub proof fn lemma_decode_at(d: Seq<u8>, pos: int, m: RespModel, ver: RespVersion, depth: int)
    requires
        0 <= pos,
        resp_wf(m, ver, depth),
        pos + resp_bytes(m, ver).len() <= d.len(),
        d.subrange(pos, pos + resp_bytes(m, ver).len()) == resp_bytes(m, ver),
    ensures
        resp_decode(d, pos, depth) == Some(Parsed::Done(m, pos + resp_bytes(m, ver).len())),
    decreases m, 2int,
{
    match m {
        RespModel::Array(Some(items)) => {
            lemma_aggregate_at(d, pos, 42, items, ver, depth);
        },
        RespModel::SetOf(items) => {
            lemma_aggregate_at(d, pos, 126, items, ver, depth);
        },
        RespModel::Push(items) => {
            lemma_aggregate_at(d, pos, 62, items, ver, depth);
        },
        RespModel::MapOf(items) => {
            lemma_map_at(d, pos, items, ver, depth);
        },
        RespModel::BulkString(Some(b)) => {
            lemma_blob_value_at(d, pos, m, ver, depth);
        },
        RespModel::BulkError(b) => {
            lemma_blob_value_at(d, pos, m, ver, depth);
        },
        RespModel::Verbatim(fmt, v) => {
            lemma_blob_value_at(d, pos, m, ver, depth);
        },
        _ => {
            lemma_scalar_at(d, pos, m, ver, depth);
        },
    }
}

#[verifier::rlimit(40)]
proof fn lemma_blob_value_at(d: Seq<u8>, pos: int, m: RespModel, ver: RespVersion, depth: int)
    requires
        0 <= pos,
        resp_wf(m, ver, depth),
        pos + resp_bytes(m, ver).len() <= d.len(),
        d.subrange(pos, pos + resp_bytes(m, ver).len()) == resp_bytes(m, ver),
        (m is BulkString && m->BulkString_0 is Some) || m is BulkError || m is Verbatim,
    ensures
        resp_decode(d, pos, depth) == Some(Parsed::Done(m, pos + resp_bytes(m, ver).len())),
{
    match m {
        RespModel::BulkString(Some(b)) => {
            lemma_blob_at(d, pos, 36, b);
        },
        RespModel::BulkError(b) => {
            lemma_blob_at(d, pos, 33, b);
        },
        RespModel::Verbatim(fmt, v) => {
            let b = fmt + seq![58u8] + v;
            lemma_blob_at(d, pos, 61, b);
            assert(b.subrange(0, 3) =~= fmt);
            assert(b.subrange(4, b.len() as int) =~= v);
        },
        _ => {},
    }
}

proof fn lemma_scalar_at(d: Seq<u8>, pos: int, m: RespModel, ver: RespVersion, depth: int)
    requires
        0 <= pos,
        resp_wf(m, ver, depth),
        pos + resp_bytes(m, ver).len() <= d.len(),
        d.subrange(pos, pos + resp_bytes(m, ver).len()) == resp_bytes(m, ver),
        !(m is Array && m->Array_0 is Some),
        !(m is SetOf || m is Push || m is MapOf || m is BulkError || m is Verbatim),
        !(m is BulkString && m->BulkString_0 is Some),
    ensures
        resp_decode(d, pos, depth) == Some(Parsed::Done(m, pos + resp_bytes(m, ver).len())),
{
    if m is SimpleString || m is Error || m is BigNumber || m is Double || m is Integer {
        lemma_text_scalar_at(d, pos, m, ver, depth);
    } else {
        lemma_fixed_scalar_at(d, pos, m, ver, depth);
    }
}

proof fn lemma_text_scalar_at(d: Seq<u8>, pos: int, m: RespModel, ver: RespVersion, depth: int)
    requires
        0 <= pos,
        resp_wf(m, ver, depth),
        pos + resp_bytes(m, ver).len() <= d.len(),
        d.subrange(pos, pos + resp_bytes(m, ver).len()) == resp_bytes(m, ver),
        m is SimpleString || m is Error || m is BigNumber || m is Double || m is Integer,
    ensures
        resp_decode(d, pos, depth) == Some(Parsed::Done(m, pos + resp_bytes(m, ver).len())),
{
    match m {
        RespModel::SimpleString(s) => {
            crate::text::lemma_lossy_of_utf8(s);
            lemma_marked_line_at(d, pos, 43, encode_utf8(s), depth);
        },
        RespModel::Error(s) => {
            crate::text::lemma_lossy_of_utf8(s);
            lemma_marked_line_at(d, pos, 45, encode_utf8(s), depth);
        },
        RespModel::BigNumber(s) => {
            crate::text::lemma_lossy_of_utf8(s);
            lemma_marked_line_at(d, pos, 40, encode_utf8(s), depth);
        },
        RespModel::Double(t) => {
            lemma_marked_line_at(d, pos, 44, t, depth);
        },
        RespModel::Integer(v) => {
            lemma_int_no_crlf(v);
            crate::ascii::lemma_int_text_roundtrip(v);
            lemma_marked_line_at(d, pos, 58, int_text(v as int), depth);
        },
        _ => {},
    }
}

/// A line with marker `marker` and text `t`, where it stands, decodes by its marker.
#[verifier::spinoff_prover]
#[verifier::rlimit(40)]
proof fn lemma_marked_line_at(d: Seq<u8>, pos: int, marker: u8, t: Seq<u8>, depth: int)
    requires
        0 <= pos,
        0 <= depth <= 32,
        pos + resp_line(marker, t).len() <= d.len(),
        d.subrange(pos, pos + resp_line(marker, t).len()) == resp_line(marker, t),
        no_crlf(t),
        marker == 43 || marker == 45 || marker == 40 || marker == 44 || marker == 58,
    ensures
        ({
            let next = pos + resp_line(marker, t).len();
            &&& marker == 43 ==> resp_decode(d, pos, depth) == Some(
                Parsed::Done(RespModel::SimpleString(lossy_text(t)), next),
            )
            &&& marker == 45 ==> resp_decode(d, pos, depth) == Some(Parsed::Done(RespModel::Error(lossy_text(t)), next))
            &&& marker == 40 ==> resp_decode(d, pos, depth) == Some(
                Parsed::Done(RespModel::BigNumber(lossy_text(t)), next),
            )
            &&& marker == 44 && float_text(t) ==> resp_decode(d, pos, depth) == Some(
                Parsed::Done(RespModel::Double(t), next),
            )
            &&& marker == 58 ==> resp_decode(d, pos, depth) == match parse_i64_spec(t) {
                None => None,
                Some(v) => Some(Parsed::Done(RespModel::Integer(v), next)),
            }
        }),
{
    lemma_line_at(d, pos, marker, t);
    let e = pos + 1 + t.len();
    let line = d.subrange(pos, e);
    assert(line == seq![marker] + t);
    assert(line[0] == marker);
    assert(line.subrange(1, line.len() as int) =~= t);
    assert(resp_line(marker, t).len() == t.len() + 3);
}

#[verifier::spinoff_prover]
#[verifier::rlimit(40)]
proof fn lemma_fixed_scalar_at(d: Seq<u8>, pos: int, m: RespModel, ver: RespVersion, depth: int)
    requires
        0 <= pos,
        resp_wf(m, ver, depth),
        pos + resp_bytes(m, ver).len() <= d.len(),
        d.subrange(pos, pos + resp_bytes(m, ver).len()) == resp_bytes(m, ver),
        m is Null || m is Boolean || (m is BulkString && m->BulkString_0 is None) || (m is Array
            && m->Array_0 is None),
    ensures
        resp_decode(d, pos, depth) == Some(Parsed::Done(m, pos + resp_bytes(m, ver).len())),
{
    let img = resp_bytes(m, ver);
    match m {
        RespModel::Null => {
            assert(img =~= resp_line(95, Seq::empty()));
            lemma_line_at(d, pos, 95, Seq::empty());
        },
        RespModel::Boolean(b) => {
            let t = if b { seq![116u8] } else { seq![102u8] };
            assert(img =~= resp_line(35, t));
            lemma_line_at(d, pos, 35, t);
            assert((seq![35u8] + t).subrange(1, 2) =~= t);
        },
        RespModel::BulkString(None) => {
            let t = seq![45u8, 49];
            assert(img =~= resp_line(36, t));
            lemma_line_at(d, pos, 36, t);
            assert((seq![36u8] + t).subrange(1, 3) =~= t);
            crate::ascii::lemma_int_text_roundtrip(-1i64);
            assert(int_text(-1) =~= t) by {
                assert(dec_text(1) =~= seq![49u8]);
            }
        },
        RespModel::Array(None) => {
            let t = seq![45u8, 49];
            assert(img =~= resp_line(42, t));
            lemma_line_at(d, pos, 42, t);
            assert((seq![42u8] + t).subrange(1, 3) =~= t);
            crate::ascii::lemma_int_text_roundtrip(-1i64);
            assert(int_text(-1) =~= t) by {
                assert(dec_text(1) =~= seq![49u8]);
            }
        },
        _ => {},
    }
}

proof fn lemma_map_at(d: Seq<u8>, pos: int, items: Seq<(RespModel, RespModel)>, ver: RespVersion, depth: int)
    requires
        0 <= pos,
        0 <= depth <= 32,
        items.len() <= i64::MAX,
        pairs_wf(items, ver, depth + 1),
        pos + resp_bytes(RespModel::MapOf(items), ver).len() <= d.len(),
        d.subrange(pos, pos + resp_bytes(RespModel::MapOf(items), ver).len()) == resp_bytes(RespModel::MapOf(items), ver),
    ensures
        resp_decode(d, pos, depth) == Some(
            Parsed::Done(RespModel::MapOf(items), pos + resp_bytes(RespModel::MapOf(items), ver).len()),
        ),
    decreases items, 1int,
{
    let hdr = resp_line(37, dec_text(items.len()));
    let body = resp_pairs_bytes(items, ver);
    lemma_split_at(d, pos, hdr, body);
    lemma_digits_no_crlf(items.len());
    lemma_line_at(d, pos, 37, dec_text(items.len()));
    assert((seq![37u8] + dec_text(items.len())).subrange(1, 1 + dec_text(items.len()).len() as int) =~= dec_text(
        items.len(),
    ));
    lemma_decode_pairs_at(d, pos + hdr.len(), items, ver, depth + 1);
    assert(resp_decode_pairs(d, pos + hdr.len(), depth + 1, items.len() as i64 as nat) == Some(
        Parsed::Done(items, pos + hdr.len() + body.len()),
    ));
}

proof fn lemma_blob_at(d: Seq<u8>, pos: int, marker: u8, b: Seq<u8>)
    requires
        0 <= pos,
        b.len() <= i64::MAX,
        marker != 13,
        pos + resp_blob(marker, b).len() <= d.len(),
        d.subrange(pos, pos + resp_blob(marker, b).len()) == resp_blob(marker, b),
    ensures
        find_crlf_from(d, pos) == Some(pos + 1 + dec_text(b.len()).len()),
        d.subrange(pos, pos + 1 + dec_text(b.len()).len()).subrange(1, 1 + dec_text(b.len()).len() as int)
            == dec_text(b.len()),
        parse_i64_spec(dec_text(b.len())) == Some(b.len() as i64),
        blob_at(d, pos + resp_line(marker, dec_text(b.len())).len(), b.len() as int) == Some(
            Parsed::Done(b, pos + resp_blob(marker, b).len()),
        ),
{
    let hdr = resp_line(marker, dec_text(b.len()));
    assert(resp_blob(marker, b) =~= hdr + (b + crlf()));
    lemma_split_at(d, pos, hdr, b + crlf());
    lemma_digits_no_crlf(b.len());
    lemma_line_at(d, pos, marker, dec_text(b.len()));
    assert((seq![marker] + dec_text(b.len())).subrange(1, 1 + dec_text(b.len()).len() as int) =~= dec_text(
        b.len(),
    ));
    let at = pos + hdr.len();
    lemma_split_at(d, at, b, crlf());
    assert(d[at + b.len()] == d.subrange(at + b.len(), at + b.len() + 2)[0]);
    assert(d[at + b.len() + 1] == d.subrange(at + b.len(), at + b.len() + 2)[1]);
}

proof fn lemma_aggregate_at(d: Seq<u8>, pos: int, marker: u8, items: Seq<RespModel>, ver: RespVersion, depth: int)
    requires
        0 <= pos,
        0 <= depth <= 32,
        marker == 42 || marker == 126 || marker == 62,
        items.len() <= i64::MAX,
        items_wf(items, ver, depth + 1),
        pos + resp_line(marker, dec_text(items.len())).len() + resp_list_bytes(items, ver).len() <= d.len(),
        d.subrange(pos, pos + resp_line(marker, dec_text(items.len())).len() + resp_list_bytes(items, ver).len())
            == resp_line(marker, dec_text(items.len())) + resp_list_bytes(items, ver),
    ensures
        resp_decode(d, pos, depth) == Some(
            Parsed::Done(
                if marker == 42 {
                    RespModel::Array(Some(items))
                } else if marker == 126 {
                    RespModel::SetOf(items)
                } else {
                    RespModel::Push(items)
                },
                pos + resp_line(marker, dec_text(items.len())).len() + resp_list_bytes(items, ver).len(),
            ),
        ),
    decreases items, 1int,
{
    let hdr = resp_line(marker, dec_text(items.len()));
    let body = resp_list_bytes(items, ver);
    lemma_split_at(d, pos, hdr, body);
    lemma_digits_no_crlf(items.len());
    lemma_line_at(d, pos, marker, dec_text(items.len()));
    assert((seq![marker] + dec_text(items.len())).subrange(1, 1 + dec_text(items.len()).len() as int) =~= dec_text(
        items.len(),
    ));
    lemma_decode_items_at(d, pos + hdr.len(), items, ver, depth + 1);
    assert(resp_decode_items(d, pos + hdr.len(), depth + 1, items.len() as i64 as nat) == Some(
        Parsed::Done(items, pos + hdr.len() + body.len()),
    ));
}

proof fn lemma_decode_items_at(d: Seq<u8>, pos: int, items: Seq<RespModel>, ver: RespVersion, depth: int)
    requires
        0 <= pos,
        items_wf(items, ver, depth),
        pos + resp_list_bytes(items, ver).len() <= d.len(),
        d.subrange(pos, pos + resp_list_bytes(items, ver).len()) == resp_list_bytes(items, ver),
    ensures
        resp_decode_items(d, pos, depth, items.len()) == Some(Parsed::Done(items, pos + resp_list_bytes(items, ver).len())),
    decreases items, 0int,
{
    if items.len() > 0 {
        let first = resp_bytes(items[0], ver);
        let tail = items.subrange(1, items.len() as int);
        lemma_list_front(items, ver);
        lemma_split_at(d, pos, first, resp_list_bytes(tail, ver));
        lemma_decode_at(d, pos, items[0], ver, depth);
        lemma_decode_items_at(d, pos + first.len(), tail, ver, depth);
        assert(resp_decode(d, pos, depth) == Some(Parsed::Done(items[0], pos + first.len())));
        assert(tail.len() == (items.len() - 1) as nat);
        let r = resp_decode_items(d, pos + first.len(), depth, tail.len());
        assert(r == Some(Parsed::Done(tail, pos + first.len() + resp_list_bytes(tail, ver).len())));
        assert(seq![items[0]] + tail =~= items);
        assert(resp_decode_items(d, pos, depth, items.len()) == prepend_items(seq![items[0]], r));
    } else {
        assert(items =~= Seq::<RespModel>::empty());
    }
}

proof fn lemma_decode_pairs_at(d: Seq<u8>, pos: int, items: Seq<(RespModel, RespModel)>, ver: RespVersion, depth: int)
    requires
        0 <= pos,
        pairs_wf(items, ver, depth),
        pos + resp_pairs_bytes(items, ver).len() <= d.len(),
        d.subrange(pos, pos + resp_pairs_bytes(items, ver).len()) == resp_pairs_bytes(items, ver),
    ensures
        resp_decode_pairs(d, pos, depth, items.len()) == Some(
            Parsed::Done(items, pos + resp_pairs_bytes(items, ver).len()),
        ),
    decreases items, 0int,
{
    if items.len() > 0 {
        let k = resp_bytes(items[0].0, ver);
        let v = resp_bytes(items[0].1, ver);
        let tail = items.subrange(1, items.len() as int);
        lemma_pairs_front(items, ver);
        lemma_split_at(d, pos, k + v, resp_pairs_bytes(tail, ver));
        lemma_split_at(d, pos, k, v);
        lemma_decode_at(d, pos, items[0].0, ver, depth);
        lemma_decode_at(d, pos + k.len(), items[0].1, ver, depth);
        lemma_decode_pairs_at(d, pos + k.len() + v.len(), tail, ver, depth);
        assert(seq![(items[0].0, items[0].1)] + tail =~= items);
    } else {
        assert(items =~= Seq::<(RespModel, RespModel)>::empty());
    }
}

/// Decoding an encoded well-formed value gives the value back, and takes every byte.
pub proof fn lemma_resp_roundtrip(m: RespModel, ver: RespVersion)
    requires
        resp_wf(m, ver, 0),
    ensures
        resp_decode(resp_bytes(m, ver), 0, 0) == Some(Parsed::Done(m, resp_bytes(m, ver).len() as int)),
{
    let b = resp_bytes(m, ver);
    assert(b.subrange(0, b.len() as int) =~= b);
    lemma_decode_at(b, 0, m, ver, 0);
}

/// A command: its name, upper-cased, and its arguments.
#[derive(Debug, Clone, PartialEq, Eq)]
pub struct RedisCommand {
    pub name: String,
    pub args: Vec<Vec<u8>>,
}

/// The bytes of each argument.
pub open spec fn args_model(args: Seq<Vec<u8>>) -> Seq<Seq<u8>> {
    args.map_values(|a: Vec<u8>| a@)
}

impl View for RedisCommand {
    type V = (Seq<char>, Seq<Seq<u8>>);

    open spec fn view(&self) -> (Seq<char>, Seq<Seq<u8>>) {
        (self.name@, args_model(self.args@))
    }
}

/// The array of bulk strings that carries a command.
pub open spec fn command_frame(c: (Seq<char>, Seq<Seq<u8>>)) -> RespModel {
    RespModel::Array(
        Some(seq![RespModel::BulkString(Some(encode_utf8(c.0)))] + c.1.map_values(
            |a: Seq<u8>| RespModel::BulkString(Some(a)),
        )),
    )
}

/// The bytes a frame stands for as a command word or argument.
pub open spec fn frame_bytes(m: RespModel) -> Option<Seq<u8>> {
    match m {
        RespModel::BulkString(Some(b)) => Some(b),
        RespModel::SimpleString(s) => Some(encode_utf8(s)),
        RespModel::Integer(v) => Some(int_text(v as int)),
        RespModel::Null => Some(Seq::empty()),
        _ => None,
    }
}

/// The bytes of each frame, if each stands for bytes.
pub open spec fn all_frame_bytes(items: Seq<RespModel>) -> Option<Seq<Seq<u8>>>
    decreases items.len(),
{
    if items.len() == 0 {
        Some(Seq::empty())
    } else {
        match (all_frame_bytes(items.drop_last()), frame_bytes(items.last())) {
            (Some(bs), Some(b)) => Some(bs.push(b)),
            _ => None,
        }
    }
}

/// The command a frame carries: an array whose first element names it, or an
/// inline line of words.
pub open spec fn command_of(m: RespModel) -> Option<(Seq<char>, Seq<Seq<u8>>)> {
    match m {
        RespModel::Array(Some(items)) => if items.len() == 0 {
            None
        } else {
            match (frame_bytes(items[0]), all_frame_bytes(items.subrange(1, items.len() as int))) {
                (Some(nb), Some(args)) => if valid_utf8(nb) {
                    Some((ascii_upper_str(decode_utf8(nb)), args))
                } else {
                    None
                },
                _ => None,
            }
        },
        RespModel::SimpleString(line) => {
            let ws = words_from(line, 0);
            if ws.len() == 0 {
                None
            } else {
                Some(
                    (
                        ascii_upper_str(ws[0]),
                        ws.subrange(1, ws.len() as int).map_values(|w: Seq<char>| encode_utf8(w)),
                    ),
                )
            }
        },
        _ => None,
    }
}

/// Reads the first frame of a stream that ends after `data`: the frame and the position
/// after it; a stream that ends inside the frame is an error, as is a malformed frame.
pub fn read_frame(data: &[u8]) -> (r: ProtoResult<(RespFrame, usize)>)
    ensures
        match r {
            Ok((f, q)) => resp_decode(data@, 0, 0) == Some(Parsed::Done(f@, q as int)),
            Err(e) => e is Parse && (resp_decode(data@, 0, 0) is None || resp_decode(data@, 0, 0) == Some(
                Parsed::<RespModel>::Short,
            )),
        },
{
    match decode_frame(data, 0, 0)? {
        RespDecode::Complete(f, q) => Ok((f, q)),
        RespDecode::Incomplete => Err(ProtoError::Parse("unexpected end of stream")),
    }
}

fn copy_bytes(b: &Vec<u8>) -> (r: Vec<u8>)
    ensures
        r@ == b@,
{
    let mut out: Vec<u8> = Vec::new();
    push_bytes(&mut out, b.as_slice());
    out
}

/// The bytes a frame stands for as a command word or argument.
pub fn frame_to_bytes(frame: &RespFrame) -> (r: ProtoResult<Vec<u8>>)
    ensures
        match r {
            Ok(b) => frame_bytes(frame@) == Some(b@),
            Err(e) => frame_bytes(frame@) is None && e is Parse,
        },
{
    match frame {
        RespFrame::BulkString(Some(bytes)) => Ok(copy_bytes(bytes)),
        RespFrame::SimpleString(value) => Ok(utf8_bytes(value.as_str())),
        RespFrame::Integer(value) => {
            let mut out: Vec<u8> = Vec::new();
            push_int(&mut out, *value);
            assert(out@ =~= int_text(*value as int));
            Ok(out)
        },
        RespFrame::Null => {
            let out: Vec<u8> = Vec::new();
            assert(out@ =~= Seq::<u8>::empty());
            Ok(out)
        },
        _ => Err(ProtoError::Parse("invalid argument type")),
    }
}

impl RedisCommand {
    /// A command with the name upper-cased.
    pub fn new(name: &str, args: Vec<Vec<u8>>) -> (r: RedisCommand)
        ensures
            r@ == (ascii_upper_str(name@), args_model(args@)),
    {
        RedisCommand { name: to_ascii_uppercase(name), args }
    }

    /// The frame that carries the command: an array of bulk strings.
    pub fn to_frame(&self) -> (r: RespFrame)
        ensures
            r@ == command_frame(self@),
    {
        let mut items: Vec<RespFrame> = Vec::new();
        let first = RespFrame::BulkString(Some(utf8_bytes(self.name.as_str())));
        proof {
            lemma_frames_model_push(items@, first);
            assert(items@ =~= Seq::<RespFrame>::empty());
        }
        items.push(first);
        let mut i: usize = 0;
        while i < self.args.len()
            invariant
                i <= self.args.len(),
                frames_model(items@) == seq![RespModel::BulkString(Some(encode_utf8(self.name@)))] + args_model(
                    self.args@.subrange(0, i as int),
                ).map_values(|a: Seq<u8>| RespModel::BulkString(Some(a))),
            decreases self.args.len() - i,
        {
            let f = RespFrame::BulkString(Some(copy_bytes(&self.args[i])));
            proof {
                lemma_frames_model_push(items@, f);
                assert(args_model(self.args@.subrange(0, i + 1)).map_values(
                    |a: Seq<u8>| RespModel::BulkString(Some(a)),
                ) =~= args_model(self.args@.subrange(0, i as int)).map_values(
                    |a: Seq<u8>| RespModel::BulkString(Some(a)),
                ).push(RespModel::BulkString(Some(self.args@[i as int]@))));
            }
            items.push(f);
            i = i + 1;
        }
        assert(self.args@.subrange(0, i as int) =~= self.args@);
        RespFrame::Array(Some(items))
    }

    /// The command a frame carries.
    pub fn from_frame(frame: &RespFrame) -> (r: ProtoResult<RedisCommand>)
        ensures
            match r {
                Ok(c) => command_of(frame@) == Some(c@),
                Err(e) => command_of(frame@) is None && e is Parse,
            },
    {
        match frame {
            RespFrame::Array(Some(items)) => {
                if items.len() == 0 {
                    return Err(ProtoError::Parse("invalid command frame"));
                }
                proof {
                    lemma_frames_model_len(items@);
                    lemma_frames_model_index(items@);
                }
                let name = frame_to_bytes(&items[0])?;
                let ghost nb = name@;
                let name = match string_from_utf8(name) {
                    Some(s) => s,
                    None => {
                        return Err(ProtoError::Parse("invalid command name"));
                    },
                };
                let name = to_ascii_uppercase(name.as_str());
                let mut args: Vec<Vec<u8>> = Vec::new();
                let mut i: usize = 1;
                while i < items.len()
                    invariant
                        1 <= i <= items.len(),
                        frame@ == RespModel::Array(Some(frames_model(items@))),
                        frame_bytes(frames_model(items@)[0]) == Some(nb),
                        valid_utf8(nb),
                        name@ == ascii_upper_str(decode_utf8(nb)),
                        frames_model(items@).len() == items@.len(),
                        forall|j: int| 0 <= j < items@.len() ==> frames_model(items@)[j] == #[trigger] items@[j]@,
                        all_frame_bytes(frames_model(items@).subrange(1, i as int)) == Some(args_model(args@)),
                    decreases items.len() - i,
                {
                    let a = match frame_to_bytes(&items[i]) {
                        Ok(a) => a,
                        Err(e) => {
                            proof {
                                let tail = frames_model(items@).subrange(1, items@.len() as int);
                                assert(tail.subrange(0, i - 1) =~= frames_model(items@).subrange(1, i as int));
                                assert(tail[i - 1] == items@[i as int]@);
                                lemma_all_frame_bytes_prefix(tail, i - 1);
                                assert(all_frame_bytes(tail) is None);
                                assert(frame@ == RespModel::Array(Some(frames_model(items@))));
                                assert(command_of(frame@) is None);
                            }
                            return Err(e);
                        },
                    };
                    proof {
                        let pre = frames_model(items@).subrange(1, i + 1);
                        assert(pre.drop_last() =~= frames_model(items@).subrange(1, i as int));
                        assert(pre.last() == items@[i as int]@);
                    }
                    args.push(a);
                    proof {
                        assert(args_model(args@) =~= args_model(args@.drop_last()).push(args@.last()@));
                        assert(args@.drop_last() =~= args@.subrange(0, args@.len() - 1));
                    }
                    i = i + 1;
                }
                assert(frames_model(items@).subrange(1, i as int) =~= frames_model(items@).subrange(
                    1,
                    frames_model(items@).len() as int,
                ));
                Ok(RedisCommand { name, args })
            },
            RespFrame::SimpleString(line) => {
                let cs = chars_of(line.as_str());
                let parts = split_words(cs.as_slice());
                if parts.len() == 0 {
                    return Err(ProtoError::Parse("empty command"));
                }
                let first = string_from_chars(parts[0].as_slice());
                let name = to_ascii_uppercase(first.as_str());
                let mut args: Vec<Vec<u8>> = Vec::new();
                let mut i: usize = 1;
                let ghost ws = words_from(line@, 0);
                assert(ws == parts@.map_values(|w: Vec<char>| w@));
                while i < parts.len()
                    invariant
                        1 <= i <= parts.len(),
                        ws == parts@.map_values(|w: Vec<char>| w@),
                        args_model(args@) == ws.subrange(1, i as int).map_values(|w: Seq<char>| encode_utf8(w)),
                    decreases parts.len() - i,
                {
                    let w = string_from_chars(parts[i].as_slice());
                    let ghost prev = args@;
                    let a = utf8_bytes(w.as_str());
                    args.push(a);
                    proof {
                        assert(ws[i as int] == parts@[i as int]@);
                        assert(args_model(args@) =~= args_model(prev).push(a@));
                        assert(ws.subrange(1, i + 1).map_values(|w: Seq<char>| encode_utf8(w)) =~= ws.subrange(
                            1,
                            i as int,
                        ).map_values(|w: Seq<char>| encode_utf8(w)).push(encode_utf8(ws[i as int])));
                    }
                    i = i + 1;
                }
                Ok(RedisCommand { name, args })
            },
            _ => Err(ProtoError::Parse("invalid command frame")),
        }
    }
}

proof fn lemma_frames_model_index(s: Seq<RespFrame>)
    ensures
        forall|j: int| 0 <= j < s.len() ==> frames_model(s)[j] == #[trigger] s[j]@,
    decreases s.len(),
{
    lemma_frames_model_len(s);
    if s.len() > 0 {
        lemma_frames_model_index(s.subrange(0, s.len() - 1));
        lemma_frames_model_len(s.subrange(0, s.len() - 1));
        assert forall|j: int| 0 <= j < s.len() implies frames_model(s)[j] == #[trigger] s[j]@ by {
            if j < s.len() - 1 {
                assert(s.subrange(0, s.len() - 1)[j] == s[j]);
            }
        }
    }
}

proof fn lemma_all_frame_bytes_prefix(items: Seq<RespModel>, k: int)
    requires
        0 <= k <= items.len(),
        all_frame_bytes(items.subrange(0, k)) is Some,
        frame_bytes(items[k]) is None || k == items.len(),
    ensures
        k < items.len() ==> all_frame_bytes(items) is None,
    decreases items.len(),
{
    if k < items.len() {
        if k == items.len() - 1 {
            assert(items.drop_last() =~= items.subrange(0, k));
        } else {
            assert(items.drop_last().subrange(0, k) =~= items.subrange(0, k));
            assert(items.drop_last()[k] == items[k]);
            lemma_all_frame_bytes_prefix(items.drop_last(), k);
        }
    }
}

proof fn lemma_frames_model_push(s: Seq<RespFrame>, f: RespFrame)
    ensures
        frames_model(s.push(f)) == frames_model(s).push(f@),
{
    assert(s.push(f).subrange(0, s.len() as int) =~= s);
}

} // verus!