//! Java RMI frames as this project speaks them: op, big-endian call ID, big-endian payload
//! length, payload; and the echo handler.
use vstd::prelude::*;
use vstd::utf8::encode_utf8;
use crate::error::{ProtoError, ProtoResult};
use crate::text::{chars_of, join_chars, join_with, lossy_text, split_chars, split_on, string_from_chars, string_from_utf8_lossy, utf8_bytes};
use crate::wire::{be32, concat_map, copy_range, get_be32, lemma_concat_map_push, lemma_fixed_width_roundtrip, push_be32, push_bytes, read_be32};

verus! {

/// The operation of an RMI frame.
#[derive(Debug, Clone, Copy, PartialEq, Eq, Structural)]
pub enum RmiOp {
    Call,
    Return,
    Ping,
    Error,
}

/// The wire code of an operation.
pub open spec fn rmi_op_code(op: RmiOp) -> u8 {
    match op {
        RmiOp::Call => 0x50,
        RmiOp::Return => 0x51,
        RmiOp::Ping => 0x52,
        RmiOp::Error => 0x53,
    }
}

/// The operation a wire code names, if any.
pub open spec fn rmi_op_of(v: u8) -> Option<RmiOp> {
    if v == 0x50 {
        Some(RmiOp::Call)
    } else if v == 0x51 {
        Some(RmiOp::Return)
    } else if v == 0x52 {
        Some(RmiOp::Ping)
    } else if v == 0x53 {
        Some(RmiOp::Error)
    } else {
        None
    }
}

impl RmiOp {
    /// The wire code.
    pub fn code(self) -> (c: u8)
        ensures
            c == rmi_op_code(self),
    {
        match self {
            RmiOp::Call => 0x50,
            RmiOp::Return => 0x51,
            RmiOp::Ping => 0x52,
            RmiOp::Error => 0x53,
        }
    }

    /// The operation of a wire code; an unknown code is an error.
    pub fn from_u8(v: u8) -> (r: ProtoResult<RmiOp>)
        ensures
            match r {
                Ok(op) => rmi_op_of(v) == Some(op),
                Err(e) => rmi_op_of(v) is None && e == ProtoError::Parse("rmi unknown op"),
            },
    {
        if v == 0x50 {
            Ok(RmiOp::Call)
        } else if v == 0x51 {
            Ok(RmiOp::Return)
        } else if v == 0x52 {
            Ok(RmiOp::Ping)
        } else if v == 0x53 {
            Ok(RmiOp::Error)
        } else {
            Err(ProtoError::Parse("rmi unknown op"))
        }
    }
}

/// An RMI frame.
#[derive(Debug, Clone)]
pub struct RmiFrame {
    pub op: RmiOp,
    pub call_id: u32,
    pub payload: Vec<u8>,
}

/// Abstract value of a frame.
pub struct RmiFrameModel {
    pub op: RmiOp,
    pub call_id: u32,
    pub payload: Seq<u8>,
}

impl View for RmiFrame {
    type V = RmiFrameModel;

    open spec fn view(&self) -> RmiFrameModel {
        RmiFrameModel { op: self.op, call_id: self.call_id, payload: self.payload@ }
    }
}

/// The image of a frame; the length field holds the payload length cut to 32 bits.
pub open spec fn rmi_frame_bytes(f: RmiFrameModel) -> Seq<u8> {
    seq![rmi_op_code(f.op)] + be32(f.call_id) + be32(f.payload.len() as u32) + f.payload
}

/// The frame at the start of `d`, if one stands there.
pub open spec fn rmi_frame_decode(d: Seq<u8>) -> Option<RmiFrameModel> {
    if d.len() < 9 {
        None
    } else {
        match rmi_op_of(d[0]) {
            None => None,
            Some(op) => {
                let len = get_be32(d, 5) as int;
                if d.len() < 9 + len {
                    None
                } else {
                    Some(RmiFrameModel { op, call_id: get_be32(d, 1), payload: d.subrange(9, 9 + len) })
                }
            },
        }
    }
}

/// Why a frame does not decode.
pub open spec fn rmi_decode_error(d: Seq<u8>) -> ProtoError {
    if d.len() < 9 {
        ProtoError::Parse("rmi frame")
    } else if rmi_op_of(d[0]) is None {
        ProtoError::Parse("rmi unknown op")
    } else {
        ProtoError::Parse("rmi payload")
    }
}

impl RmiFrame {
    /// Encodes the frame.
    pub fn encode(&self) -> (out: Vec<u8>)
        ensures
            out@ == rmi_frame_bytes(self@),
    {
        let mut out: Vec<u8> = Vec::new();
        out.push(self.op.code());
        push_be32(&mut out, self.call_id);
        #[verifier::truncate]
        let len = self.payload.len() as u32;
        push_be32(&mut out, len);
        push_bytes(&mut out, self.payload.as_slice());
        assert(out@ =~= rmi_frame_bytes(self@));
        out
    }

    /// Decodes the frame at the start of `data`.
    pub fn decode(data: &[u8]) -> (r: ProtoResult<RmiFrame>)
        ensures
            match r {
                Ok(f) => rmi_frame_decode(data@) == Some(f@),
                Err(e) => rmi_frame_decode(data@) is None && e == rmi_decode_error(data@),
            },
    {
        if data.len() < 9 {
            return Err(ProtoError::Parse("rmi frame"));
        }
        let op = RmiOp::from_u8(data[0])?;
        let call_id = read_be32(data, 1);
        let len = read_be32(data, 5) as usize;
        if data.len() - 9 < len {
            return Err(ProtoError::Parse("rmi payload"));
        }
        let payload = copy_range(data, 9, len);
        Ok(RmiFrame { op, call_id, payload })
    }
}

/// Decoding the image of a frame gives the frame back, when its length fits the
/// length field.
pub proof fn lemma_rmi_frame_roundtrip(f: RmiFrameModel)
    requires
        f.payload.len() <= u32::MAX,
    ensures
        rmi_frame_decode(rmi_frame_bytes(f)) == Some(f),
{
    let d = rmi_frame_bytes(f);
    lemma_fixed_width_roundtrip(seq![rmi_op_code(f.op)], be32(f.payload.len() as u32) + f.payload, 0, f.call_id, 0);
    assert(d =~= seq![rmi_op_code(f.op)] + be32(f.call_id) + (be32(f.payload.len() as u32) + f.payload));
    lemma_fixed_width_roundtrip(seq![rmi_op_code(f.op)] + be32(f.call_id), f.payload, 0, f.payload.len() as u32, 0);
    assert(d.subrange(9, 9 + f.payload.len() as int) =~= f.payload);
}

/// The payload of a call: the method's UTF-8 bytes, then each argument after a zero byte.
pub open spec fn call_payload(method: Seq<char>, args: Seq<Seq<char>>) -> Seq<u8> {
    encode_utf8(method) + concat_map(args, |a: Seq<char>| seq![0u8] + encode_utf8(a))
}

/// Encodes the payload of a call.
pub fn encode_call_payload(method: &str, args: &Vec<String>) -> (out: Vec<u8>)
    ensures
        out@ == call_payload(method@, args@.map_values(|a: String| a@)),
{
    let ghost f = |a: Seq<char>| seq![0u8] + encode_utf8(a);
    let ghost xs = args@.map_values(|a: String| a@);
    let mut out = utf8_bytes(method);
    let mut i: usize = 0;
    while i < args.len()
        invariant
            i <= args.len(),
            xs == args@.map_values(|a: String| a@),
            f == (|a: Seq<char>| seq![0u8] + encode_utf8(a)),
            out@ == encode_utf8(method@) + concat_map(xs.subrange(0, i as int), f),
        decreases args.len() - i,
    {
        let ghost before = out@;
        out.push(0);
        let b = utf8_bytes(args[i].as_str());
        push_bytes(&mut out, b.as_slice());
        proof {
            lemma_concat_map_push(xs.subrange(0, i as int), xs[i as int], f);
            assert(xs.subrange(0, i as int).push(xs[i as int]) == xs.subrange(0, i + 1));
            assert(out@ =~= before + f(xs[i as int]));
        }
        i = i + 1;
    }
    assert(xs.subrange(0, i as int) == xs);
    out
}

/// The answer of the echo handler: the method, then, when there are arguments, a colon and
/// the arguments joined by commas.
pub open spec fn echo_text(method: Seq<char>, args: Seq<Seq<char>>) -> Seq<char> {
    if args.len() == 0 {
        method
    } else {
        method + seq![':'] + join_with(args, ',')
    }
}

/// A handler that answers each call with its method and arguments.
pub struct EchoRmiHandler;

impl EchoRmiHandler {
    /// Answers a call.
    pub fn handle_call(&self, method: &str, args: &Vec<String>) -> (r: ProtoResult<String>)
        ensures
            r matches Ok(s) && s@ == echo_text(method@, args@.map_values(|a: String| a@)),
    {
        let mut cs = chars_of(method);
        if args.len() > 0 {
            let mut parts: Vec<Vec<char>> = Vec::new();
            let mut i: usize = 0;
            while i < args.len()
                invariant
                    i <= args.len(),
                    parts@.len() == i,
                    forall|k: int| 0 <= k < i ==> (#[trigger] parts@[k])@ == args@[k]@,
                decreases args.len() - i,
            {
                parts.push(chars_of(args[i].as_str()));
                i = i + 1;
            }
            assert(parts@.map_values(|p: Vec<char>| p@) =~= args@.map_values(|a: String| a@));
            let joined = join_chars(&parts, ',');
            cs.push(':');
            let mut j: usize = 0;
            let ghost head = cs@;
            while j < joined.len()
                invariant
                    j <= joined.len(),
                    cs@ == head + joined@.subrange(0, j as int),
                decreases joined.len() - j,
            {
                cs.push(joined[j]);
                assert(joined@.subrange(0, j + 1) == joined@.subrange(0, j as int).push(joined@[j as int]));
                j = j + 1;
            }
            assert(joined@.subrange(0, j as int) == joined@);
        }
        Ok(string_from_chars(cs.as_slice()))
    }
}

/// The method and arguments a call payload holds: its text, read as UTF-8 with bad
/// sequences replaced, split at zero characters; `None` when the method is empty.
pub open spec fn call_parse(d: Seq<u8>) -> Option<(Seq<char>, Seq<Seq<char>>)> {
    let parts = split_on(lossy_text(d), '\0');
    if parts.len() == 0 || parts[0].len() == 0 {
        None
    } else {
        Some((parts[0], parts.drop_first()))
    }
}

/// Reads the method and arguments of a call payload; an empty method is an error.
pub fn decode_call_payload(data: &[u8]) -> (r: ProtoResult<(String, Vec<String>)>)
    ensures
        match r {
            Ok((m, args)) => call_parse(data@) == Some((m@, args@.map_values(|a: String| a@))),
            Err(e) => call_parse(data@) is None && e == ProtoError::Parse("rmi method"),
        },
{
    let text = string_from_utf8_lossy(data);
    let cs = chars_of(text.as_str());
    let parts = split_chars(cs.as_slice(), '\0');
    let ghost ps = parts@.map_values(|p: Vec<char>| p@);
    if parts.len() == 0 || parts[0].len() == 0 {
        proof {
            if parts.len() > 0 {
                assert(ps[0] == parts@[0]@);
            }
        }
        return Err(ProtoError::Parse("rmi method"));
    }
    let method = string_from_chars(parts[0].as_slice());
    let mut args: Vec<String> = Vec::new();
    let mut i: usize = 1;
    while i < parts.len()
        invariant
            1 <= i <= parts.len(),
            ps == parts@.map_values(|p: Vec<char>| p@),
            args@.len() == i - 1,
            forall|k: int| 0 <= k < i - 1 ==> (#[trigger] args@[k])@ == ps[k + 1],
        decreases parts.len() - i,
    {
        args.push(string_from_chars(parts[i].as_slice()));
        i = i + 1;
    }
    assert(args@.map_values(|a: String| a@) =~= ps.drop_first());
    assert(ps[0] == parts@[0]@);
    Ok((method, args))
}

} // verus!
