//! SASL frames as this project speaks them: message type, big-endian 16-bit payload
//! length, payload.
use vstd::prelude::*;
use crate::error::{ProtoError, ProtoResult};
use crate::wire::{be16, copy_range, get_be16, lemma_fixed_width_roundtrip, push_be16, push_bytes, read_be16};

verus! {

/// The kind of a SASL message.
#[derive(Debug, Clone, Copy, PartialEq, Eq, Structural)]
pub enum SaslMessageType {
    ClientFirst,
    ServerChallenge,
    ClientResponse,
    ServerOutcome,
}

/// The wire code of a message type.
pub open spec fn sasl_type_code(t: SaslMessageType) -> u8 {
    match t {
        SaslMessageType::ClientFirst => 0x01,
        SaslMessageType::ServerChallenge => 0x02,
        SaslMessageType::ClientResponse => 0x03,
        SaslMessageType::ServerOutcome => 0x04,
    }
}

/// The message type a wire code names, if any.
pub open spec fn sasl_type_of(v: u8) -> Option<SaslMessageType> {
    if v == 0x01 {
        Some(SaslMessageType::ClientFirst)
    } else if v == 0x02 {
        Some(SaslMessageType::ServerChallenge)
    } else if v == 0x03 {
        Some(SaslMessageType::ClientResponse)
    } else if v == 0x04 {
        Some(SaslMessageType::ServerOutcome)
    } else {
        None
    }
}

impl SaslMessageType {
    /// The wire code.
    pub fn code(self) -> (c: u8)
        ensures
            c == sasl_type_code(self),
    {
        match self {
            SaslMessageType::ClientFirst => 0x01,
            SaslMessageType::ServerChallenge => 0x02,
            SaslMessageType::ClientResponse => 0x03,
            SaslMessageType::ServerOutcome => 0x04,
        }
    }

    /// The message type of a wire code; an unknown code is an error.
    pub fn from_u8(v: u8) -> (r: ProtoResult<SaslMessageType>)
        ensures
            match r {
                Ok(t) => sasl_type_of(v) == Some(t),
                Err(e) => sasl_type_of(v) is None && e == ProtoError::Parse("sasl message type"),
            },
    {
        if v == 0x01 {
            Ok(SaslMessageType::ClientFirst)
        } else if v == 0x02 {
            Ok(SaslMessageType::ServerChallenge)
        } else if v == 0x03 {
            Ok(SaslMessageType::ClientResponse)
        } else if v == 0x04 {
            Ok(SaslMessageType::ServerOutcome)
        } else {
            Err(ProtoError::Parse("sasl message type"))
        }
    }
}

/// A SASL frame.
#[derive(Debug, Clone)]
pub struct SaslFrame {
    pub msg_type: SaslMessageType,
    pub payload: Vec<u8>,
}

/// Abstract value of a frame.
pub struct SaslFrameModel {
    pub msg_type: SaslMessageType,
    pub payload: Seq<u8>,
}

impl View for SaslFrame {
    type V = SaslFrameModel;

    open spec fn view(&self) -> SaslFrameModel {
        SaslFrameModel { msg_type: self.msg_type, payload: self.payload@ }
    }
}

/// The image of a frame; the length field holds the payload length cut to 16 bits.
pub open spec fn sasl_frame_bytes(f: SaslFrameModel) -> Seq<u8> {
    seq![sasl_type_code(f.msg_type)] + be16(f.payload.len() as u16) + f.payload
}

/// The frame at the start of `d`, if one stands there.
pub open spec fn sasl_frame_decode(d: Seq<u8>) -> Option<SaslFrameModel> {
    if d.len() < 3 {
        None
    } else {
        match sasl_type_of(d[0]) {
            None => None,
            Some(t) => {
                let len = get_be16(d, 1) as int;
                if d.len() < 3 + len {
                    None
                } else {
                    Some(SaslFrameModel { msg_type: t, payload: d.subrange(3, 3 + len) })
                }
            },
        }
    }
}

/// Why a frame does not decode.
pub open spec fn sasl_decode_error(d: Seq<u8>) -> ProtoError {
    if d.len() < 3 {
        ProtoError::Parse("sasl frame")
    } else if sasl_type_of(d[0]) is None {
        ProtoError::Parse("sasl message type")
    } else {
        ProtoError::Parse("sasl frame len")
    }
}

impl SaslFrame {
    /// Encodes the frame.
    pub fn encode(&self) -> (out: Vec<u8>)
        ensures
            out@ == sasl_frame_bytes(self@),
    {
        let mut out: Vec<u8> = Vec::new();
        out.push(self.msg_type.code());
        #[verifier::truncate]
        let len = self.payload.len() as u16;
        push_be16(&mut out, len);
        push_bytes(&mut out, self.payload.as_slice());
        assert(out@ =~= sasl_frame_bytes(self@));
        out
    }

    /// Decodes the frame at the start of `data`.
    pub fn decode(data: &[u8]) -> (r: ProtoResult<SaslFrame>)
        ensures
            match r {
                Ok(f) => sasl_frame_decode(data@) == Some(f@),
                Err(e) => sasl_frame_decode(data@) is None && e == sasl_decode_error(data@),
            },
    {
        if data.len() < 3 {
            return Err(ProtoError::Parse("sasl frame"));
        }
        let msg_type = SaslMessageType::from_u8(data[0])?;
        let len = read_be16(data, 1) as usize;
        if data.len() - 3 < len {
            return Err(ProtoError::Parse("sasl frame len"));
        }
        let payload = copy_range(data, 3, len);
        Ok(SaslFrame { msg_type, payload })
    }
}

/// Decoding the image of a frame gives the frame back, when its length fits the
/// length field.
pub proof fn lemma_sasl_frame_roundtrip(f: SaslFrameModel)
    requires
        f.payload.len() <= u16::MAX,
    ensures
        sasl_frame_decode(sasl_frame_bytes(f)) == Some(f),
{
    let d = sasl_frame_bytes(f);
    lemma_fixed_width_roundtrip(seq![sasl_type_code(f.msg_type)], f.payload, f.payload.len() as u16, 0, 0);
    assert(d.subrange(3, 3 + f.payload.len() as int) =~= f.payload);
}

} // verus!
