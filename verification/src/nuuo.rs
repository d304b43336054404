//! NUUO frames: magic `NUUO`, version, message type, big-endian payload length, payload.
use vstd::prelude::*;
use crate::error::{ProtoError, ProtoResult};
use vstd::utf8::encode_utf8;
use crate::ascii::{dec_text, push_dec};
use crate::text::utf8_bytes;
use crate::wire::{be32, concat_map, copy_range, get_be32, lemma_concat_map_push, lemma_fixed_width_roundtrip, push_be32, push_bytes, read_be32};

verus! {

/// The largest payload a frame may carry.
pub const NUUO_MAX_PAYLOAD: usize = 65536;

/// The kind of a NUUO message.
#[derive(Debug, Clone, Copy, PartialEq, Eq, Structural)]
pub enum NuuoMessageType {
    Hello,
    Auth,
    AuthOk,
    AuthFail,
    Ping,
    Pong,
    GetInfo,
    Info,
    ListCameras,
    CameraList,
    Error,
}

/// The wire code of a message type.
pub open spec fn nuuo_type_code(t: NuuoMessageType) -> u8 {
    match t {
        NuuoMessageType::Hello => 0x01,
        NuuoMessageType::Auth => 0x02,
        NuuoMessageType::AuthOk => 0x03,
        NuuoMessageType::AuthFail => 0x04,
        NuuoMessageType::Ping => 0x05,
        NuuoMessageType::Pong => 0x06,
        NuuoMessageType::GetInfo => 0x10,
        NuuoMessageType::Info => 0x11,
        NuuoMessageType::ListCameras => 0x12,
        NuuoMessageType::CameraList => 0x13,
        NuuoMessageType::Error => 0x7f,
    }
}

/// The message type a wire code names, if any.
pub open spec fn nuuo_type_of(v: u8) -> Option<NuuoMessageType> {
    if v == 0x01 {
        Some(NuuoMessageType::Hello)
    } else if v == 0x02 {
        Some(NuuoMessageType::Auth)
    } else if v == 0x03 {
        Some(NuuoMessageType::AuthOk)
    } else if v == 0x04 {
        Some(NuuoMessageType::AuthFail)
    } else if v == 0x05 {
        Some(NuuoMessageType::Ping)
    } else if v == 0x06 {
        Some(NuuoMessageType::Pong)
    } else if v == 0x10 {
        Some(NuuoMessageType::GetInfo)
    } else if v == 0x11 {
        Some(NuuoMessageType::Info)
    } else if v == 0x12 {
        Some(NuuoMessageType::ListCameras)
    } else if v == 0x13 {
        Some(NuuoMessageType::CameraList)
    } else if v == 0x7f {
        Some(NuuoMessageType::Error)
    } else {
        None
    }
}

impl NuuoMessageType {
    /// The wire code.
    pub fn code(self) -> (c: u8)
        ensures
            c == nuuo_type_code(self),
    {
        match self {
            NuuoMessageType::Hello => 0x01,
            NuuoMessageType::Auth => 0x02,
            NuuoMessageType::AuthOk => 0x03,
            NuuoMessageType::AuthFail => 0x04,
            NuuoMessageType::Ping => 0x05,
            NuuoMessageType::Pong => 0x06,
            NuuoMessageType::GetInfo => 0x10,
            NuuoMessageType::Info => 0x11,
            NuuoMessageType::ListCameras => 0x12,
            NuuoMessageType::CameraList => 0x13,
            NuuoMessageType::Error => 0x7f,
        }
    }

    /// The message type of a wire code; an unknown code is an error.
    pub fn from_u8(v: u8) -> (r: ProtoResult<NuuoMessageType>)
        ensures
            match r {
                Ok(t) => nuuo_type_of(v) == Some(t),
                Err(e) => nuuo_type_of(v) is None && e == ProtoError::Parse("nuuo invalid message type"),
            },
    {
        if v == 0x01 {
            Ok(NuuoMessageType::Hello)
        } else if v == 0x02 {
            Ok(NuuoMessageType::Auth)
        } else if v == 0x03 {
            Ok(NuuoMessageType::AuthOk)
        } else if v == 0x04 {
            Ok(NuuoMessageType::AuthFail)
        } else if v == 0x05 {
            Ok(NuuoMessageType::Ping)
        } else if v == 0x06 {
            Ok(NuuoMessageType::Pong)
        } else if v == 0x10 {
            Ok(NuuoMessageType::GetInfo)
        } else if v == 0x11 {
            Ok(NuuoMessageType::Info)
        } else if v == 0x12 {
            Ok(NuuoMessageType::ListCameras)
        } else if v == 0x13 {
            Ok(NuuoMessageType::CameraList)
        } else if v == 0x7f {
            Ok(NuuoMessageType::Error)
        } else {
            Err(ProtoError::Parse("nuuo invalid message type"))
        }
    }
}

/// A NUUO frame.
#[derive(Debug, Clone)]
pub struct NuuoFrame {
    pub version: u8,
    pub msg_type: NuuoMessageType,
    pub payload: Vec<u8>,
}

/// Abstract value of a frame.
pub struct NuuoFrameModel {
    pub version: u8,
    pub msg_type: NuuoMessageType,
    pub payload: Seq<u8>,
}

impl View for NuuoFrame {
    type V = NuuoFrameModel;

    open spec fn view(&self) -> NuuoFrameModel {
        NuuoFrameModel { version: self.version, msg_type: self.msg_type, payload: self.payload@ }
    }
}

/// The magic that opens a frame: `NUUO`.
pub open spec fn nuuo_magic() -> Seq<u8> {
    seq![0x4eu8, 0x55, 0x55, 0x4f]
}

/// The image of a frame; the length field holds the payload length cut to 32 bits.
pub open spec fn nuuo_frame_bytes(f: NuuoFrameModel) -> Seq<u8> {
    nuuo_magic() + seq![f.version, nuuo_type_code(f.msg_type)] + be32(f.payload.len() as u32) + f.payload
}

/// The frame at the start of `d`, if one stands there.
pub open spec fn nuuo_frame_decode(d: Seq<u8>) -> Option<NuuoFrameModel> {
    if d.len() < 10 || d.subrange(0, 4) != nuuo_magic() {
        None
    } else {
        match nuuo_type_of(d[5]) {
            None => None,
            Some(t) => {
                let len = get_be32(d, 6) as int;
                if len > NUUO_MAX_PAYLOAD || d.len() < 10 + len {
                    None
                } else {
                    Some(NuuoFrameModel { version: d[4], msg_type: t, payload: d.subrange(10, 10 + len) })
                }
            },
        }
    }
}

/// Why a frame does not decode.
pub open spec fn nuuo_decode_error(d: Seq<u8>) -> ProtoError {
    if d.len() < 10 {
        ProtoError::Parse("nuuo frame too short")
    } else if d.subrange(0, 4) != nuuo_magic() {
        ProtoError::Parse("nuuo bad magic")
    } else if nuuo_type_of(d[5]) is None {
        ProtoError::Parse("nuuo invalid message type")
    } else {
        ProtoError::Parse("nuuo payload length")
    }
}

impl NuuoFrame {
    /// A frame of version 1.
    pub fn new(msg_type: NuuoMessageType, payload: Vec<u8>) -> (f: NuuoFrame)
        ensures
            f@ == (NuuoFrameModel { version: 1, msg_type, payload: payload@ }),
    {
        NuuoFrame { version: 1, msg_type, payload }
    }

    /// Encodes the frame.
    pub fn encode(&self) -> (out: Vec<u8>)
        ensures
            out@ == nuuo_frame_bytes(self@),
    {
        let mut out: Vec<u8> = Vec::new();
        out.push(0x4e);
        out.push(0x55);
        out.push(0x55);
        out.push(0x4f);
        out.push(self.version);
        out.push(self.msg_type.code());
        #[verifier::truncate]
        let len = self.payload.len() as u32;
        push_be32(&mut out, len);
        push_bytes(&mut out, self.payload.as_slice());
        assert(out@ =~= nuuo_frame_bytes(self@));
        out
    }

    /// Decodes the frame at the start of `data`.
    pub fn decode(data: &[u8]) -> (r: ProtoResult<NuuoFrame>)
        ensures
            match r {
                Ok(f) => nuuo_frame_decode(data@) == Some(f@),
                Err(e) => nuuo_frame_decode(data@) is None && e == nuuo_decode_error(data@),
            },
    {
        if data.len() < 10 {
            return Err(ProtoError::Parse("nuuo frame too short"));
        }
        if !(data[0] == 0x4e && data[1] == 0x55 && data[2] == 0x55 && data[3] == 0x4f) {
            proof {
                if data@.subrange(0, 4) == nuuo_magic() {
                    assert(data@[0] == data@.subrange(0, 4)[0]);
                    assert(data@[1] == data@.subrange(0, 4)[1]);
                    assert(data@[2] == data@.subrange(0, 4)[2]);
                    assert(data@[3] == data@.subrange(0, 4)[3]);
                }
            }
            return Err(ProtoError::Parse("nuuo bad magic"));
        }
        assert(data@.subrange(0, 4) =~= nuuo_magic());
        let version = data[4];
        let msg_type = NuuoMessageType::from_u8(data[5])?;
        let len = read_be32(data, 6) as usize;
        if len > NUUO_MAX_PAYLOAD || data.len() - 10 < len {
            return Err(ProtoError::Parse("nuuo payload length"));
        }
        let payload = copy_range(data, 10, len);
        Ok(NuuoFrame { version, msg_type, payload })
    }
}

/// Decoding the image of a frame gives the frame back, when its payload is within the
/// largest a frame may carry.
pub proof fn lemma_nuuo_frame_roundtrip(f: NuuoFrameModel)
    requires
        f.payload.len() <= NUUO_MAX_PAYLOAD,
    ensures
        nuuo_frame_decode(nuuo_frame_bytes(f)) == Some(f),
{
    let d = nuuo_frame_bytes(f);
    let pre = nuuo_magic() + seq![f.version, nuuo_type_code(f.msg_type)];
    lemma_fixed_width_roundtrip(pre, f.payload, 0, f.payload.len() as u32, 0);
    assert(d.subrange(0, 4) =~= nuuo_magic());
    assert(d[4] == f.version && d[5] == nuuo_type_code(f.msg_type));
    assert(d.subrange(10, 10 + f.payload.len() as int) =~= f.payload);
}

/// A camera a server lists.
#[derive(Debug, Clone)]
pub struct NuuoCamera {
    pub id: u32,
    pub name: String,
    pub ip: Option<[u8; 4]>,
}

/// The dotted text of an IPv4 address.
pub open spec fn ipv4_text(ip: Seq<u8>) -> Seq<u8> {
    dec_text(ip[0] as nat) + seq![0x2eu8] + dec_text(ip[1] as nat) + seq![0x2eu8] + dec_text(ip[2] as nat) + seq![0x2eu8]
        + dec_text(ip[3] as nat)
}

/// The line that lists a camera: `id=<id>,name=<name>,ip=<address or nothing>`.
pub open spec fn camera_line(c: NuuoCamera) -> Seq<u8> {
    seq![0x69u8, 0x64, 0x3d] + dec_text(c.id as nat) + seq![0x2cu8, 0x6e, 0x61, 0x6d, 0x65, 0x3d] + encode_utf8(c.name@)
        + seq![0x2cu8, 0x69, 0x70, 0x3d] + match c.ip {
        Some(ip) => ipv4_text(ip@),
        None => Seq::empty(),
    }
}

/// The camera list payload: one line per camera, separated by line feeds.
pub open spec fn camera_list_bytes(cs: Seq<NuuoCamera>) -> Seq<u8>
    decreases cs.len(),
{
    if cs.len() == 0 {
        Seq::empty()
    } else if cs.len() == 1 {
        camera_line(cs[0])
    } else {
        camera_list_bytes(cs.drop_last()) + seq![0x0au8] + camera_line(cs.last())
    }
}

fn push_camera_line(out: &mut Vec<u8>, c: &NuuoCamera)
    ensures
        final(out)@ == old(out)@ + camera_line(*c),
{
    let ghost start = out@;
    let id_key: [u8; 3] = [0x69, 0x64, 0x3d];
    let name_key: [u8; 6] = [0x2c, 0x6e, 0x61, 0x6d, 0x65, 0x3d];
    let ip_key: [u8; 4] = [0x2c, 0x69, 0x70, 0x3d];
    assert(id_key@ =~= seq![0x69u8, 0x64, 0x3d]);
    assert(name_key@ =~= seq![0x2cu8, 0x6e, 0x61, 0x6d, 0x65, 0x3d]);
    assert(ip_key@ =~= seq![0x2cu8, 0x69, 0x70, 0x3d]);
    push_bytes(out, id_key.as_slice());
    push_dec(out, c.id as u64);
    push_bytes(out, name_key.as_slice());
    let name = utf8_bytes(c.name.as_str());
    push_bytes(out, name.as_slice());
    push_bytes(out, ip_key.as_slice());
    let ghost mid = out@;
    if let Some(ip) = c.ip {
        push_dec(out, ip[0] as u64);
        out.push(0x2e);
        push_dec(out, ip[1] as u64);
        out.push(0x2e);
        push_dec(out, ip[2] as u64);
        out.push(0x2e);
        push_dec(out, ip[3] as u64);
    }
    assert(out@ =~= start + camera_line(*c));
}

/// The camera list payload of a server.
pub fn build_camera_list(cameras: &Vec<NuuoCamera>) -> (out: Vec<u8>)
    ensures
        out@ == camera_list_bytes(cameras@),
{
    let mut out: Vec<u8> = Vec::new();
    let mut i: usize = 0;
    while i < cameras.len()
        invariant
            i <= cameras.len(),
            out@ == camera_list_bytes(cameras@.subrange(0, i as int)),
        decreases cameras.len() - i,
    {
        let ghost before = out@;
        if i > 0 {
            out.push(0x0a);
        }
        push_camera_line(&mut out, &cameras[i]);
        proof {
            let s = cameras@.subrange(0, i + 1);
            assert(s.drop_last() =~= cameras@.subrange(0, i as int));
            assert(s.last() == cameras@[i as int]);
            if i == 0 {
                assert(s.len() == 1 && s[0] == cameras@[0]);
                assert(out@ =~= camera_line(cameras@[0]));
            } else {
                assert(out@ =~= before + seq![0x0au8] + camera_line(cameras@[i as int]));
            }
        }
        i = i + 1;
    }
    assert(cameras@.subrange(0, i as int) =~= cameras@);
    out
}

/// What a server announces about itself and the cameras it lists.
pub struct NuuoServerConfig {
    pub product_name: String,
    pub version: String,
    pub cameras: Vec<NuuoCamera>,
}

/// One `key=value` line of a key-value payload.
pub open spec fn kv_line(key: Seq<u8>, value: Seq<u8>) -> Seq<u8> {
    key + seq![0x3du8] + value + seq![0x0au8]
}

/// The information payload: the product, the version and the number of cameras.
pub open spec fn info_bytes(product: Seq<char>, version: Seq<char>, cameras: nat) -> Seq<u8> {
    kv_line(seq![0x70u8, 0x72, 0x6f, 0x64, 0x75, 0x63, 0x74], encode_utf8(product)) + kv_line(
        seq![0x76u8, 0x65, 0x72, 0x73, 0x69, 0x6f, 0x6e],
        encode_utf8(version),
    ) + kv_line(seq![0x63u8, 0x61, 0x6d, 0x65, 0x72, 0x61, 0x73], dec_text(cameras))
}

/// The information payload of a server.
pub fn build_info(config: &NuuoServerConfig) -> (out: Vec<u8>)
    ensures
        out@ == info_bytes(config.product_name@, config.version@, config.cameras@.len()),
{
    let product: [u8; 7] = [0x70, 0x72, 0x6f, 0x64, 0x75, 0x63, 0x74];
    let version: [u8; 7] = [0x76, 0x65, 0x72, 0x73, 0x69, 0x6f, 0x6e];
    let cameras: [u8; 7] = [0x63, 0x61, 0x6d, 0x65, 0x72, 0x61, 0x73];
    assert(product@ =~= seq![0x70u8, 0x72, 0x6f, 0x64, 0x75, 0x63, 0x74]);
    assert(version@ =~= seq![0x76u8, 0x65, 0x72, 0x73, 0x69, 0x6f, 0x6e]);
    assert(cameras@ =~= seq![0x63u8, 0x61, 0x6d, 0x65, 0x72, 0x61, 0x73]);
    let mut out: Vec<u8> = Vec::new();
    push_bytes(&mut out, product.as_slice());
    out.push(0x3d);
    let p = utf8_bytes(config.product_name.as_str());
    push_bytes(&mut out, p.as_slice());
    out.push(0x0a);
    push_bytes(&mut out, version.as_slice());
    out.push(0x3d);
    let v = utf8_bytes(config.version.as_str());
    push_bytes(&mut out, v.as_slice());
    out.push(0x0a);
    push_bytes(&mut out, cameras.as_slice());
    out.push(0x3d);
    push_dec(&mut out, config.cameras.len() as u64);
    out.push(0x0a);
    assert(out@ =~= info_bytes(config.product_name@, config.version@, config.cameras@.len()));
    out
}

/// What the server sends back for a request of a logged-in client: a pong for a ping,
/// the information for a request for it, the camera list for a request for it, and an
/// error saying `unsupported` for anything else.
pub open spec fn serve_spec(config: NuuoServerConfig, request: NuuoMessageType) -> NuuoFrameModel {
    match request {
        NuuoMessageType::Ping => NuuoFrameModel { version: 1, msg_type: NuuoMessageType::Pong, payload: Seq::empty() },
        NuuoMessageType::GetInfo => NuuoFrameModel {
            version: 1,
            msg_type: NuuoMessageType::Info,
            payload: info_bytes(config.product_name@, config.version@, config.cameras@.len()),
        },
        NuuoMessageType::ListCameras => NuuoFrameModel {
            version: 1,
            msg_type: NuuoMessageType::CameraList,
            payload: camera_list_bytes(config.cameras@),
        },
        _ => NuuoFrameModel {
            version: 1,
            msg_type: NuuoMessageType::Error,
            payload: seq![0x75u8, 0x6e, 0x73, 0x75, 0x70, 0x70, 0x6f, 0x72, 0x74, 0x65, 0x64],
        },
    }
}

/// Answers a request of a logged-in client.
pub fn serve_request(config: &NuuoServerConfig, request: &NuuoFrame) -> (reply: NuuoFrame)
    ensures
        reply@ == serve_spec(*config, request.msg_type),
{
    match request.msg_type {
        NuuoMessageType::Ping => {
            let r = NuuoFrame::new(NuuoMessageType::Pong, Vec::new());
            assert(r@.payload =~= Seq::<u8>::empty());
            r
        },
        NuuoMessageType::GetInfo => NuuoFrame::new(NuuoMessageType::Info, build_info(config)),
        NuuoMessageType::ListCameras => NuuoFrame::new(NuuoMessageType::CameraList, build_camera_list(&config.cameras)),
        _ => {
            let text: [u8; 11] = [0x75, 0x6e, 0x73, 0x75, 0x70, 0x70, 0x6f, 0x72, 0x74, 0x65, 0x64];
            let mut payload: Vec<u8> = Vec::new();
            push_bytes(&mut payload, text.as_slice());
            assert(payload@ =~= seq![0x75u8, 0x6e, 0x73, 0x75, 0x70, 0x70, 0x6f, 0x72, 0x74, 0x65, 0x64]);
            NuuoFrame::new(NuuoMessageType::Error, payload)
        },
    }
}

} // verus!
