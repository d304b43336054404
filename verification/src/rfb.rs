//! RFB (the VNC remote framebuffer protocol): pixel formats, the server's init message,
//! client and server messages on the byte stream, and the handshake decisions.
use vstd::prelude::*;
use crate::error::{ProtoError, ProtoResult};
use crate::redis::Parsed;
use crate::text::{chars_of, lossy_text, seq_starts_with, starts_with_chars, string_from_utf8_lossy, utf8_bytes};
use crate::wire::{be16, be32, copy_range, get_be16, get_be32, push_be16, push_be32, push_bytes, read_be16, read_be32};
use vstd::utf8::encode_utf8;

verus! {

/// The TCP port an RFB server listens on by default.
pub const RFB_DEFAULT_PORT: u16 = 5900;

/// The version line the server and the client send, `RFB 003.008` and a newline.
pub open spec fn version_line() -> Seq<u8> {
    seq![82u8, 70, 66, 32, 48, 48, 51, 46, 48, 48, 56, 10]
}

/// The version line, as bytes.
pub fn rfb_version_bytes() -> (v: Vec<u8>)
    ensures
        v@ == version_line(),
{
    let v: Vec<u8> = vec![82u8, 70, 66, 32, 48, 48, 51, 46, 48, 48, 56, 10];
    assert(v@ =~= version_line());
    v
}

/// A security type.
#[derive(Debug, Clone, Copy, PartialEq, Eq, Structural)]
pub enum RfbSecurityType {
    /// No authentication.
    NoAuth,
    /// VNC password authentication.
    VncAuth,
}

/// The code of a security type on the wire.
pub open spec fn security_code(t: RfbSecurityType) -> u8 {
    match t {
        RfbSecurityType::NoAuth => 1,
        RfbSecurityType::VncAuth => 2,
    }
}

/// How pixels are laid out.
#[derive(Debug, Clone, Copy, PartialEq, Eq, Structural)]
pub struct RfbPixelFormat {
    pub bits_per_pixel: u8,
    pub depth: u8,
    pub big_endian: u8,
    pub true_color: u8,
    pub red_max: u16,
    pub green_max: u16,
    pub blue_max: u16,
    pub red_shift: u8,
    pub green_shift: u8,
    pub blue_shift: u8,
}

impl Default for RfbPixelFormat {
    /// 32 bits per pixel, depth 24, little-endian true color with 8 bits per channel.
    fn default() -> (r: Self)
        ensures
            r == (RfbPixelFormat {
                bits_per_pixel: 32,
                depth: 24,
                big_endian: 0,
                true_color: 1,
                red_max: 255,
                green_max: 255,
                blue_max: 255,
                red_shift: 16,
                green_shift: 8,
                blue_shift: 0,
            }),
    {
        RfbPixelFormat {
            bits_per_pixel: 32,
            depth: 24,
            big_endian: 0,
            true_color: 1,
            red_max: 255,
            green_max: 255,
            blue_max: 255,
            red_shift: 16,
            green_shift: 8,
            blue_shift: 0,
        }
    }
}

/// The 16 bytes of a pixel format: the four flags, the three channel maxima (16 bits,
/// big-endian), the three shifts, and three bytes of padding.
pub open spec fn pixel_format_bytes(p: RfbPixelFormat) -> Seq<u8> {
    seq![p.bits_per_pixel, p.depth, p.big_endian, p.true_color] + be16(p.red_max) + be16(p.green_max) + be16(p.blue_max)
        + seq![p.red_shift, p.green_shift, p.blue_shift, 0u8, 0u8, 0u8]
}

/// The pixel format in the first 16 bytes of `d`.
pub open spec fn pixel_format_at(d: Seq<u8>, i: int) -> RfbPixelFormat {
    RfbPixelFormat {
        bits_per_pixel: d[i],
        depth: d[i + 1],
        big_endian: d[i + 2],
        true_color: d[i + 3],
        red_max: get_be16(d, i + 4),
        green_max: get_be16(d, i + 6),
        blue_max: get_be16(d, i + 8),
        red_shift: d[i + 10],
        green_shift: d[i + 11],
        blue_shift: d[i + 12],
    }
}

fn read_pixel_format(data: &[u8], i: usize) -> (p: RfbPixelFormat)
    requires
        i + 16 <= data.len(),
    ensures
        p == pixel_format_at(data@, i as int),
{
    RfbPixelFormat {
        bits_per_pixel: data[i],
        depth: data[i + 1],
        big_endian: data[i + 2],
        true_color: data[i + 3],
        red_max: read_be16(data, i + 4),
        green_max: read_be16(data, i + 6),
        blue_max: read_be16(data, i + 8),
        red_shift: data[i + 10],
        green_shift: data[i + 11],
        blue_shift: data[i + 12],
    }
}

impl RfbPixelFormat {
    /// The 16 bytes of the pixel format.
    pub fn encode(&self) -> (out: [u8; 16])
        ensures
            out@ == pixel_format_bytes(*self),
    {
        let mut v: Vec<u8> = Vec::new();
        v.push(self.bits_per_pixel);
        v.push(self.depth);
        v.push(self.big_endian);
        v.push(self.true_color);
        push_be16(&mut v, self.red_max);
        push_be16(&mut v, self.green_max);
        push_be16(&mut v, self.blue_max);
        v.push(self.red_shift);
        v.push(self.green_shift);
        v.push(self.blue_shift);
        v.push(0);
        v.push(0);
        v.push(0);
        assert(v@ =~= pixel_format_bytes(*self));
        let out: [u8; 16] = [v[0], v[1], v[2], v[3], v[4], v[5], v[6], v[7], v[8], v[9], v[10], v[11], v[12], v[13], v[14], v[15]];
        assert(out@ =~= v@);
        out
    }

    /// Reads a pixel format from the first 16 bytes of `data`.
    pub fn decode(data: &[u8]) -> (r: ProtoResult<RfbPixelFormat>)
        ensures
            match r {
                Ok(p) => data@.len() >= 16 && p == pixel_format_at(data@, 0),
                Err(e) => data@.len() < 16 && e is Parse,
            },
    {
        if data.len() < 16 {
            return Err(ProtoError::Parse("rfb pixel format"));
        }
        Ok(read_pixel_format(data, 0))
    }
}

/// Reading back the bytes of a pixel format gives the pixel format.
pub proof fn lemma_pixel_format_roundtrip(p: RfbPixelFormat)
    ensures
        pixel_format_at(pixel_format_bytes(p), 0) == p,
{
    let d = pixel_format_bytes(p);
    assert(d.subrange(4, 6) == be16(p.red_max));
    assert(d.subrange(6, 8) == be16(p.green_max));
    assert(d.subrange(8, 10) == be16(p.blue_max));
    crate::wire::lemma_read_at(d, 4);
    crate::wire::lemma_read_at(d, 6);
    crate::wire::lemma_read_at(d, 8);
}

/// The server's init message: the framebuffer size, its pixel format and the desktop name.
#[derive(Debug, Clone)]
pub struct RfbServerInit {
    pub width: u16,
    pub height: u16,
    pub pixel_format: RfbPixelFormat,
    pub name: String,
}

/// The bytes of an init message: width and height (16 bits, big-endian), the pixel
/// format, the name's UTF-8 length (32 bits, modulo 2^32) and the name.
pub open spec fn server_init_bytes(width: u16, height: u16, p: RfbPixelFormat, name: Seq<char>) -> Seq<u8> {
    be16(width) + be16(height) + pixel_format_bytes(p) + be32((encode_utf8(name).len() % 0x1_0000_0000) as u32)
        + encode_utf8(name)
}

/// The init message at the start of a stream that holds `d` so far: its fields and the
/// bytes it takes; `None` while `d` does not hold all of it.
pub open spec fn server_init_at(d: Seq<u8>) -> Option<(u16, u16, RfbPixelFormat, Seq<char>, int)> {
    if d.len() < 24 || d.len() < 24 + get_be32(d, 20) {
        None
    } else {
        let n = get_be32(d, 20) as int;
        Some((get_be16(d, 0), get_be16(d, 2), pixel_format_at(d, 4), lossy_text(d.subrange(24, 24 + n)), 24 + n))
    }
}

/// The bytes of an init message.
pub fn encode_server_init(init: &RfbServerInit) -> (out: Vec<u8>)
    ensures
        out@ == server_init_bytes(init.width, init.height, init.pixel_format, init.name@),
{
    let name = utf8_bytes(init.name.as_str());
    let mut out: Vec<u8> = Vec::new();
    push_be16(&mut out, init.width);
    push_be16(&mut out, init.height);
    let pf = init.pixel_format.encode();
    push_bytes(&mut out, pf.as_slice());
    push_be32(&mut out, (name.len() as u64 % 0x1_0000_0000) as u32);
    push_bytes(&mut out, name.as_slice());
    assert(out@ =~= server_init_bytes(init.width, init.height, init.pixel_format, init.name@));
    out
}

/// Reads an init message from the bytes received so far.
pub fn decode_server_init(data: &[u8]) -> (r: Option<(RfbServerInit, usize)>)
    ensures
        match r {
            Some((i, n)) => server_init_at(data@) == Some((i.width, i.height, i.pixel_format, i.name@, n as int)),
            None => server_init_at(data@) is None,
        },
{
    if data.len() < 24 {
        return None;
    }
    let n = read_be32(data, 20) as usize;
    if data.len() - 24 < n {
        return None;
    }
    let name_bytes = copy_range(data, 24, n);
    let init = RfbServerInit {
        width: read_be16(data, 0),
        height: read_be16(data, 2),
        pixel_format: read_pixel_format(data, 4),
        name: string_from_utf8_lossy(name_bytes.as_slice()),
    };
    Some((init, 24 + n))
}

/// What a server is configured with: the framebuffer size, the desktop name, the pixel
/// format and the security types it offers.
#[derive(Debug, Clone)]
pub struct RfbServerConfig {
    pub width: u16,
    pub height: u16,
    pub name: String,
    pub pixel_format: RfbPixelFormat,
    pub security: Vec<RfbSecurityType>,
}

impl Default for RfbServerConfig {
    /// 1024 by 768, `Moonlight RFB`, the default pixel format, no authentication.
    fn default() -> (r: Self)
        ensures
            r.width == 1024,
            r.height == 768,
            r.name@ == "Moonlight RFB"@,
            r.security@ == seq![RfbSecurityType::NoAuth],
    {
        let r = RfbServerConfig {
            width: 1024,
            height: 768,
            name: String::from_str("Moonlight RFB"),
            pixel_format: RfbPixelFormat::default(),
            security: vec![RfbSecurityType::NoAuth],
        };
        assert(r.security@ =~= seq![RfbSecurityType::NoAuth]);
        r
    }
}

/// What a client is configured with: whether it asks to share the desktop.
#[derive(Debug, Clone)]
pub struct RfbClientConfig {
    pub shared: bool,
}

impl Default for RfbClientConfig {
    /// A shared session.
    fn default() -> (r: Self)
        ensures
            r.shared,
    {
        RfbClientConfig { shared: true }
    }
}

/// What a client knows after the handshake.
#[derive(Debug, Clone)]
pub struct RfbClientState {
    pub server_init: RfbServerInit,
}

/// A message from the client.
#[derive(Debug, Clone)]
pub enum RfbClientMessage {
    SetPixelFormat(RfbPixelFormat),
    SetEncodings(Vec<i32>),
    FramebufferUpdateRequest { incremental: bool, x: u16, y: u16, width: u16, height: u16 },
    KeyEvent { down: bool, key: u32 },
    PointerEvent { button_mask: u8, x: u16, y: u16 },
    ClientCutText(String),
    Unknown(u8, Vec<u8>),
}

/// A client message as values.
pub enum ClientMessageModel {
    SetPixelFormat(RfbPixelFormat),
    SetEncodings(Seq<i32>),
    FramebufferUpdateRequest(bool, u16, u16, u16, u16),
    KeyEvent(bool, u32),
    PointerEvent(u8, u16, u16),
    ClientCutText(Seq<char>),
    Unknown(u8, Seq<u8>),
}

impl View for RfbClientMessage {
    type V = ClientMessageModel;

    open spec fn view(&self) -> ClientMessageModel {
        match self {
            RfbClientMessage::SetPixelFormat(p) => ClientMessageModel::SetPixelFormat(*p),
            RfbClientMessage::SetEncodings(v) => ClientMessageModel::SetEncodings(v@),
            RfbClientMessage::FramebufferUpdateRequest { incremental, x, y, width, height } => ClientMessageModel::FramebufferUpdateRequest(
                *incremental,
                *x,
                *y,
                *width,
                *height,
            ),
            RfbClientMessage::KeyEvent { down, key } => ClientMessageModel::KeyEvent(*down, *key),
            RfbClientMessage::PointerEvent { button_mask, x, y } => ClientMessageModel::PointerEvent(*button_mask, *x, *y),
            RfbClientMessage::ClientCutText(t) => ClientMessageModel::ClientCutText(t@),
            RfbClientMessage::Unknown(t, d) => ClientMessageModel::Unknown(*t, d@),
        }
    }
}

/// The 32-bit two's complement value stored big-endian at `i`.
pub open spec fn get_be_i32(d: Seq<u8>, i: int) -> i32 {
    get_be32(d, i) as i32
}

/// The client message at the start of `d` and the bytes it takes; `None` while `d` does
/// not hold all of it. Type 0 sets the pixel format (after three bytes of padding); 2
/// sets encodings (a count after one byte of padding, then 32-bit values); 3 requests an
/// update; 4 is a key event; 5 a pointer event; 6 cut text (a 32-bit length after three
/// bytes of padding); any other type is a one-byte unknown message.
pub open spec fn client_message_at(d: Seq<u8>) -> Option<(ClientMessageModel, int)> {
    if d.len() < 1 {
        None
    } else if d[0] == 0 {
        if d.len() < 20 { None } else { Some((ClientMessageModel::SetPixelFormat(pixel_format_at(d, 4)), 20)) }
    } else if d[0] == 2 {
        if d.len() < 4 || d.len() < 4 + 4 * get_be16(d, 2) {
            None
        } else {
            let n = get_be16(d, 2) as int;
            Some((ClientMessageModel::SetEncodings(Seq::new(n as nat, |k: int| get_be_i32(d, 4 + 4 * k))), 4 + 4 * n))
        }
    } else if d[0] == 3 {
        if d.len() < 10 {
            None
        } else {
            Some(
                (
                    ClientMessageModel::FramebufferUpdateRequest(
                        d[1] != 0,
                        get_be16(d, 2),
                        get_be16(d, 4),
                        get_be16(d, 6),
                        get_be16(d, 8),
                    ),
                    10,
                ),
            )
        }
    } else if d[0] == 4 {
        if d.len() < 8 { None } else { Some((ClientMessageModel::KeyEvent(d[1] != 0, get_be32(d, 4)), 8)) }
    } else if d[0] == 5 {
        if d.len() < 6 {
            None
        } else {
            Some((ClientMessageModel::PointerEvent(d[1], get_be16(d, 2), get_be16(d, 4)), 6))
        }
    } else if d[0] == 6 {
        if d.len() < 8 || d.len() < 8 + get_be32(d, 4) {
            None
        } else {
            let n = get_be32(d, 4) as int;
            Some((ClientMessageModel::ClientCutText(lossy_text(d.subrange(8, 8 + n))), 8 + n))
        }
    } else {
        Some((ClientMessageModel::Unknown(d[0], Seq::empty()), 1))
    }
}

/// Reads a client message from the bytes received so far.
pub fn decode_client_message(data: &[u8]) -> (r: Option<(RfbClientMessage, usize)>)
    ensures
        match r {
            Some((m, n)) => client_message_at(data@) == Some((m@, n as int)),
            None => client_message_at(data@) is None,
        },
{
    if data.len() < 1 {
        return None;
    }
    let t = data[0];
    if t == 0 {
        if data.len() < 20 {
            return None;
        }
        Some((RfbClientMessage::SetPixelFormat(read_pixel_format(data, 4)), 20))
    } else if t == 2 {
        if data.len() < 4 {
            return None;
        }
        let n = read_be16(data, 2) as usize;
        if (data.len() - 4) / 4 < n {
            return None;
        }
        let mut values: Vec<i32> = Vec::new();
        let mut k: usize = 0;
        while k < n
            invariant
                k <= n,
                n == get_be16(data@, 2),
                4 + 4 * n <= data@.len(),
                values@.len() == k,
                forall|j: int| 0 <= j < k ==> values@[j] == #[trigger] get_be_i32(data@, 4 + 4 * j),
            decreases n - k,
        {
            let v = read_be32(data, 4 + 4 * k);
            values.push(v as i32);
            k = k + 1;
        }
        let m = RfbClientMessage::SetEncodings(values);
        assert(values@ =~= Seq::new(n as nat, |j: int| get_be_i32(data@, 4 + 4 * j)));
        Some((m, 4 + 4 * n))
    } else if t == 3 {
        if data.len() < 10 {
            return None;
        }
        Some(
            (
                RfbClientMessage::FramebufferUpdateRequest {
                    incremental: data[1] != 0,
                    x: read_be16(data, 2),
                    y: read_be16(data, 4),
                    width: read_be16(data, 6),
                    height: read_be16(data, 8),
                },
                10,
            ),
        )
    } else if t == 4 {
        if data.len() < 8 {
            return None;
        }
        Some((RfbClientMessage::KeyEvent { down: data[1] != 0, key: read_be32(data, 4) }, 8))
    } else if t == 5 {
        if data.len() < 6 {
            return None;
        }
        Some((RfbClientMessage::PointerEvent { button_mask: data[1], x: read_be16(data, 2), y: read_be16(data, 4) }, 6))
    } else if t == 6 {
        if data.len() < 8 {
            return None;
        }
        let n = read_be32(data, 4) as usize;
        if data.len() - 8 < n {
            return None;
        }
        let text = copy_range(data, 8, n);
        Some((RfbClientMessage::ClientCutText(string_from_utf8_lossy(text.as_slice())), 8 + n))
    } else {
        let empty: Vec<u8> = Vec::new();
        assert(empty@ =~= Seq::<u8>::empty());
        Some((RfbClientMessage::Unknown(t, empty), 1))
    }
}

/// A rectangle of a framebuffer update.
#[derive(Debug, Clone)]
pub struct RfbRectangle {
    pub x: u16,
    pub y: u16,
    pub width: u16,
    pub height: u16,
    pub encoding: i32,
    pub data: Vec<u8>,
}

/// A message from the server.
#[derive(Debug, Clone)]
pub enum RfbServerMessage {
    FramebufferUpdate(Vec<RfbRectangle>),
    Bell,
    ServerCutText(String),
    Unknown(u8, Vec<u8>),
}

/// The bytes of a rectangle: position and size (16 bits each, big-endian), encoding
/// (32 bits), then its data.
pub open spec fn rect_bytes(r: RfbRectangle) -> Seq<u8> {
    be16(r.x) + be16(r.y) + be16(r.width) + be16(r.height) + be32(r.encoding as u32) + r.data@
}

/// The bytes of a framebuffer update: type 0, a padding byte, the rectangle count (16
/// bits, modulo 2^16), then each rectangle.
pub open spec fn update_bytes(rs: Seq<RfbRectangle>) -> Seq<u8> {
    seq![0u8, 0u8] + be16((rs.len() % 65536) as u16) + crate::wire::concat_map(rs, |r: RfbRectangle| rect_bytes(r))
}

/// The bytes of a framebuffer update with these rectangles.
pub fn build_framebuffer_update(rects: Vec<RfbRectangle>) -> (out: Vec<u8>)
    ensures
        out@ == update_bytes(rects@),
{
    let ghost f = |r: RfbRectangle| rect_bytes(r);
    let mut out: Vec<u8> = Vec::new();
    out.push(0);
    out.push(0);
    push_be16(&mut out, (rects.len() % 65536) as u16);
    let ghost head = out@;
    let mut i: usize = 0;
    while i < rects.len()
        invariant
            i <= rects@.len(),
            f == (|r: RfbRectangle| rect_bytes(r)),
            out@ == head + crate::wire::concat_map(rects@.subrange(0, i as int), f),
        decreases rects.len() - i,
    {
        let r = &rects[i];
        push_be16(&mut out, r.x);
        push_be16(&mut out, r.y);
        push_be16(&mut out, r.width);
        push_be16(&mut out, r.height);
        push_be32(&mut out, r.encoding as u32);
        push_bytes(&mut out, r.data.as_slice());
        proof {
            crate::wire::lemma_concat_map_push(rects@.subrange(0, i as int), rects@[i as int], f);
            assert(rects@.subrange(0, i as int).push(rects@[i as int]) == rects@.subrange(0, i + 1));
        }
        i = i + 1;
        assert(out@ =~= head + crate::wire::concat_map(rects@.subrange(0, i as int), f));
    }
    assert(rects@.subrange(0, i as int) == rects@);
    assert(out@ =~= update_bytes(rects@));
    out
}

/// The bytes of a framebuffer update request.
pub fn framebuffer_update_request(incremental: bool, x: u16, y: u16, width: u16, height: u16) -> (out: Vec<u8>)
    ensures
        out@ == seq![3u8, if incremental { 1u8 } else { 0u8 }] + be16(x) + be16(y) + be16(width) + be16(height),
{
    let mut out: Vec<u8> = Vec::new();
    out.push(3);
    out.push(if incremental { 1 } else { 0 });
    push_be16(&mut out, x);
    push_be16(&mut out, y);
    push_be16(&mut out, width);
    push_be16(&mut out, height);
    assert(out@ =~= seq![3u8, if incremental { 1u8 } else { 0u8 }] + be16(x) + be16(y) + be16(width) + be16(height));
    out
}

/// Whether a client's version line is an RFB one: it starts with `RFB`.
pub fn check_client_version(version: [u8; 12]) -> (r: ProtoResult<()>)
    ensures
        r is Ok <==> (version@[0] == 82 && version@[1] == 70 && version@[2] == 66),
        r matches Err(e) ==> e is Parse,
{
    if version[0] == 82 && version[1] == 70 && version[2] == 66 {
        Ok(())
    } else {
        Err(ProtoError::Parse("rfb client version"))
    }
}

/// Whether a server's version line is an RFB one: its text starts with `RFB`.
pub fn check_server_version(version: [u8; 12]) -> (r: ProtoResult<()>)
    ensures
        r is Ok <==> seq_starts_with(lossy_text(version@), "RFB"@),
        r matches Err(e) ==> e is Parse,
{
    proof {
        reveal_strlit("RFB");
    }
    let text = string_from_utf8_lossy(version.as_slice());
    let cs = chars_of(text.as_str());
    let prefix = chars_of("RFB");
    if starts_with_chars(cs.as_slice(), prefix.as_slice()) {
        Ok(())
    } else {
        Err(ProtoError::Parse("rfb version"))
    }
}

/// The security types a server offers: the configured ones, or no authentication when
/// none is configured.
pub open spec fn offered(config: Seq<RfbSecurityType>) -> Seq<RfbSecurityType> {
    if config.len() == 0 { seq![RfbSecurityType::NoAuth] } else { config }
}

/// The bytes of the server's security offer: the count (modulo 256) and each code.
pub fn security_offer(security: &Vec<RfbSecurityType>) -> (out: Vec<u8>)
    ensures
        out@.len() == offered(security@).len() + 1,
        out@[0] == (offered(security@).len() % 256) as u8,
        forall|i: int| 0 <= i < offered(security@).len() ==> out@[i + 1] == security_code(#[trigger] offered(security@)[i]),
{
    let mut types: Vec<RfbSecurityType> = Vec::new();
    if security.len() == 0 {
        types.push(RfbSecurityType::NoAuth);
        assert(types@ =~= offered(security@));
    } else {
        let mut i: usize = 0;
        while i < security.len()
            invariant
                i <= security@.len(),
                types@ == security@.subrange(0, i as int),
            decreases security.len() - i,
        {
            types.push(security[i]);
            i = i + 1;
            assert(types@ =~= security@.subrange(0, i as int));
        }
        assert(types@ =~= offered(security@));
    }
    let mut out: Vec<u8> = Vec::new();
    out.push((types.len() % 256) as u8);
    let mut j: usize = 0;
    while j < types.len()
        invariant
            j <= types@.len(),
            types@ == offered(security@),
            out@.len() == j + 1,
            out@[0] == (types@.len() % 256) as u8,
            forall|k: int| 0 <= k < j ==> out@[k + 1] == security_code(#[trigger] types@[k]),
        decreases types.len() - j,
    {
        let code: u8 = match types[j] {
            RfbSecurityType::NoAuth => 1,
            RfbSecurityType::VncAuth => 2,
        };
        out.push(code);
        j = j + 1;
    }
    out
}

/// The server's answer to the client's choice of security type: success (0, 32 bits) for
/// no authentication, which goes on; for anything else failure (1) with the reason
/// `unsupported security`, which ends the session.
pub fn security_result(selected: u8) -> (r: (Vec<u8>, bool))
    ensures
        selected == 1 ==> r.0@ == be32(0) && r.1,
        selected != 1 ==> r.0@ == be32(1) + be32(20) + encode_utf8("unsupported security"@) && !r.1,
{
    let mut out: Vec<u8> = Vec::new();
    if selected == 1 {
        push_be32(&mut out, 0);
        assert(out@ =~= be32(0));
        return (out, true);
    }
    proof {
        reveal_strlit("unsupported security");
    }
    let reason = utf8_bytes("unsupported security");
    push_be32(&mut out, 1);
    push_be32(&mut out, 20);
    push_bytes(&mut out, reason.as_slice());
    (out, false)
}

/// The init message a server sends.
pub fn server_init_of(config: &RfbServerConfig) -> (i: RfbServerInit)
    ensures
        i.width == config.width,
        i.height == config.height,
        i.pixel_format == config.pixel_format,
        i.name@ == config.name@,
{
    RfbServerInit { width: config.width, height: config.height, pixel_format: config.pixel_format, name: config.name.clone() }
}

/// What the server answers to a client message: an empty framebuffer update for an
/// update request, nothing for anything else.
pub fn reply_to(message: &RfbClientMessage) -> (r: Option<Vec<u8>>)
    ensures
        match message@ {
            ClientMessageModel::FramebufferUpdateRequest(_, _, _, _, _) => r matches Some(b) && b@ == update_bytes(
                Seq::empty(),
            ),
            _ => r is None,
        },
{
    match message {
        RfbClientMessage::FramebufferUpdateRequest { .. } => {
            let rects: Vec<RfbRectangle> = Vec::new();
            let out = build_framebuffer_update(rects);
            proof {
                assert(rects@ =~= Seq::<RfbRectangle>::empty());
            }
            Some(out)
        },
        _ => None,
    }
}

/// The security type a client picks from the server's offer: no authentication, when
/// offered; an error otherwise.
pub fn choose_security(types: &[u8]) -> (r: ProtoResult<u8>)
    ensures
        match r {
            Ok(t) => t == 1 && types@.contains(1u8),
            Err(e) => !types@.contains(1u8) && e == ProtoError::Message("rfb no supported security"),
        },
{
    let mut i: usize = 0;
    while i < types.len()
        invariant
            i <= types@.len(),
            forall|k: int| 0 <= k < i ==> types@[k] != 1,
        decreases types.len() - i,
    {
        if types[i] == 1 {
            assert(types@[i as int] == 1u8);
            return Ok(1);
        }
        i = i + 1;
    }
    Err(ProtoError::Message("rfb no supported security"))
}

/// A rectangle as values: position, size, encoding and data.
pub type RectModel = (u16, u16, u16, u16, i32, Seq<u8>);

/// A rectangle as values.
pub open spec fn rect_model(r: RfbRectangle) -> RectModel {
    (r.x, r.y, r.width, r.height, r.encoding, r.data@)
}

/// `n` rectangles read one after another from `i`: `Short` while the bytes run out,
/// `None` for a rectangle in an encoding other than raw (0), whose data is four bytes per
/// pixel.
pub open spec fn rects_at(d: Seq<u8>, i: int, n: nat) -> Option<Parsed<Seq<RectModel>>>
    decreases n,
{
    if n == 0 {
        Some(Parsed::Done(Seq::empty(), i))
    } else if i + 12 > d.len() {
        Some(Parsed::Short)
    } else if get_be_i32(d, i + 8) != 0 {
        None
    } else {
        let len = get_be16(d, i + 4) * get_be16(d, i + 6) * 4;
        if i + 12 + len > d.len() {
            Some(Parsed::Short)
        } else {
            let r = (get_be16(d, i), get_be16(d, i + 2), get_be16(d, i + 4), get_be16(d, i + 6), 0i32, d.subrange(i + 12, i + 12 + len));
            match rects_at(d, i + 12 + len, (n - 1) as nat) {
                None => None,
                Some(Parsed::Short) => Some(Parsed::Short),
                Some(Parsed::Done(rest, j)) => Some(Parsed::Done(seq![r] + rest, j)),
            }
        }
    }
}

/// A server message as values.
pub enum ServerMessageModel {
    FramebufferUpdate(Seq<RectModel>),
    Bell,
    ServerCutText(Seq<char>),
    Unknown(u8, Seq<u8>),
}

/// A server message as values.
pub open spec fn server_message_model(m: RfbServerMessage) -> ServerMessageModel {
    match m {
        RfbServerMessage::FramebufferUpdate(rs) => ServerMessageModel::FramebufferUpdate(
            rs@.map_values(|r: RfbRectangle| rect_model(r)),
        ),
        RfbServerMessage::Bell => ServerMessageModel::Bell,
        RfbServerMessage::ServerCutText(t) => ServerMessageModel::ServerCutText(t@),
        RfbServerMessage::Unknown(t, d) => ServerMessageModel::Unknown(t, d@),
    }
}

/// The server message at the start of `d`: type 0 is a framebuffer update (a count after
/// a padding byte, then rectangles), 2 a bell, 3 cut text (a 32-bit length after three
/// bytes of padding); any other type is a one-byte unknown message. `Short` while `d`
/// does not hold all of it; `None` when a rectangle's encoding is not raw.
pub open spec fn server_message_at(d: Seq<u8>) -> Option<Parsed<ServerMessageModel>> {
    if d.len() < 1 {
        Some(Parsed::Short)
    } else if d[0] == 0 {
        if d.len() < 4 {
            Some(Parsed::Short)
        } else {
            match rects_at(d, 4, get_be16(d, 2) as nat) {
                None => None,
                Some(Parsed::Short) => Some(Parsed::Short),
                Some(Parsed::Done(rs, j)) => Some(Parsed::Done(ServerMessageModel::FramebufferUpdate(rs), j)),
            }
        }
    } else if d[0] == 2 {
        Some(Parsed::Done(ServerMessageModel::Bell, 1))
    } else if d[0] == 3 {
        if d.len() < 8 || d.len() < 8 + get_be32(d, 4) {
            Some(Parsed::Short)
        } else {
            let n = get_be32(d, 4) as int;
            Some(Parsed::Done(ServerMessageModel::ServerCutText(lossy_text(d.subrange(8, 8 + n))), 8 + n))
        }
    } else {
        Some(Parsed::Done(ServerMessageModel::Unknown(d[0], Seq::empty()), 1))
    }
}

/// Reads a server message from the bytes received so far: the message and the bytes it
/// takes, or `None` while more bytes are needed.
pub fn decode_server_message(data: &[u8]) -> (r: ProtoResult<Option<(RfbServerMessage, usize)>>)
    ensures
        match r {
            Ok(Some((m, n))) => server_message_at(data@) == Some(Parsed::Done(server_message_model(m), n as int)),
            Ok(None) => server_message_at(data@) == Some(Parsed::<ServerMessageModel>::Short),
            Err(e) => server_message_at(data@) is None && e is Parse,
        },
{
    if data.len() < 1 {
        return Ok(None);
    }
    let t = data[0];
    if t == 0 {
        if data.len() < 4 {
            return Ok(None);
        }
        let count = read_be16(data, 2) as usize;
        let mut rects: Vec<RfbRectangle> = Vec::new();
        let mut idx: usize = 4;
        let mut k: usize = 0;
        let ghost start = rects_at(data@, 4, count as nat);
        proof {
            let rv = rects@.map_values(|r: RfbRectangle| rect_model(r));
            assert(rv =~= Seq::<RectModel>::empty());
            assert forall|rest: Seq<RectModel>| #[trigger] (rv + rest) == rest by {
                assert(rv + rest =~= rest);
            }
        }
        while k < count
            invariant
                k <= count,
                count == get_be16(data@, 2),
                data@.len() >= 4,
                data@[0] == 0,
                4 <= idx <= data@.len(),
                start == rects_at(data@, 4, count as nat),
                start == match rects_at(data@, idx as int, (count - k) as nat) {
                    None => None,
                    Some(Parsed::Short) => Some(Parsed::Short),
                    Some(Parsed::Done(rest, j)) => Some(
                        Parsed::Done(rects@.map_values(|r: RfbRectangle| rect_model(r)) + rest, j),
                    ),
                },
            decreases count - k,
        {
            if data.len() - idx < 12 {
                return Ok(None);
            }
            let x = read_be16(data, idx);
            let y = read_be16(data, idx + 2);
            let width = read_be16(data, idx + 4);
            let height = read_be16(data, idx + 6);
            let encoding = read_be32(data, idx + 8) as i32;
            if encoding != 0 {
                return Err(ProtoError::Parse("rfb unsupported encoding"));
            }
            let w64 = width as u64;
            let h64 = height as u64;
            assert(w64 * h64 <= 65535 * 65535) by (nonlinear_arith)
                requires
                    w64 <= 65535,
                    h64 <= 65535,
            ;
            let wh: u64 = w64 * h64;
            let len: u64 = wh * 4;
            if ((data.len() - idx - 12) as u64) < len {
                return Ok(None);
            }
            let len = len as usize;
            let pixels = copy_range(data, idx + 12, len);
            let rect = RfbRectangle { x, y, width, height, encoding, data: pixels };
            proof {
                let rv = rects@.map_values(|r: RfbRectangle| rect_model(r));
                assert(rects@.push(rect).map_values(|r: RfbRectangle| rect_model(r)) =~= rv.push(rect_model(rect)));
                assert forall|rest: Seq<RectModel>| #[trigger] (rv + (seq![rect_model(rect)] + rest)) == rv.push(
                    rect_model(rect),
                ) + rest by {
                    assert(rv + (seq![rect_model(rect)] + rest) =~= rv.push(rect_model(rect)) + rest);
                }
            }
            rects.push(rect);
            idx = idx + 12 + len;
            k = k + 1;
        }
        proof {
            let rv = rects@.map_values(|r: RfbRectangle| rect_model(r));
            assert(rv + Seq::<RectModel>::empty() =~= rv);
        }
        Ok(Some((RfbServerMessage::FramebufferUpdate(rects), idx)))
    } else if t == 2 {
        Ok(Some((RfbServerMessage::Bell, 1)))
    } else if t == 3 {
        if data.len() < 8 {
            return Ok(None);
        }
        let n = read_be32(data, 4) as usize;
        if data.len() - 8 < n {
            return Ok(None);
        }
        let text = copy_range(data, 8, n);
        Ok(Some((RfbServerMessage::ServerCutText(string_from_utf8_lossy(text.as_slice())), 8 + n)))
    } else {
        let empty: Vec<u8> = Vec::new();
        assert(empty@ =~= Seq::<u8>::empty());
        Ok(Some((RfbServerMessage::Unknown(t, empty), 1)))
    }
}

} // verus!
