//! TDS packets, the pre-login and login messages, and the token stream of a response.
use vstd::prelude::*;
use vstd::utf8::encode_utf8;
use crate::error::{ProtoError, ProtoResult};
use crate::text::{lossy_text, string_from_utf8_lossy, utf8_bytes};
use crate::wire::{be16, be32, be64, copy_range, get_be16, get_be32, get_be64, push_be16, push_be32, push_be64, push_bytes, read_be16, read_be32, read_be64};

verus! {

/// The port a TDS server listens on by default.
pub const MSTDS_DEFAULT_PORT: u16 = 1433;

/// The kinds of packet, by their type byte.
#[derive(Debug, Clone, Copy, PartialEq, Eq)]
pub enum TdsMessageType {
    SqlBatch,
    Prelogin,
    Login7,
    Response,
}

/// The type byte of each kind of packet.
pub open spec fn message_type_code(t: TdsMessageType) -> u8 {
    match t {
        TdsMessageType::SqlBatch => 0x01,
        TdsMessageType::Prelogin => 0x12,
        TdsMessageType::Login7 => 0x10,
        TdsMessageType::Response => 0x04,
    }
}

/// The kind of packet a type byte names.
pub open spec fn message_type_of(b: u8) -> Option<TdsMessageType> {
    if b == 0x01 {
        Some(TdsMessageType::SqlBatch)
    } else if b == 0x12 {
        Some(TdsMessageType::Prelogin)
    } else if b == 0x10 {
        Some(TdsMessageType::Login7)
    } else if b == 0x04 {
        Some(TdsMessageType::Response)
    } else {
        None
    }
}

impl TdsMessageType {
    /// The type byte of this kind.
    pub fn code(self) -> (c: u8)
        ensures
            c == message_type_code(self),
    {
        match self {
            TdsMessageType::SqlBatch => 0x01,
            TdsMessageType::Prelogin => 0x12,
            TdsMessageType::Login7 => 0x10,
            TdsMessageType::Response => 0x04,
        }
    }
}

/// The eight-byte packet header.
#[derive(Debug, Clone, Copy, PartialEq, Eq)]
pub struct TdsHeader {
    pub msg_type: TdsMessageType,
    pub status: u8,
    pub length: u16,
    pub spid: u16,
    pub packet_id: u8,
    pub window: u8,
}

/// The bytes of a header.
pub open spec fn header_bytes(h: TdsHeader) -> Seq<u8> {
    seq![message_type_code(h.msg_type), h.status] + be16(h.length) + be16(h.spid) + seq![h.packet_id, h.window]
}

/// The header that `d` starts with.
pub open spec fn header_read(d: Seq<u8>) -> Option<TdsHeader> {
    if d.len() < 8 {
        None
    } else {
        match message_type_of(d[0]) {
            None => None,
            Some(t) => Some(
                TdsHeader {
                    msg_type: t,
                    status: d[1],
                    length: get_be16(d, 2),
                    spid: get_be16(d, 4),
                    packet_id: d[6],
                    window: d[7],
                },
            ),
        }
    }
}

impl TdsHeader {
    /// The eight bytes of the header.
    pub fn encode(&self) -> (r: [u8; 8])
        ensures
            r@ == header_bytes(*self),
    {
        let t = self.msg_type.code();
        let r = [
            t,
            self.status,
            (self.length / 256) as u8,
            (self.length % 256) as u8,
            (self.spid / 256) as u8,
            (self.spid % 256) as u8,
            self.packet_id,
            self.window,
        ];
        assert(r@ =~= header_bytes(*self));
        r
    }

    /// The header that `data` starts with; an unknown type byte is an error.
    pub fn decode(data: &[u8]) -> (r: ProtoResult<TdsHeader>)
        ensures
            r is Ok <==> header_read(data@) is Some,
            r matches Ok(h) ==> header_read(data@) == Some(h),
    {
        if data.len() < 8 {
            return Err(ProtoError::Parse("tds header too short"));
        }
        let msg_type = if data[0] == 0x01 {
            TdsMessageType::SqlBatch
        } else if data[0] == 0x12 {
            TdsMessageType::Prelogin
        } else if data[0] == 0x10 {
            TdsMessageType::Login7
        } else if data[0] == 0x04 {
            TdsMessageType::Response
        } else {
            return Err(ProtoError::Parse("tds unknown message type"));
        };
        Ok(
            TdsHeader {
                msg_type,
                status: data[1],
                length: read_be16(data, 2),
                spid: read_be16(data, 4),
                packet_id: data[6],
                window: data[7],
            },
        )
    }
}

/// A packet: a header and the payload after it.
#[derive(Debug, Clone)]
pub struct TdsPacket {
    pub header: TdsHeader,
    pub payload: Vec<u8>,
}

/// The packet that `d` holds: the header, then the payload up to the length the header gives.
pub open spec fn packet_read(d: Seq<u8>) -> Option<(TdsHeader, Seq<u8>)> {
    match header_read(d) {
        None => None,
        Some(h) => if d.len() < h.length {
            None
        } else {
            Some((h, d.subrange(8, h.length as int)))
        },
    }
}

impl TdsPacket {
    /// The header's bytes, then the payload.
    pub fn encode(&self) -> (r: Vec<u8>)
        ensures
            r@ == header_bytes(self.header) + self.payload@,
    {
        let mut out: Vec<u8> = Vec::new();
        let h = self.header.encode();
        push_bytes(&mut out, &h);
        push_bytes(&mut out, self.payload.as_slice());
        out
    }

    /// The packet that `data` holds; a header whose length is under 8 is not accepted.
    pub fn decode(data: &[u8]) -> (r: ProtoResult<TdsPacket>)
        requires
            header_read(data@) matches Some(h) ==> h.length >= 8 || data.len() < h.length,
        ensures
            r is Ok <==> packet_read(data@) is Some,
            r matches Ok(p) ==> packet_read(data@) == Some((p.header, p.payload@)),
    {
        let header = TdsHeader::decode(data)?;
        let len = header.length as usize;
        if data.len() < len {
            return Err(ProtoError::Parse("tds packet length"));
        }
        let payload = copy_range(data, 8, len - 8);
        Ok(TdsPacket { header, payload })
    }
}

/// The packet that carries `payload` of kind `msg_type`: status 1, the length of the whole
/// packet cut to 16 bits, session 0, window 0.
pub open spec fn outgoing_header(msg_type: TdsMessageType, len: nat, packet_id: u8) -> TdsHeader {
    TdsHeader { msg_type, status: 0x01, length: ((len + 8) % 65536) as u16, spid: 0, packet_id, window: 0 }
}

/// The packet that carries `payload` of kind `msg_type`.
pub fn make_packet(msg_type: TdsMessageType, payload: Vec<u8>, packet_id: u8) -> (p: TdsPacket)
    ensures
        p.header == outgoing_header(msg_type, payload@.len(), packet_id),
        p.payload@ == payload@,
{
    let length = ((payload.len() % 65536 + 8) % 65536) as u16;
    let header = TdsHeader { msg_type, status: 0x01, length, spid: 0, packet_id, window: 0 };
    TdsPacket { header, payload }
}

// ---------------------------------------------------------------------------
// Pre-login and login
// ---------------------------------------------------------------------------

/// The pre-login message: a version and an encryption choice.
#[derive(Debug, Clone)]
pub struct PreloginInfo {
    pub version: u32,
    pub encryption: u8,
}

/// The pre-login message that `d` starts with.
pub open spec fn prelogin_read(d: Seq<u8>) -> Option<(u32, u8)> {
    if d.len() < 5 {
        None
    } else {
        Some((get_be32(d, 0), d[4]))
    }
}

impl PreloginInfo {
    /// The version, big-endian, then the encryption byte.
    pub fn encode(&self) -> (r: Vec<u8>)
        ensures
            r@ == be32(self.version).push(self.encryption),
    {
        let mut out: Vec<u8> = Vec::new();
        push_be32(&mut out, self.version);
        out.push(self.encryption);
        out
    }

    /// The pre-login message that `data` starts with.
    pub fn decode(data: &[u8]) -> (r: ProtoResult<PreloginInfo>)
        ensures
            r is Ok <==> prelogin_read(data@) is Some,
            r matches Ok(p) ==> prelogin_read(data@) == Some((p.version, p.encryption)),
    {
        if data.len() < 5 {
            return Err(ProtoError::Parse("tds prelogin len"));
        }
        Ok(PreloginInfo { version: read_be32(data, 0), encryption: data[4] })
    }
}

/// A string on the wire: its UTF-8 length in 16 bits (cut to 16 bits), then its bytes.
pub open spec fn tds_text(s: Seq<char>) -> Seq<u8> {
    be16((encode_utf8(s).len() % 65536) as u16) + encode_utf8(s)
}

/// Reads a string at `i`: its characters and the position after it.
pub open spec fn text_read(d: Seq<u8>, i: int) -> Option<(Seq<char>, int)> {
    if i < 0 || i + 2 > d.len() {
        None
    } else {
        let n = get_be16(d, i) as int;
        if i + 2 + n > d.len() {
            None
        } else {
            Some((lossy_text(d.subrange(i + 2, i + 2 + n)), i + 2 + n))
        }
    }
}

/// The login message: user name, password and database.
#[derive(Debug, Clone)]
pub struct Login7 {
    pub username: String,
    pub password: String,
    pub database: String,
}

/// The login message that `d` starts with.
pub open spec fn login_read(d: Seq<u8>) -> Option<(Seq<char>, Seq<char>, Seq<char>)> {
    match text_read(d, 0) {
        None => None,
        Some((u, i)) => match text_read(d, i) {
            None => None,
            Some((p, j)) => match text_read(d, j) {
                None => None,
                Some((db, _)) => Some((u, p, db)),
            },
        },
    }
}

fn push_text(out: &mut Vec<u8>, s: &str)
    ensures
        final(out)@ == old(out)@ + tds_text(s@),
{
    let bytes = utf8_bytes(s);
    push_be16(out, (bytes.len() % 65536) as u16);
    push_bytes(out, bytes.as_slice());
}

fn read_text(d: &[u8], i: usize) -> (r: ProtoResult<(String, usize)>)
    ensures
        r is Ok <==> text_read(d@, i as int) is Some,
        r matches Ok((t, j)) ==> text_read(d@, i as int) == Some((t@, j as int)),
{
    if i > d.len() || d.len() - i < 2 {
        return Err(ProtoError::Parse("tds string len"));
    }
    let n = read_be16(d, i) as usize;
    if d.len() - i - 2 < n {
        return Err(ProtoError::Parse("tds string bounds"));
    }
    let raw = copy_range(d, i + 2, n);
    Ok((string_from_utf8_lossy(raw.as_slice()), i + 2 + n))
}

impl Login7 {
    /// The three strings, one after the other.
    pub fn encode(&self) -> (r: Vec<u8>)
        ensures
            r@ == tds_text(self.username@) + tds_text(self.password@) + tds_text(self.database@),
    {
        let mut out: Vec<u8> = Vec::new();
        push_text(&mut out, self.username.as_str());
        push_text(&mut out, self.password.as_str());
        push_text(&mut out, self.database.as_str());
        out
    }

    /// The login message that `data` starts with.
    pub fn decode(data: &[u8]) -> (r: ProtoResult<Login7>)
        ensures
            r is Ok <==> login_read(data@) is Some,
            r matches Ok(l) ==> login_read(data@) == Some((l.username@, l.password@, l.database@)),
    {
        let (username, i) = read_text(data, 0)?;
        let (password, j) = read_text(data, i)?;
        let (database, _) = read_text(data, j)?;
        Ok(Login7 { username, password, database })
    }
}

// ---------------------------------------------------------------------------
// Tokens
// ---------------------------------------------------------------------------

/// A token of a response.
#[derive(Debug, Clone)]
pub enum TdsToken {
    ColumnMetadata(Vec<String>),
    Row(Vec<Option<Vec<u8>>>),
    Done { row_count: u64 },
    Error(String),
}

/// A token as a value.
pub enum TokenModel {
    ColumnMetadata(Seq<Seq<char>>),
    Row(Seq<Option<Seq<u8>>>),
    Done(u64),
    Error(Seq<char>),
}

/// The bytes of an optional value.
pub open spec fn opt_bytes(v: Option<Vec<u8>>) -> Option<Seq<u8>> {
    match v {
        Some(b) => Some(b@),
        None => None,
    }
}

/// The column names of a list, as characters.
pub open spec fn names_view(cs: Seq<String>) -> Seq<Seq<char>> {
    cs.map_values(|c: String| c@)
}

/// The values of a row, as byte sequences.
pub open spec fn values_view(vs: Seq<Option<Vec<u8>>>) -> Seq<Option<Seq<u8>>> {
    vs.map_values(|v: Option<Vec<u8>>| opt_bytes(v))
}

impl View for TdsToken {
    type V = TokenModel;

    open spec fn view(&self) -> TokenModel {
        match self {
            TdsToken::ColumnMetadata(cs) => TokenModel::ColumnMetadata(names_view(cs@)),
            TdsToken::Row(vs) => TokenModel::Row(values_view(vs@)),
            TdsToken::Done { row_count } => TokenModel::Done(*row_count),
            TdsToken::Error(m) => TokenModel::Error(m@),
        }
    }
}

/// The tokens of a list, as values.
pub open spec fn tokens_view(ts: Seq<TdsToken>) -> Seq<TokenModel> {
    ts.map_values(|t: TdsToken| t@)
}

/// A column name on the wire: its UTF-8 length in one byte (cut to 8 bits), then its bytes.
pub open spec fn name_bytes(c: Seq<char>) -> Seq<u8> {
    seq![(encode_utf8(c).len() % 256) as u8] + encode_utf8(c)
}

/// The column names, one after the other.
pub open spec fn names_bytes(cs: Seq<Seq<char>>) -> Seq<u8>
    decreases cs.len(),
{
    if cs.len() == 0 {
        Seq::empty()
    } else {
        names_bytes(cs.drop_last()) + name_bytes(cs.last())
    }
}

/// A value on the wire: its length in 16 bits (cut to 16 bits), then its bytes; a missing
/// value is the length 0xFFFF alone.
pub open spec fn value_bytes(v: Option<Seq<u8>>) -> Seq<u8> {
    match v {
        Some(b) => be16((b.len() % 65536) as u16) + b,
        None => seq![0xFFu8, 0xFF],
    }
}

/// The values of a row, one after the other.
pub open spec fn values_bytes(vs: Seq<Option<Seq<u8>>>) -> Seq<u8>
    decreases vs.len(),
{
    if vs.len() == 0 {
        Seq::empty()
    } else {
        values_bytes(vs.drop_last()) + value_bytes(vs.last())
    }
}

/// The bytes of a token: its kind byte, then its content.
pub open spec fn token_bytes(t: TokenModel) -> Seq<u8> {
    match t {
        TokenModel::ColumnMetadata(cs) => seq![0x81u8] + be16((cs.len() % 65536) as u16) + names_bytes(cs),
        TokenModel::Row(vs) => seq![0xD1u8] + be16((vs.len() % 65536) as u16) + values_bytes(vs),
        TokenModel::Done(n) => seq![0xFDu8] + be64(n),
        TokenModel::Error(m) => seq![0xAAu8] + tds_text(m),
    }
}

/// The tokens, one after the other.
pub open spec fn tokens_bytes(ts: Seq<TokenModel>) -> Seq<u8>
    decreases ts.len(),
{
    if ts.len() == 0 {
        Seq::empty()
    } else {
        tokens_bytes(ts.drop_last()) + token_bytes(ts.last())
    }
}

/// Reads `n` column names from `i` on.
pub open spec fn names_read(d: Seq<u8>, i: int, n: nat) -> Option<(Seq<Seq<char>>, int)>
    decreases n,
{
    if n == 0 {
        Some((Seq::empty(), i))
    } else if i < 0 || i >= d.len() {
        None
    } else {
        let l = d[i] as int;
        if i + 1 + l > d.len() {
            None
        } else {
            match names_read(d, i + 1 + l, (n - 1) as nat) {
                None => None,
                Some((rest, k)) => Some((seq![lossy_text(d.subrange(i + 1, i + 1 + l))] + rest, k)),
            }
        }
    }
}

/// Reads `n` row values from `i` on.
pub open spec fn values_read(d: Seq<u8>, i: int, n: nat) -> Option<(Seq<Option<Seq<u8>>>, int)>
    decreases n,
{
    if n == 0 {
        Some((Seq::empty(), i))
    } else if i < 0 || i + 2 > d.len() {
        None
    } else {
        let l = get_be16(d, i) as int;
        if l == 0xFFFF {
            match values_read(d, i + 2, (n - 1) as nat) {
                None => None,
                Some((rest, k)) => Some((seq![None::<Seq<u8>>] + rest, k)),
            }
        } else if i + 2 + l > d.len() {
            None
        } else {
            match values_read(d, i + 2 + l, (n - 1) as nat) {
                None => None,
                Some((rest, k)) => Some((seq![Some(d.subrange(i + 2, i + 2 + l))] + rest, k)),
            }
        }
    }
}

/// Reads the token at `i`: the token and the position after it.
pub open spec fn token_read(d: Seq<u8>, i: int) -> Option<(TokenModel, int)> {
    if i < 0 || i >= d.len() {
        None
    } else {
        let kind = d[i];
        let j = i + 1;
        if kind == 0x81 {
            if j + 2 > d.len() {
                None
            } else {
                match names_read(d, j + 2, get_be16(d, j) as nat) {
                    None => None,
                    Some((cs, k)) => Some((TokenModel::ColumnMetadata(cs), k)),
                }
            }
        } else if kind == 0xD1 {
            if j + 2 > d.len() {
                None
            } else {
                match values_read(d, j + 2, get_be16(d, j) as nat) {
                    None => None,
                    Some((vs, k)) => Some((TokenModel::Row(vs), k)),
                }
            }
        } else if kind == 0xFD {
            if j + 8 > d.len() {
                None
            } else {
                Some((TokenModel::Done(get_be64(d, j)), j + 8))
            }
        } else if kind == 0xAA {
            match text_read(d, j) {
                None => None,
                Some((m, k)) => Some((TokenModel::Error(m), k)),
            }
        } else {
            None
        }
    }
}

/// Reads tokens from `i` to the end.
pub open spec fn tokens_read(d: Seq<u8>, i: int) -> Option<Seq<TokenModel>>
    decreases d.len() - i,
{
    if i < 0 || i >= d.len() {
        Some(Seq::empty())
    } else {
        match token_read(d, i) {
            None => None,
            Some((t, k)) => if k <= i || k > d.len() {
                None
            } else {
                match tokens_read(d, k) {
                    None => None,
                    Some(rest) => Some(seq![t] + rest),
                }
            },
        }
    }
}

/// `r` with `done` in front of its items.
pub open spec fn prepend_names(done: Seq<Seq<char>>, r: Option<(Seq<Seq<char>>, int)>) -> Option<(Seq<Seq<char>>, int)> {
    match r {
        Some((rest, k)) => Some((done + rest, k)),
        None => None,
    }
}

/// `r` with `done` in front of its items.
pub open spec fn prepend_values(done: Seq<Option<Seq<u8>>>, r: Option<(Seq<Option<Seq<u8>>>, int)>) -> Option<
    (Seq<Option<Seq<u8>>>, int),
> {
    match r {
        Some((rest, k)) => Some((done + rest, k)),
        None => None,
    }
}

impl TdsToken {
    /// The bytes of the token.
    pub fn encode(&self) -> (r: Vec<u8>)
        ensures
            r@ == token_bytes(self@),
    {
        let mut out: Vec<u8> = Vec::new();
        match self {
            TdsToken::ColumnMetadata(columns) => {
                out.push(0x81);
                push_be16(&mut out, (columns.len() % 65536) as u16);
                let ghost head = out@;
                let mut i: usize = 0;
                while i < columns.len()
                    invariant
                        i <= columns.len(),
                        out@ == head + names_bytes(names_view(columns@.subrange(0, i as int))),
                    decreases columns.len() - i,
                {
                    let b = utf8_bytes(columns[i].as_str());
                    out.push((b.len() % 256) as u8);
                    push_bytes(&mut out, b.as_slice());
                    proof {
                        let v = names_view(columns@.subrange(0, i + 1));
                        assert(v.drop_last() =~= names_view(columns@.subrange(0, i as int)));
                        assert(v.last() == columns@[i as int]@);
                    }
                    i = i + 1;
                }
                assert(columns@.subrange(0, i as int) =~= columns@);
            },
            TdsToken::Row(values) => {
                out.push(0xD1);
                push_be16(&mut out, (values.len() % 65536) as u16);
                let ghost head = out@;
                let mut i: usize = 0;
                while i < values.len()
                    invariant
                        i <= values.len(),
                        out@ == head + values_bytes(values_view(values@.subrange(0, i as int))),
                    decreases values.len() - i,
                {
                    match &values[i] {
                        Some(bytes) => {
                            push_be16(&mut out, (bytes.len() % 65536) as u16);
                            push_bytes(&mut out, bytes.as_slice());
                        },
                        None => {
                            out.push(0xFF);
                            out.push(0xFF);
                        },
                    }
                    proof {
                        let v = values_view(values@.subrange(0, i + 1));
                        assert(v.drop_last() =~= values_view(values@.subrange(0, i as int)));
                        assert(v.last() == opt_bytes(values@[i as int]));
                    }
                    i = i + 1;
                }
                assert(values@.subrange(0, i as int) =~= values@);
            },
            TdsToken::Done { row_count } => {
                out.push(0xFD);
                push_be64(&mut out, *row_count);
            },
            TdsToken::Error(message) => {
                out.push(0xAA);
                push_text(&mut out, message.as_str());
            },
        }
        out
    }

    fn decode_names(data: &[u8], start: usize, count: usize) -> (r: ProtoResult<(Vec<String>, usize)>)
        ensures
            r is Ok <==> names_read(data@, start as int, count as nat) is Some,
            r matches Ok((cs, k)) ==> names_read(data@, start as int, count as nat) == Some(
                (names_view(cs@), k as int),
            ),
    {
        let mut cols: Vec<String> = Vec::new();
        let mut idx = start;
        let mut c: usize = 0;
        assert(names_view(cols@) =~= Seq::<Seq<char>>::empty());
        assert(forall|x: Seq<Seq<char>>| Seq::<Seq<char>>::empty() + x =~= x);
        while c < count
            invariant
                c <= count,
                names_read(data@, start as int, count as nat) == prepend_names(
                    names_view(cols@),
                    names_read(data@, idx as int, (count - c) as nat),
                ),
            decreases count - c,
        {
            if idx >= data.len() {
                return Err(ProtoError::Parse("tds column name"));
            }
            let len = data[idx] as usize;
            if data.len() - idx - 1 < len {
                return Err(ProtoError::Parse("tds column name bounds"));
            }
            let raw = copy_range(data, idx + 1, len);
            let name = string_from_utf8_lossy(raw.as_slice());
            let ghost before = names_view(cols@);
            let ghost nv = name@;
            cols.push(name);
            proof {
                assert(names_view(cols@) =~= before.push(nv));
                match names_read(data@, idx + 1 + len, (count - c - 1) as nat) {
                    Some((rest, k)) => {
                        assert(before + (seq![nv] + rest) =~= before.push(nv) + rest);
                    },
                    None => {},
                }
            }
            idx = idx + 1 + len;
            c = c + 1;
        }
        assert(names_view(cols@) + Seq::<Seq<char>>::empty() =~= names_view(cols@));
        Ok((cols, idx))
    }

    fn decode_values(data: &[u8], start: usize, count: usize) -> (r: ProtoResult<(Vec<Option<Vec<u8>>>, usize)>)
        ensures
            r is Ok <==> values_read(data@, start as int, count as nat) is Some,
            r matches Ok((vs, k)) ==> values_read(data@, start as int, count as nat) == Some(
                (values_view(vs@), k as int),
            ),
    {
        let mut values: Vec<Option<Vec<u8>>> = Vec::new();
        let mut idx = start;
        let mut c: usize = 0;
        assert(values_view(values@) =~= Seq::<Option<Seq<u8>>>::empty());
        assert(forall|x: Seq<Option<Seq<u8>>>| Seq::<Option<Seq<u8>>>::empty() + x =~= x);
        while c < count
            invariant
                c <= count,
                values_read(data@, start as int, count as nat) == prepend_values(
                    values_view(values@),
                    values_read(data@, idx as int, (count - c) as nat),
                ),
            decreases count - c,
        {
            if idx > data.len() || data.len() - idx < 2 {
                return Err(ProtoError::Parse("tds row value len"));
            }
            let len = read_be16(data, idx);
            let ghost before = values_view(values@);
            if len == 0xFFFF {
                values.push(None);
                proof {
                    assert(values_view(values@) =~= before.push(None));
                    match values_read(data@, idx + 2, (count - c - 1) as nat) {
                        Some((rest, k)) => {
                            assert(before + (seq![None::<Seq<u8>>] + rest) =~= before.push(None) + rest);
                        },
                        None => {},
                    }
                }
                idx = idx + 2;
            } else {
                let l = len as usize;
                if data.len() - idx - 2 < l {
                    return Err(ProtoError::Parse("tds row value"));
                }
                let v = copy_range(data, idx + 2, l);
                let ghost vv = v@;
                values.push(Some(v));
                proof {
                    assert(values_view(values@) =~= before.push(Some(vv)));
                    match values_read(data@, idx + 2 + l, (count - c - 1) as nat) {
                        Some((rest, k)) => {
                            assert(before + (seq![Some(vv)] + rest) =~= before.push(Some(vv)) + rest);
                        },
                        None => {},
                    }
                }
                idx = idx + 2 + l;
            }
            c = c + 1;
        }
        assert(values_view(values@) + Seq::<Option<Seq<u8>>>::empty() =~= values_view(values@));
        Ok((values, idx))
    }

    /// Reads the token at `*idx` and moves `*idx` past it.
    pub fn decode(data: &[u8], idx: &mut usize) -> (r: ProtoResult<TdsToken>)
        ensures
            r is Ok <==> token_read(data@, *old(idx) as int) is Some,
            r matches Ok(t) ==> token_read(data@, *old(idx) as int) == Some((t@, *final(idx) as int)),
    {
        if *idx >= data.len() {
            return Err(ProtoError::Parse("tds token eof"));
        }
        let kind = data[*idx];
        let j = *idx + 1;
        if kind == 0x81 {
            if data.len() - j < 2 {
                return Err(ProtoError::Parse("tds columns len"));
            }
            let count = read_be16(data, j) as usize;
            let (cols, k) = Self::decode_names(data, j + 2, count)?;
            *idx = k;
            Ok(TdsToken::ColumnMetadata(cols))
        } else if kind == 0xD1 {
            if data.len() - j < 2 {
                return Err(ProtoError::Parse("tds row count"));
            }
            let count = read_be16(data, j) as usize;
            let (values, k) = Self::decode_values(data, j + 2, count)?;
            *idx = k;
            Ok(TdsToken::Row(values))
        } else if kind == 0xFD {
            if data.len() - j < 8 {
                return Err(ProtoError::Parse("tds done"));
            }
            let row_count = read_be64(data, j);
            *idx = j + 8;
            Ok(TdsToken::Done { row_count })
        } else if kind == 0xAA {
            if data.len() - j < 2 {
                return Err(ProtoError::Parse("tds error len"));
            }
            let n = read_be16(data, j) as usize;
            if data.len() - j - 2 < n {
                return Err(ProtoError::Parse("tds error"));
            }
            let raw = copy_range(data, j + 2, n);
            let message = string_from_utf8_lossy(raw.as_slice());
            *idx = j + 2 + n;
            Ok(TdsToken::Error(message))
        } else {
            Err(ProtoError::Parse("tds token unknown"))
        }
    }
}

/// A response: its tokens, in order.
#[derive(Debug, Clone)]
pub struct TdsResponse {
    pub tokens: Vec<TdsToken>,
}

proof fn lemma_names_read_advances(d: Seq<u8>, i: int, n: nat)
    ensures
        names_read(d, i, n) matches Some((_, k)) ==> k >= i,
    decreases n,
{
    if n > 0 && 0 <= i < d.len() {
        lemma_names_read_advances(d, i + 1 + d[i] as int, (n - 1) as nat);
    }
}

proof fn lemma_values_read_advances(d: Seq<u8>, i: int, n: nat)
    ensures
        values_read(d, i, n) matches Some((_, k)) ==> k >= i,
    decreases n,
{
    if n > 0 && 0 <= i && i + 2 <= d.len() {
        let l = get_be16(d, i) as int;
        if l == 0xFFFF {
            lemma_values_read_advances(d, i + 2, (n - 1) as nat);
        } else {
            lemma_values_read_advances(d, i + 2 + l, (n - 1) as nat);
        }
    }
}

/// Every token that is read takes at least one byte.
pub proof fn lemma_token_read_advances(d: Seq<u8>, i: int)
    ensures
        token_read(d, i) matches Some((_, k)) ==> i < k <= d.len(),
{
    if 0 <= i < d.len() && i + 3 <= d.len() {
        lemma_names_read_advances(d, i + 3, get_be16(d, i + 1) as nat);
        lemma_values_read_advances(d, i + 3, get_be16(d, i + 1) as nat);
        lemma_names_read_bound(d, i + 3, get_be16(d, i + 1) as nat);
        lemma_values_read_bound(d, i + 3, get_be16(d, i + 1) as nat);
    }
}

proof fn lemma_names_read_bound(d: Seq<u8>, i: int, n: nat)
    requires
        i <= d.len(),
    ensures
        names_read(d, i, n) matches Some((_, k)) ==> k <= d.len(),
    decreases n,
{
    if n > 0 && 0 <= i < d.len() && i + 1 + d[i] as int <= d.len() {
        lemma_names_read_bound(d, i + 1 + d[i] as int, (n - 1) as nat);
    }
}

proof fn lemma_values_read_bound(d: Seq<u8>, i: int, n: nat)
    requires
        i <= d.len(),
    ensures
        values_read(d, i, n) matches Some((_, k)) ==> k <= d.len(),
    decreases n,
{
    if n > 0 && 0 <= i && i + 2 <= d.len() {
        let l = get_be16(d, i) as int;
        if l == 0xFFFF {
            lemma_values_read_bound(d, i + 2, (n - 1) as nat);
        } else if i + 2 + l <= d.len() {
            lemma_values_read_bound(d, i + 2 + l, (n - 1) as nat);
        }
    }
}

/// `r` with `done` in front of its items.
pub open spec fn prepend_tokens(done: Seq<TokenModel>, r: Option<Seq<TokenModel>>) -> Option<Seq<TokenModel>> {
    match r {
        Some(rest) => Some(done + rest),
        None => None,
    }
}

impl TdsResponse {
    /// The tokens' bytes, one after the other.
    pub fn encode(&self) -> (r: Vec<u8>)
        ensures
            r@ == tokens_bytes(tokens_view(self.tokens@)),
    {
        let mut out: Vec<u8> = Vec::new();
        let mut i: usize = 0;
        while i < self.tokens.len()
            invariant
                i <= self.tokens.len(),
                out@ == tokens_bytes(tokens_view(self.tokens@.subrange(0, i as int))),
            decreases self.tokens.len() - i,
        {
            let b = self.tokens[i].encode();
            push_bytes(&mut out, b.as_slice());
            proof {
                let v = tokens_view(self.tokens@.subrange(0, i + 1));
                assert(v.drop_last() =~= tokens_view(self.tokens@.subrange(0, i as int)));
                assert(v.last() == self.tokens@[i as int]@);
            }
            i = i + 1;
        }
        assert(self.tokens@.subrange(0, i as int) =~= self.tokens@);
        out
    }

    /// The tokens that `data` holds, up to its end.
    pub fn decode(data: &[u8]) -> (r: ProtoResult<TdsResponse>)
        ensures
            r is Ok <==> tokens_read(data@, 0) is Some,
            r matches Ok(resp) ==> tokens_read(data@, 0) == Some(tokens_view(resp.tokens@)),
    {
        let mut idx: usize = 0;
        let mut tokens: Vec<TdsToken> = Vec::new();
        assert(tokens_view(tokens@) + tokens_read(data@, 0)->0 =~= tokens_read(data@, 0)->0);
        while idx < data.len()
            invariant
                idx <= data.len(),
                tokens_read(data@, 0) == prepend_tokens(tokens_view(tokens@), tokens_read(data@, idx as int)),
            decreases data.len() - idx,
        {
            let ghost at = idx as int;
            proof {
                lemma_token_read_advances(data@, at);
            }
            let t = match TdsToken::decode(data, &mut idx) {
                Ok(t) => t,
                Err(e) => {
                    return Err(e);
                },
            };
            let ghost before = tokens_view(tokens@);
            let ghost tv = t@;
            tokens.push(t);
            proof {
                assert(tokens_view(tokens@) =~= before.push(tv));
                match tokens_read(data@, idx as int) {
                    Some(rest) => {
                        assert(before + (seq![tv] + rest) =~= before.push(tv) + rest);
                    },
                    None => {},
                }
            }
        }
        assert(tokens_view(tokens@) + Seq::<TokenModel>::empty() =~= tokens_view(tokens@));
        Ok(TdsResponse { tokens })
    }
}

} // verus!
