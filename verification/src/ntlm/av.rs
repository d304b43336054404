//! NTLM building blocks: flags, the version field, security buffers, strings and AV pairs.
use vstd::prelude::*;
use vstd::utf8::{encode_utf8, valid_utf8, decode_utf8};
use crate::error::{ProtoError, ProtoResult};
use crate::text::{utf16le, utf16le_decode, utf16le_bytes, decode_utf16le, utf8_bytes, lossy_text, string_from_utf8_lossy};
use crate::wire::{le16, le32, le64, get_le16, get_le32, get_le64, push_le16, push_le32, push_le64, push_bytes, read_le16, read_le32, read_le64, copy_range, concat_map, lemma_concat_map_push};

verus! {

pub const NEGOTIATE_UNICODE: u32 = 0x0000_0001;
pub const NEGOTIATE_OEM: u32 = 0x0000_0002;
pub const REQUEST_TARGET: u32 = 0x0000_0004;
pub const NEGOTIATE_SIGN: u32 = 0x0000_0010;
pub const NEGOTIATE_SEAL: u32 = 0x0000_0020;
pub const NEGOTIATE_DATAGRAM: u32 = 0x0000_0040;
pub const NEGOTIATE_LM_KEY: u32 = 0x0000_0080;
pub const NEGOTIATE_NTLM: u32 = 0x0000_0200;
pub const NEGOTIATE_OEM_DOMAIN_SUPPLIED: u32 = 0x0000_1000;
pub const NEGOTIATE_OEM_WORKSTATION_SUPPLIED: u32 = 0x0000_2000;
pub const NEGOTIATE_ALWAYS_SIGN: u32 = 0x0000_8000;
pub const TARGET_TYPE_DOMAIN: u32 = 0x0001_0000;
pub const TARGET_TYPE_SERVER: u32 = 0x0002_0000;
pub const NEGOTIATE_EXTENDED_SESSIONSECURITY: u32 = 0x0008_0000;
pub const NEGOTIATE_TARGET_INFO: u32 = 0x0080_0000;
pub const NEGOTIATE_VERSION: u32 = 0x0200_0000;
pub const NEGOTIATE_128: u32 = 0x2000_0000;
pub const NEGOTIATE_KEY_EXCH: u32 = 0x4000_0000;
pub const NEGOTIATE_56: u32 = 0x8000_0000;

/// The flags a client offers unless configured otherwise.
pub open spec fn default_flags_spec() -> u32 {
    NEGOTIATE_UNICODE | NEGOTIATE_OEM | REQUEST_TARGET | NEGOTIATE_SIGN | NEGOTIATE_SEAL
        | NEGOTIATE_NTLM | NEGOTIATE_ALWAYS_SIGN | NEGOTIATE_EXTENDED_SESSIONSECURITY
        | NEGOTIATE_TARGET_INFO | NEGOTIATE_VERSION | NEGOTIATE_128 | NEGOTIATE_56
}

/// The flags a client offers unless configured otherwise.
pub fn default_flags() -> (r: u32)
    ensures
        r == default_flags_spec(),
{
    NEGOTIATE_UNICODE | NEGOTIATE_OEM | REQUEST_TARGET | NEGOTIATE_SIGN | NEGOTIATE_SEAL
        | NEGOTIATE_NTLM | NEGOTIATE_ALWAYS_SIGN | NEGOTIATE_EXTENDED_SESSIONSECURITY
        | NEGOTIATE_TARGET_INFO | NEGOTIATE_VERSION | NEGOTIATE_128 | NEGOTIATE_56
}

/// The flags both sides agree on; OEM strings when Unicode is not agreed.
pub open spec fn merge_flags_spec(client: u32, server: u32) -> u32 {
    let flags = client & server;
    if flags & NEGOTIATE_UNICODE == 0 { flags | NEGOTIATE_OEM } else { flags }
}

/// Merges the flags of both sides.
pub fn merge_flags(client: u32, server: u32) -> (r: u32)
    ensures
        r == merge_flags_spec(client, server),
{
    let flags = client & server;
    if flags & NEGOTIATE_UNICODE == 0 { flags | NEGOTIATE_OEM } else { flags }
}

/// The signature that starts every NTLM message.
pub open spec fn signature() -> Seq<u8> {
    seq![0x4eu8, 0x54, 0x4c, 0x4d, 0x53, 0x53, 0x50, 0x00]
}

pub fn push_signature(out: &mut Vec<u8>)
    ensures
        final(out)@ == old(out)@ + signature(),
{
    let ghost start = out@;
    out.push(0x4e);
    out.push(0x54);
    out.push(0x4c);
    out.push(0x4d);
    out.push(0x53);
    out.push(0x53);
    out.push(0x50);
    out.push(0x00);
    assert(out@ =~= start + signature());
}

/// Whether `data` starts with the NTLM signature.
pub fn has_signature(data: &[u8]) -> (r: bool)
    requires
        data@.len() >= 8,
    ensures
        r == (data@.subrange(0, 8) == signature()),
{
    let r = data[0] == 0x4e && data[1] == 0x54 && data[2] == 0x4c && data[3] == 0x4d && data[4]
        == 0x53 && data[5] == 0x53 && data[6] == 0x50 && data[7] == 0x00;
    if r {
        assert(data@.subrange(0, 8) =~= signature());
    } else {
        assert(data@.subrange(0, 8) != signature()) by {
            if data@.subrange(0, 8) == signature() {
                assert(data@.subrange(0, 8)[0] == data@[0]);
                assert(data@.subrange(0, 8)[1] == data@[1]);
                assert(data@.subrange(0, 8)[2] == data@[2]);
                assert(data@.subrange(0, 8)[3] == data@[3]);
                assert(data@.subrange(0, 8)[4] == data@[4]);
                assert(data@.subrange(0, 8)[5] == data@[5]);
                assert(data@.subrange(0, 8)[6] == data@[6]);
                assert(data@.subrange(0, 8)[7] == data@[7]);
            }
        }
    }
    r
}

/// The version field of an NTLM message.
#[derive(Debug, Clone, Copy, PartialEq, Eq)]
pub struct Version {
    pub major: u8,
    pub minor: u8,
    pub build: u16,
    pub ntlm_rev: u8,
}

/// Wire image of a version field.
pub open spec fn version_bytes(v: Version) -> Seq<u8> {
    seq![v.major, v.minor] + le16(v.build) + seq![0u8, 0u8, 0u8, v.ntlm_rev]
}

/// The version field stored at `i`.
pub open spec fn version_at(d: Seq<u8>, i: int) -> Version {
    Version { major: d[i], minor: d[i + 1], build: get_le16(d, i + 2), ntlm_rev: d[i + 7] }
}

impl Version {
    /// The version that Windows 10 announces.
    pub fn windows_10() -> (v: Version)
        ensures
            v == (Version { major: 10, minor: 0, build: 19041, ntlm_rev: 15 }),
    {
        Version { major: 10, minor: 0, build: 19041, ntlm_rev: 15 }
    }

    /// Encodes the version field.
    pub fn encode(&self) -> (out: [u8; 8])
        ensures
            out@ == version_bytes(*self),
    {
        let out = [self.major, self.minor, (self.build % 256) as u8, (self.build / 256) as u8, 0, 0,
            0, self.ntlm_rev];
        assert(out@ =~= version_bytes(*self));
        out
    }

    /// Decodes a version field from the front of `data`.
    pub fn decode(data: &[u8]) -> (r: ProtoResult<Version>)
        ensures
            match r {
                Ok(v) => data@.len() >= 8 && v == version_at(data@, 0),
                Err(e) => data@.len() < 8 && e is Parse,
            },
    {
        if data.len() < 8 {
            return Err(ProtoError::Parse("invalid version"));
        }
        Ok(Version { major: data[0], minor: data[1], build: read_le16(data, 2), ntlm_rev: data[7] })
    }
}

/// Wire image of a security buffer: length twice, then offset.
#[verifier::opaque]
pub open spec fn secbuf(len: int, offset: int) -> Seq<u8>
    recommends
        0 <= offset,
{
    le16((len % 65536) as u16) + le16((len % 65536) as u16) + le32((offset % 0x1_0000_0000) as u32)
}

/// Offsets that agree modulo 2^32 have the same image.
pub proof fn lemma_secbuf_mod(len: int, a: int, b: int)
    requires
        a % 0x1_0000_0000 == b % 0x1_0000_0000,
    ensures
        secbuf(len, a) == secbuf(len, b),
{
    reveal(secbuf);
}

/// Encodes a security buffer.
pub fn security_buffer(len: usize, offset: usize) -> (out: [u8; 8])
    ensures
        out@ == secbuf(len as int, offset as int),
{
    reveal(secbuf);
    let l = (len % 65536) as u16;
    let o = ((offset as u64) % 0x1_0000_0000) as u32;
    let mut v: Vec<u8> = Vec::new();
    push_le16(&mut v, l);
    push_le16(&mut v, l);
    push_le32(&mut v, o);
    let out = [v[0], v[1], v[2], v[3], v[4], v[5], v[6], v[7]];
    assert(out@ =~= v@);
    out
}

/// Reads the length and offset of the security buffer at `i`.
pub fn read_security_buffer(data: &[u8], i: usize) -> (r: (usize, usize))
    requires
        i + 8 <= data.len(),
    ensures
        r.0 == get_le16(data@, i as int),
        r.1 == get_le32(data@, i + 4),
{
    (read_le16(data, i) as usize, read_le32(data, i + 4) as usize)
}

/// The bytes a security buffer designates, if they lie inside the message.
pub open spec fn read_bytes_spec(d: Seq<u8>, offset: int, len: int) -> Option<Seq<u8>> {
    if len == 0 {
        Some(Seq::empty())
    } else if offset + len > d.len() {
        None
    } else {
        Some(d.subrange(offset, offset + len))
    }
}

/// Copies the bytes a security buffer designates.
pub fn read_bytes(data: &[u8], offset: usize, len: usize) -> (r: ProtoResult<Vec<u8>>)
    ensures
        match r {
            Ok(v) => read_bytes_spec(data@, offset as int, len as int) == Some(v@),
            Err(e) => read_bytes_spec(data@, offset as int, len as int) is None && e is Parse,
        },
{
    if len == 0 {
        return Ok(Vec::new());
    }
    if offset > data.len() || len > data.len() - offset {
        return Err(ProtoError::Parse("invalid buffer offset"));
    }
    Ok(copy_range(data, offset, len))
}

/// The text of a string field: UTF-16LE when Unicode is negotiated, else bytes read as UTF-8.
pub open spec fn string_from_bytes(b: Seq<u8>, flags: u32) -> Option<Seq<char>> {
    if b.len() == 0 {
        Some(Seq::empty())
    } else if flags & NEGOTIATE_UNICODE != 0 {
        utf16le_decode(b)
    } else {
        Some(lossy_text(b))
    }
}

/// The text of the string field a security buffer designates.
pub open spec fn read_string_spec(d: Seq<u8>, offset: int, len: int, flags: u32) -> Option<Seq<char>> {
    match read_bytes_spec(d, offset, len) {
        None => None,
        Some(b) => string_from_bytes(b, flags),
    }
}

/// Reads the string field a security buffer designates.
pub fn read_string(data: &[u8], offset: usize, len: usize, flags: u32) -> (r: ProtoResult<String>)
    ensures
        match r {
            Ok(s) => read_string_spec(data@, offset as int, len as int, flags) == Some(s@),
            Err(e) => read_string_spec(data@, offset as int, len as int, flags) is None && e is Parse,
        },
{
    let bytes = read_bytes(data, offset, len)?;
    if bytes.len() == 0 {
        return Ok(String::new());
    }
    if (flags & NEGOTIATE_UNICODE) != 0 {
        decode_utf16le(bytes.as_slice())
    } else {
        Ok(string_from_utf8_lossy(bytes.as_slice()))
    }
}

/// Wire image of a string field: UTF-16LE when Unicode is negotiated, else UTF-8.
pub open spec fn string_bytes(value: Seq<char>, flags: u32) -> Seq<u8> {
    if value.len() == 0 {
        Seq::empty()
    } else if flags & NEGOTIATE_UNICODE != 0 {
        utf16le(value)
    } else {
        encode_utf8(value)
    }
}

/// Encodes a string field.
pub fn encode_string(value: &str, flags: u32) -> (out: Vec<u8>)
    ensures
        out@ == string_bytes(value@, flags),
{
    if value.unicode_len() == 0 {
        return Vec::new();
    }
    if (flags & NEGOTIATE_UNICODE) != 0 {
        utf16le_bytes(value)
    } else {
        utf8_bytes(value)
    }
}

/// An attribute-value pair of the target information.
#[derive(Debug, Clone, PartialEq, Eq)]
pub enum AvPair {
    Eol,
    NbComputerName(String),
    NbDomainName(String),
    DnsComputerName(String),
    DnsDomainName(String),
    DnsTreeName(String),
    Flags(u32),
    Timestamp(u64),
    SingleHost(Vec<u8>),
    TargetName(String),
    ChannelBindings([u8; 16]),
    Unknown(u16, Vec<u8>),
}

/// Abstract value of an attribute-value pair.
pub enum AvModel {
    Eol,
    NbComputerName(Seq<char>),
    NbDomainName(Seq<char>),
    DnsComputerName(Seq<char>),
    DnsDomainName(Seq<char>),
    DnsTreeName(Seq<char>),
    Flags(u32),
    Timestamp(u64),
    SingleHost(Seq<u8>),
    TargetName(Seq<char>),
    ChannelBindings(Seq<u8>),
    Unknown(u16, Seq<u8>),
}

impl View for AvPair {
    type V = AvModel;

    open spec fn view(&self) -> AvModel {
        match self {
            AvPair::Eol => AvModel::Eol,
            AvPair::NbComputerName(v) => AvModel::NbComputerName(v@),
            AvPair::NbDomainName(v) => AvModel::NbDomainName(v@),
            AvPair::DnsComputerName(v) => AvModel::DnsComputerName(v@),
            AvPair::DnsDomainName(v) => AvModel::DnsDomainName(v@),
            AvPair::DnsTreeName(v) => AvModel::DnsTreeName(v@),
            AvPair::Flags(v) => AvModel::Flags(*v),
            AvPair::Timestamp(v) => AvModel::Timestamp(*v),
            AvPair::SingleHost(v) => AvModel::SingleHost(v@),
            AvPair::TargetName(v) => AvModel::TargetName(v@),
            AvPair::ChannelBindings(v) => AvModel::ChannelBindings(v@),
            AvPair::Unknown(id, v) => AvModel::Unknown(*id, v@),
        }
    }
}

/// Wire image of a pair: identifier, value length, value.
pub open spec fn av_raw(id: u16, value: Seq<u8>) -> Seq<u8> {
    le16(id) + le16((value.len() % 65536) as u16) + value
}

/// Wire image of an attribute-value pair.
pub open spec fn av_bytes(p: AvModel) -> Seq<u8> {
    match p {
        AvModel::Eol => av_raw(0, Seq::empty()),
        AvModel::NbComputerName(v) => av_raw(1, utf16le(v)),
        AvModel::NbDomainName(v) => av_raw(2, utf16le(v)),
        AvModel::DnsComputerName(v) => av_raw(3, utf16le(v)),
        AvModel::DnsDomainName(v) => av_raw(4, utf16le(v)),
        AvModel::DnsTreeName(v) => av_raw(5, utf16le(v)),
        AvModel::Flags(v) => av_raw(6, le32(v)),
        AvModel::Timestamp(v) => av_raw(7, le64(v)),
        AvModel::SingleHost(v) => av_raw(8, v),
        AvModel::TargetName(v) => av_raw(9, utf16le(v)),
        AvModel::ChannelBindings(v) => av_raw(10, v),
        AvModel::Unknown(id, v) => av_raw(id, v),
    }
}

/// Wire image of a list of pairs.
pub open spec fn av_list_bytes(ps: Seq<AvModel>) -> Seq<u8> {
    concat_map(ps, |p: AvModel| av_bytes(p))
}

fn push_av_raw(out: &mut Vec<u8>, id: u16, value: &[u8])
    ensures
        final(out)@ == old(out)@ + av_raw(id, value@),
{
    let ghost start = out@;
    push_le16(out, id);
    push_le16(out, (value.len() % 65536) as u16);
    push_bytes(out, value);
    assert(out@ =~= start + av_raw(id, value@));
}

fn push_av_string(out: &mut Vec<u8>, id: u16, value: &str)
    ensures
        final(out)@ == old(out)@ + av_raw(id, utf16le(value@)),
{
    let encoded = utf16le_bytes(value);
    push_av_raw(out, id, encoded.as_slice());
}

impl AvPair {
    /// Appends the wire image of the pair.
    pub fn encode(&self, out: &mut Vec<u8>)
        ensures
            final(out)@ == old(out)@ + av_bytes(self@),
    {
        match self {
            AvPair::Eol => {
                let empty: Vec<u8> = Vec::new();
                push_av_raw(out, 0, empty.as_slice());
            },
            AvPair::NbComputerName(value) => push_av_string(out, 1, value.as_str()),
            AvPair::NbDomainName(value) => push_av_string(out, 2, value.as_str()),
            AvPair::DnsComputerName(value) => push_av_string(out, 3, value.as_str()),
            AvPair::DnsDomainName(value) => push_av_string(out, 4, value.as_str()),
            AvPair::DnsTreeName(value) => push_av_string(out, 5, value.as_str()),
            AvPair::Flags(value) => {
                let mut v: Vec<u8> = Vec::new();
                push_le32(&mut v, *value);
                push_av_raw(out, 6, v.as_slice());
            },
            AvPair::Timestamp(value) => {
                let mut v: Vec<u8> = Vec::new();
                push_le64(&mut v, *value);
                push_av_raw(out, 7, v.as_slice());
            },
            AvPair::SingleHost(value) => push_av_raw(out, 8, value.as_slice()),
            AvPair::TargetName(value) => push_av_string(out, 9, value.as_str()),
            AvPair::ChannelBindings(value) => push_av_raw(out, 10, value.as_slice()),
            AvPair::Unknown(id, value) => push_av_raw(out, *id, value.as_slice()),
        }
    }
}

/// The pair a value stands for under an identifier, if the value is well formed.
pub open spec fn av_pair_of(id: u16, value: Seq<u8>) -> Option<AvModel> {
    if id == 0 {
        Some(AvModel::Eol)
    } else if id == 1 || id == 2 || id == 3 || id == 4 || id == 5 || id == 9 {
        match utf16le_decode(value) {
            None => None,
            Some(s) => Some(
                if id == 1 {
                    AvModel::NbComputerName(s)
                } else if id == 2 {
                    AvModel::NbDomainName(s)
                } else if id == 3 {
                    AvModel::DnsComputerName(s)
                } else if id == 4 {
                    AvModel::DnsDomainName(s)
                } else if id == 5 {
                    AvModel::DnsTreeName(s)
                } else {
                    AvModel::TargetName(s)
                },
            ),
        }
    } else if id == 6 {
        if value.len() != 4 { None } else { Some(AvModel::Flags(get_le32(value, 0))) }
    } else if id == 7 {
        if value.len() != 8 { None } else { Some(AvModel::Timestamp(get_le64(value, 0))) }
    } else if id == 8 {
        Some(AvModel::SingleHost(value))
    } else if id == 10 {
        if value.len() != 16 { None } else { Some(AvModel::ChannelBindings(value)) }
    } else {
        Some(AvModel::Unknown(id, value))
    }
}

/// The pairs at the front of `s`: read while four header bytes remain, up to and
/// including the end-of-list pair.
pub open spec fn av_decode(s: Seq<u8>) -> Option<Seq<AvModel>>
    decreases s.len(),
{
    if s.len() < 4 {
        Some(Seq::empty())
    } else {
        let id = get_le16(s, 0);
        let len = get_le16(s, 2) as int;
        if s.len() - 4 < len {
            None
        } else {
            match av_pair_of(id, s.subrange(4, 4 + len)) {
                None => None,
                Some(p) => if p is Eol {
                    Some(seq![p])
                } else {
                    match av_decode(s.subrange(4 + len, s.len() as int)) {
                        None => None,
                        Some(rest) => Some(seq![p] + rest),
                    }
                },
            }
        }
    }
}

fn decode_pair(id: u16, value: &[u8]) -> (r: ProtoResult<AvPair>)
    ensures
        match r {
            Ok(p) => av_pair_of(id, value@) == Some(p@),
            Err(e) => av_pair_of(id, value@) is None && e is Parse,
        },
{
    if id == 0 {
        Ok(AvPair::Eol)
    } else if id == 1 {
        Ok(AvPair::NbComputerName(decode_utf16le(value)?))
    } else if id == 2 {
        Ok(AvPair::NbDomainName(decode_utf16le(value)?))
    } else if id == 3 {
        Ok(AvPair::DnsComputerName(decode_utf16le(value)?))
    } else if id == 4 {
        Ok(AvPair::DnsDomainName(decode_utf16le(value)?))
    } else if id == 5 {
        Ok(AvPair::DnsTreeName(decode_utf16le(value)?))
    } else if id == 6 {
        if value.len() != 4 {
            return Err(ProtoError::Parse("invalid AV flags"));
        }
        Ok(AvPair::Flags(read_le32(value, 0)))
    } else if id == 7 {
        if value.len() != 8 {
            return Err(ProtoError::Parse("invalid AV timestamp"));
        }
        Ok(AvPair::Timestamp(read_le64(value, 0)))
    } else if id == 8 {
        let v = copy_range(value, 0, value.len());
        assert(v@ =~= value@);
        Ok(AvPair::SingleHost(v))
    } else if id == 9 {
        Ok(AvPair::TargetName(decode_utf16le(value)?))
    } else if id == 10 {
        if value.len() != 16 {
            return Err(ProtoError::Parse("invalid AV channel bindings"));
        }
        let b = [value[0], value[1], value[2], value[3], value[4], value[5], value[6], value[7],
            value[8], value[9], value[10], value[11], value[12], value[13], value[14], value[15]];
        assert(b@ =~= value@);
        Ok(AvPair::ChannelBindings(b))
    } else {
        let v = copy_range(value, 0, value.len());
        assert(v@ =~= value@);
        Ok(AvPair::Unknown(id, v))
    }
}

/// The models of a list of pairs.
pub open spec fn av_models(ps: Seq<AvPair>) -> Seq<AvModel> {
    ps.map_values(|p: AvPair| p@)
}

impl AvPair {
    /// Decodes the pairs at the front of `data`.
    pub fn decode(data: &[u8]) -> (r: ProtoResult<Vec<AvPair>>)
        ensures
            match r {
                Ok(ps) => av_decode(data@) == Some(av_models(ps@)),
                Err(e) => av_decode(data@) is None && e is Parse,
            },
    {
        let mut out: Vec<AvPair> = Vec::new();
        let mut pos: usize = 0;
        proof {
            assert(data@.subrange(0, data@.len() as int) == data@);
            assert forall|rest: Seq<AvModel>| av_models(out@) + rest == rest by {
                assert(av_models(out@) + rest =~= rest);
            }
        }
        while data.len() - pos >= 4
            invariant
                pos <= data@.len(),
                av_decode(data@) == match av_decode(data@.subrange(pos as int, data@.len() as int)) {
                    None => None,
                    Some(rest) => Some(av_models(out@) + rest),
                },
            decreases data@.len() - pos,
        {
            let ghost s = data@.subrange(pos as int, data@.len() as int);
            let id = read_le16(data, pos);
            let len = read_le16(data, pos + 2) as usize;
            assert(id == get_le16(s, 0) && len == get_le16(s, 2));
            if data.len() - pos - 4 < len {
                return Err(ProtoError::Parse("invalid AV pair"));
            }
            let value = &data[pos + 4..pos + 4 + len];
            assert(value@ == s.subrange(4, 4 + len));
            let pair = decode_pair(id, value)?;
            let is_eol = match pair {
                AvPair::Eol => true,
                _ => false,
            };
            proof {
                assert(av_models(out@.push(pair)) == av_models(out@).push(pair@));
                assert(s.subrange(4 + len, s.len() as int) == data@.subrange(pos + 4 + len, data@.len() as int));
                assert forall|rest: Seq<AvModel>| av_models(out@) + (seq![pair@] + rest) == av_models(out@.push(pair)) + rest by {
                    assert(av_models(out@) + (seq![pair@] + rest) =~= av_models(out@.push(pair)) + rest);
                }
                assert(av_models(out@) + seq![pair@] =~= av_models(out@.push(pair)));
            }
            out.push(pair);
            pos = pos + 4 + len;
            if is_eol {
                return Ok(out);
            }
        }
        proof {
            assert(av_models(out@) + Seq::<AvModel>::empty() =~= av_models(out@));
        }
        Ok(out)
    }
}

impl AvPair {
    /// A copy of the pair.
    pub fn copy(&self) -> (r: AvPair)
        ensures
            r@ == self@,
    {
        match self {
            AvPair::Eol => AvPair::Eol,
            AvPair::NbComputerName(v) => AvPair::NbComputerName(v.clone()),
            AvPair::NbDomainName(v) => AvPair::NbDomainName(v.clone()),
            AvPair::DnsComputerName(v) => AvPair::DnsComputerName(v.clone()),
            AvPair::DnsDomainName(v) => AvPair::DnsDomainName(v.clone()),
            AvPair::DnsTreeName(v) => AvPair::DnsTreeName(v.clone()),
            AvPair::Flags(v) => AvPair::Flags(*v),
            AvPair::Timestamp(v) => AvPair::Timestamp(*v),
            AvPair::SingleHost(v) => {
                let c = copy_range(v.as_slice(), 0, v.len());
                assert(c@ =~= v@);
                AvPair::SingleHost(c)
            },
            AvPair::TargetName(v) => AvPair::TargetName(v.clone()),
            AvPair::ChannelBindings(v) => AvPair::ChannelBindings(*v),
            AvPair::Unknown(id, v) => {
                let c = copy_range(v.as_slice(), 0, v.len());
                assert(c@ =~= v@);
                AvPair::Unknown(*id, c)
            },
        }
    }
}

/// A copy of a list of pairs.
pub fn copy_pairs(ps: &[AvPair]) -> (r: Vec<AvPair>)
    ensures
        av_models(r@) == av_models(ps@),
{
    let mut out: Vec<AvPair> = Vec::new();
    let mut i: usize = 0;
    while i < ps.len()
        invariant
            i <= ps@.len(),
            av_models(out@) == av_models(ps@.subrange(0, i as int)),
        decreases ps.len() - i,
    {
        let p = ps[i].copy();
        let ghost old_out = out@;
        out.push(p);
        assert(av_models(out@) =~= av_models(old_out).push(p@));
        assert(av_models(ps@.subrange(0, i + 1)) =~= av_models(ps@.subrange(0, i as int)).push(ps@[i as int]@));
        i = i + 1;
    }
    assert(ps@.subrange(0, ps@.len() as int) == ps@);
    out
}

/// Whether a list of pairs holds the end-of-list pair.
pub open spec fn has_eol(ps: Seq<AvModel>) -> bool {
    exists|i: int| 0 <= i < ps.len() && ps[i] is Eol
}

/// Whether `ps` holds the end-of-list pair.
pub fn contains_eol(ps: &[AvPair]) -> (r: bool)
    ensures
        r == has_eol(av_models(ps@)),
{
    let mut i: usize = 0;
    while i < ps.len()
        invariant
            i <= ps@.len(),
            forall|j: int| 0 <= j < i ==> !(av_models(ps@)[j] is Eol),
        decreases ps.len() - i,
    {
        match &ps[i] {
            AvPair::Eol => {
                assert(av_models(ps@)[i as int] is Eol);
                return true;
            },
            _ => {},
        }
        i = i + 1;
    }
    false
}

/// Wire image of target information: the pairs, with an end-of-list pair added when missing.
pub open spec fn target_info_bytes(ps: Seq<AvModel>) -> Seq<u8> {
    if has_eol(ps) { av_list_bytes(ps) } else { av_list_bytes(ps) + av_bytes(AvModel::Eol) }
}

/// Encodes target information.
pub fn encode_target_info(ps: &[AvPair]) -> (out: Vec<u8>)
    ensures
        out@ == target_info_bytes(av_models(ps@)),
{
    let mut out: Vec<u8> = Vec::new();
    let ghost f = |p: AvModel| av_bytes(p);
    let mut i: usize = 0;
    while i < ps.len()
        invariant
            i <= ps@.len(),
            f == (|p: AvModel| av_bytes(p)),
            out@ == concat_map(av_models(ps@).subrange(0, i as int), f),
        decreases ps.len() - i,
    {
        let ghost before = out@;
        ps[i].encode(&mut out);
        proof {
            lemma_concat_map_push(av_models(ps@).subrange(0, i as int), ps@[i as int]@, f);
            assert(av_models(ps@).subrange(0, i as int).push(ps@[i as int]@) == av_models(ps@).subrange(0, i + 1));
        }
        i = i + 1;
    }
    assert(av_models(ps@).subrange(0, ps@.len() as int) == av_models(ps@));
    if !contains_eol(ps) {
        AvPair::Eol.encode(&mut out);
    }
    out
}

} // verus!
