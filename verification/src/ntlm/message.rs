//! The three NTLM messages: negotiate, challenge and authenticate.
use vstd::prelude::*;
use crate::error::{ProtoError, ProtoResult};
use crate::ntlm::av::{
    AvPair, AvModel, Version, NEGOTIATE_OEM_DOMAIN_SUPPLIED, NEGOTIATE_OEM_WORKSTATION_SUPPLIED,
    NEGOTIATE_TARGET_INFO, NEGOTIATE_VERSION, signature, push_signature, has_signature, version_bytes,
    version_at, secbuf, lemma_secbuf_mod, security_buffer, read_security_buffer, read_bytes_spec, read_bytes,
    read_string_spec, read_string, string_bytes, encode_string, av_models, av_decode,
    target_info_bytes, encode_target_info,
};
use crate::wire::{le32, get_le32, push_le32, push_bytes, read_le32, copy_range};

verus! {

pub const TYPE_NEGOTIATE: u32 = 1;
pub const TYPE_CHALLENGE: u32 = 2;
pub const TYPE_AUTHENTICATE: u32 = 3;

/// The version field's image, or nothing.
pub open spec fn opt_version_bytes(v: Option<Version>) -> Seq<u8> {
    match v {
        Some(v) => version_bytes(v),
        None => Seq::empty(),
    }
}

fn push_opt_version(out: &mut Vec<u8>, v: Option<Version>)
    ensures
        final(out)@ == old(out)@ + opt_version_bytes(v),
{
    let ghost start = out@;
    if let Some(ver) = v {
        let b = ver.encode();
        push_bytes(out, b.as_slice());
    } else {
        assert(out@ =~= start + opt_version_bytes(v));
    }
}

fn push_secbuf(out: &mut Vec<u8>, len: usize, offset: usize)
    ensures
        final(out)@ == old(out)@ + secbuf(len as int, offset as int),
{
    let b = security_buffer(len, offset);
    push_bytes(out, b.as_slice());
}

/// The first message: what the client offers.
#[derive(Debug, Clone, PartialEq, Eq)]
pub struct NegotiateMessage {
    pub flags: u32,
    pub domain: String,
    pub workstation: String,
    pub version: Option<Version>,
}

/// Abstract value of a negotiate message.
pub struct NegotiateModel {
    pub flags: u32,
    pub domain: Seq<char>,
    pub workstation: Seq<char>,
    pub version: Option<Version>,
}

impl View for NegotiateMessage {
    type V = NegotiateModel;

    open spec fn view(&self) -> NegotiateModel {
        NegotiateModel {
            flags: self.flags,
            domain: self.domain@,
            workstation: self.workstation@,
            version: self.version,
        }
    }
}

/// The flags a negotiate message carries: the domain and workstation bits follow the strings.
pub open spec fn negotiate_flags(m: NegotiateModel) -> u32 {
    let f1 = if m.domain.len() != 0 { m.flags | NEGOTIATE_OEM_DOMAIN_SUPPLIED } else { m.flags };
    if m.workstation.len() != 0 { f1 | NEGOTIATE_OEM_WORKSTATION_SUPPLIED } else { f1 }
}

/// Size of a message header with an optional version field.
pub open spec fn header_len(fixed: int, v: Option<Version>) -> int {
    fixed + if v is Some { 8int } else { 0int }
}

/// Wire image of a negotiate message.
pub open spec fn negotiate_bytes(m: NegotiateModel) -> Seq<u8> {
    let flags = negotiate_flags(m);
    let d = string_bytes(m.domain, flags);
    let w = string_bytes(m.workstation, flags);
    let base = header_len(32, m.version);
    signature() + le32(TYPE_NEGOTIATE) + le32(flags) + secbuf(d.len() as int, base) + secbuf(
        w.len() as int,
        base + d.len(),
    ) + opt_version_bytes(m.version) + d + w
}

/// The optional version field of a message whose fixed header is `fixed` bytes long.
pub open spec fn version_if(d: Seq<u8>, fixed: int, flags: u32) -> Option<Version> {
    if d.len() >= fixed + 8 && flags & NEGOTIATE_VERSION != 0 {
        Some(version_at(d, fixed))
    } else {
        None
    }
}

/// The negotiate message that `d` holds, if it is one.
pub open spec fn negotiate_decode(d: Seq<u8>) -> Option<NegotiateModel> {
    if d.len() < 32 || d.subrange(0, 8) != signature() || get_le32(d, 8) != TYPE_NEGOTIATE {
        None
    } else {
        let flags = get_le32(d, 12);
        match (
            read_string_spec(d, get_le32(d, 20) as int, crate::wire::get_le16(d, 16) as int, flags),
            read_string_spec(d, get_le32(d, 28) as int, crate::wire::get_le16(d, 24) as int, flags),
        ) {
            (Some(domain), Some(workstation)) => Some(
                NegotiateModel { flags, domain, workstation, version: version_if(d, 32, flags) },
            ),
            _ => None,
        }
    }
}

impl NegotiateMessage {
    /// Encodes the message.
    pub fn encode(&self) -> (out: Vec<u8>)
        ensures
            out@ == negotiate_bytes(self@),
    {
        let mut flags = self.flags;
        if self.domain.unicode_len() != 0 {
            flags = flags | NEGOTIATE_OEM_DOMAIN_SUPPLIED;
        }
        if self.workstation.unicode_len() != 0 {
            flags = flags | NEGOTIATE_OEM_WORKSTATION_SUPPLIED;
        }
        assert(flags == negotiate_flags(self@));
        let domain_bytes = encode_string(self.domain.as_str(), flags);
        let workstation_bytes = encode_string(self.workstation.as_str(), flags);
        let base_len: usize = if self.version.is_some() { 40 } else { 32 };
        let domain_offset = base_len;
        let workstation_offset = crate::wire::offset_add(base_len, domain_bytes.len());
        proof {
            lemma_secbuf_mod(workstation_bytes@.len() as int, workstation_offset as int, base_len + domain_bytes@.len());
        }
        let mut out: Vec<u8> = Vec::new();
        push_signature(&mut out);
        push_le32(&mut out, TYPE_NEGOTIATE);
        push_le32(&mut out, flags);
        push_secbuf(&mut out, domain_bytes.len(), domain_offset);
        push_secbuf(&mut out, workstation_bytes.len(), workstation_offset);
        push_opt_version(&mut out, self.version);
        push_bytes(&mut out, domain_bytes.as_slice());
        push_bytes(&mut out, workstation_bytes.as_slice());
        out
    }

    /// Decodes a negotiate message.
    pub fn decode(data: &[u8]) -> (r: ProtoResult<NegotiateMessage>)
        ensures
            match r {
                Ok(m) => negotiate_decode(data@) == Some(m@),
                Err(e) => negotiate_decode(data@) is None && e is Parse,
            },
    {
        if data.len() < 32 || !has_signature(data) {
            return Err(ProtoError::Parse("invalid NTLM negotiate"));
        }
        let message_type = read_le32(data, 8);
        if message_type != TYPE_NEGOTIATE {
            return Err(ProtoError::Parse("invalid NTLM negotiate type"));
        }
        let flags = read_le32(data, 12);
        let (domain_len, domain_offset) = read_security_buffer(data, 16);
        let (workstation_len, workstation_offset) = read_security_buffer(data, 24);
        let version = if data.len() >= 40 && (flags & NEGOTIATE_VERSION) != 0 {
            Some(Version { major: data[32], minor: data[33], build: crate::wire::read_le16(data, 34), ntlm_rev: data[39] })
        } else {
            None
        };
        let domain = read_string(data, domain_offset, domain_len, flags)?;
        let workstation = read_string(data, workstation_offset, workstation_len, flags)?;
        Ok(NegotiateMessage { flags, domain, workstation, version })
    }
}

/// The second message: the server's challenge.
#[derive(Debug, Clone, PartialEq, Eq)]
pub struct ChallengeMessage {
    pub target_name: String,
    pub flags: u32,
    pub server_challenge: [u8; 8],
    pub target_info: Vec<AvPair>,
    pub version: Option<Version>,
}

/// Abstract value of a challenge message.
pub struct ChallengeModel {
    pub target_name: Seq<char>,
    pub flags: u32,
    pub server_challenge: Seq<u8>,
    pub target_info: Seq<AvModel>,
    pub version: Option<Version>,
}

impl View for ChallengeMessage {
    type V = ChallengeModel;

    open spec fn view(&self) -> ChallengeModel {
        ChallengeModel {
            target_name: self.target_name@,
            flags: self.flags,
            server_challenge: self.server_challenge@,
            target_info: av_models(self.target_info@),
            version: self.version,
        }
    }
}

/// The flags a challenge message carries: the target information bit follows the pairs.
pub open spec fn challenge_flags(m: ChallengeModel) -> u32 {
    if m.target_info.len() != 0 { m.flags | NEGOTIATE_TARGET_INFO } else { m.flags }
}

/// Eight zero bytes.
pub open spec fn zeros8() -> Seq<u8> {
    seq![0u8, 0, 0, 0, 0, 0, 0, 0]
}

/// Wire image of a challenge message.
pub open spec fn challenge_bytes(m: ChallengeModel) -> Seq<u8> {
    let flags = challenge_flags(m);
    let name = string_bytes(m.target_name, flags);
    let ti = target_info_bytes(m.target_info);
    let base = header_len(48, m.version);
    signature() + le32(TYPE_CHALLENGE) + secbuf(name.len() as int, base) + le32(flags)
        + m.server_challenge + zeros8() + secbuf(ti.len() as int, base + name.len())
        + opt_version_bytes(m.version) + name + ti
}

/// The target information a challenge designates.
pub open spec fn target_info_at(d: Seq<u8>, offset: int, len: int) -> Option<Seq<AvModel>> {
    if len > 0 {
        if offset + len > d.len() {
            None
        } else {
            av_decode(d.subrange(offset, offset + len))
        }
    } else {
        Some(Seq::empty())
    }
}

/// The challenge message that `d` holds, if it is one.
pub open spec fn challenge_decode(d: Seq<u8>) -> Option<ChallengeModel> {
    if d.len() < 48 || d.subrange(0, 8) != signature() || get_le32(d, 8) != TYPE_CHALLENGE {
        None
    } else {
        let flags = get_le32(d, 20);
        match (
            read_string_spec(d, get_le32(d, 16) as int, crate::wire::get_le16(d, 12) as int, flags),
            target_info_at(d, get_le32(d, 44) as int, crate::wire::get_le16(d, 40) as int),
        ) {
            (Some(target_name), Some(target_info)) => Some(
                ChallengeModel {
                    target_name,
                    flags,
                    server_challenge: d.subrange(24, 32),
                    target_info,
                    version: version_if(d, 48, flags),
                },
            ),
            _ => None,
        }
    }
}

impl ChallengeMessage {
    /// Encodes the message.
    pub fn encode(&self) -> (out: Vec<u8>)
        ensures
            out@ == challenge_bytes(self@),
    {
        let mut flags = self.flags;
        if self.target_info.len() != 0 {
            flags = flags | NEGOTIATE_TARGET_INFO;
        }
        let target_name_bytes = encode_string(self.target_name.as_str(), flags);
        let target_info_bytes = encode_target_info(self.target_info.as_slice());
        let base_len: usize = if self.version.is_some() { 56 } else { 48 };
        let target_name_offset = base_len;
        let target_info_offset = crate::wire::offset_add(base_len, target_name_bytes.len());
        proof {
            lemma_secbuf_mod(target_info_bytes@.len() as int, target_info_offset as int, base_len + target_name_bytes@.len());
        }
        let mut out: Vec<u8> = Vec::new();
        push_signature(&mut out);
        push_le32(&mut out, TYPE_CHALLENGE);
        push_secbuf(&mut out, target_name_bytes.len(), target_name_offset);
        push_le32(&mut out, flags);
        push_bytes(&mut out, self.server_challenge.as_slice());
        let z: [u8; 8] = [0u8; 8];
        assert(z@ =~= zeros8());
        push_bytes(&mut out, z.as_slice());
        push_secbuf(&mut out, target_info_bytes.len(), target_info_offset);
        push_opt_version(&mut out, self.version);
        push_bytes(&mut out, target_name_bytes.as_slice());
        push_bytes(&mut out, target_info_bytes.as_slice());
        out
    }

    /// Decodes a challenge message.
    pub fn decode(data: &[u8]) -> (r: ProtoResult<ChallengeMessage>)
        ensures
            match r {
                Ok(m) => challenge_decode(data@) == Some(m@),
                Err(e) => challenge_decode(data@) is None && e is Parse,
            },
    {
        if data.len() < 48 || !has_signature(data) {
            return Err(ProtoError::Parse("invalid NTLM challenge"));
        }
        let message_type = read_le32(data, 8);
        if message_type != TYPE_CHALLENGE {
            return Err(ProtoError::Parse("invalid NTLM challenge type"));
        }
        let (target_len, target_offset) = read_security_buffer(data, 12);
        let flags = read_le32(data, 20);
        let server_challenge = [data[24], data[25], data[26], data[27], data[28], data[29], data[30],
            data[31]];
        assert(server_challenge@ =~= data@.subrange(24, 32));
        let (target_info_len, target_info_offset) = read_security_buffer(data, 40);
        let version = if data.len() >= 56 && (flags & NEGOTIATE_VERSION) != 0 {
            Some(Version { major: data[48], minor: data[49], build: crate::wire::read_le16(data, 50), ntlm_rev: data[55] })
        } else {
            None
        };
        let target_name = read_string(data, target_offset, target_len, flags)?;
        let target_info = if target_info_len > 0 {
            if target_info_offset > data.len() || target_info_len > data.len() - target_info_offset {
                return Err(ProtoError::Parse("invalid target info offset"));
            }
            AvPair::decode(&data[target_info_offset..target_info_offset + target_info_len])?
        } else {
            Vec::new()
        };
        proof {
            if target_info_len == 0 {
                assert(av_models(target_info@) =~= Seq::<AvModel>::empty());
            }
        }
        Ok(ChallengeMessage { target_name, flags, server_challenge, target_info, version })
    }
}

/// The third message: the client's proof of its credentials.
#[derive(Debug, Clone, PartialEq, Eq)]
pub struct AuthenticateMessage {
    pub lm_response: Vec<u8>,
    pub nt_response: Vec<u8>,
    pub domain: String,
    pub user: String,
    pub workstation: String,
    pub encrypted_session_key: Vec<u8>,
    pub flags: u32,
    pub version: Option<Version>,
    pub mic: Option<[u8; 16]>,
}

/// Abstract value of an authenticate message.
pub struct AuthenticateModel {
    pub lm_response: Seq<u8>,
    pub nt_response: Seq<u8>,
    pub domain: Seq<char>,
    pub user: Seq<char>,
    pub workstation: Seq<char>,
    pub encrypted_session_key: Seq<u8>,
    pub flags: u32,
    pub version: Option<Version>,
    pub mic: Option<Seq<u8>>,
}

/// The bytes of an optional message integrity code.
pub open spec fn opt_mic_model(mic: Option<[u8; 16]>) -> Option<Seq<u8>> {
    match mic {
        Some(m) => Some(m@),
        None => None,
    }
}

impl View for AuthenticateMessage {
    type V = AuthenticateModel;

    open spec fn view(&self) -> AuthenticateModel {
        AuthenticateModel {
            lm_response: self.lm_response@,
            nt_response: self.nt_response@,
            domain: self.domain@,
            user: self.user@,
            workstation: self.workstation@,
            encrypted_session_key: self.encrypted_session_key@,
            flags: self.flags,
            version: self.version,
            mic: opt_mic_model(self.mic),
        }
    }
}

/// The image of an optional integrity code, or nothing.
pub open spec fn opt_mic_bytes(mic: Option<Seq<u8>>) -> Seq<u8> {
    match mic {
        Some(m) => m,
        None => Seq::empty(),
    }
}

/// Wire image of an authenticate message.
pub open spec fn authenticate_bytes(m: AuthenticateModel) -> Seq<u8> {
    let d = string_bytes(m.domain, m.flags);
    let u = string_bytes(m.user, m.flags);
    let w = string_bytes(m.workstation, m.flags);
    let base = 64 + (if m.version is Some { 8int } else { 0int }) + (if m.mic is Some { 16int } else { 0int });
    let lm_off = base;
    let nt_off = lm_off + m.lm_response.len();
    let d_off = nt_off + m.nt_response.len();
    let u_off = d_off + d.len();
    let w_off = u_off + u.len();
    let s_off = w_off + w.len();
    signature() + le32(TYPE_AUTHENTICATE) + secbuf(m.lm_response.len() as int, lm_off) + secbuf(
        m.nt_response.len() as int,
        nt_off,
    ) + secbuf(d.len() as int, d_off) + secbuf(u.len() as int, u_off) + secbuf(w.len() as int, w_off)
        + secbuf(m.encrypted_session_key.len() as int, s_off) + le32(m.flags) + opt_version_bytes(
        m.version,
    ) + opt_mic_bytes(m.mic) + m.lm_response + m.nt_response + d + u + w + m.encrypted_session_key
}

/// The smallest offset among non-empty buffers seen so far.
pub open spec fn min_offset(acc: int, len: int, offset: int) -> int {
    if len > 0 && offset < acc { offset } else { acc }
}

/// Length of the buffer whose descriptor is at `i`.
pub open spec fn buf_len(d: Seq<u8>, i: int) -> int {
    crate::wire::get_le16(d, i) as int
}

/// Offset of the buffer whose descriptor is at `i`.
pub open spec fn buf_off(d: Seq<u8>, i: int) -> int {
    get_le32(d, i + 4) as int
}

/// Where the payload of an authenticate message starts: at its first non-empty buffer,
/// else at the end of the message.
pub open spec fn payload_start(d: Seq<u8>) -> int {
    let m = min_offset(min_offset(min_offset(min_offset(min_offset(min_offset(usize::MAX as int,
        buf_len(d, 12), buf_off(d, 12)), buf_len(d, 20), buf_off(d, 20)), buf_len(d, 28), buf_off(d, 28)),
        buf_len(d, 36), buf_off(d, 36)), buf_len(d, 44), buf_off(d, 44)), buf_len(d, 52), buf_off(d, 52));
    if m == usize::MAX as int { d.len() as int } else { m }
}

/// Where the integrity code would start: after the header and the optional version.
pub open spec fn mic_cursor(d: Seq<u8>) -> int {
    if version_if(d, 64, get_le32(d, 60)) is Some { 72 } else { 64 }
}

/// Whether decoding `d` as an authenticate message would look for an integrity code
/// past its end: the payload is said to start beyond the bytes there are.
pub open spec fn authenticate_reads_past_end(d: Seq<u8>) -> bool {
    d.len() >= 64 && d.subrange(0, 8) == signature() && get_le32(d, 8) == TYPE_AUTHENTICATE
        && mic_cursor(d) + 16 <= payload_start(d) && mic_cursor(d) + 16 > d.len()
}

/// The authenticate message that `d` holds, if it is one.
pub open spec fn authenticate_decode(d: Seq<u8>) -> Option<AuthenticateModel> {
    if d.len() < 64 || d.subrange(0, 8) != signature() || get_le32(d, 8) != TYPE_AUTHENTICATE {
        None
    } else {
        let flags = get_le32(d, 60);
        let cursor = mic_cursor(d);
        let mic = if cursor + 16 <= payload_start(d) { Some(d.subrange(cursor, cursor + 16)) } else { None };
        match (
            read_bytes_spec(d, buf_off(d, 12), buf_len(d, 12)),
            read_bytes_spec(d, buf_off(d, 20), buf_len(d, 20)),
            read_string_spec(d, buf_off(d, 28), buf_len(d, 28), flags),
            read_string_spec(d, buf_off(d, 36), buf_len(d, 36), flags),
            read_string_spec(d, buf_off(d, 44), buf_len(d, 44), flags),
            read_bytes_spec(d, buf_off(d, 52), buf_len(d, 52)),
        ) {
            (Some(lm), Some(nt), Some(domain), Some(user), Some(ws), Some(key)) => Some(
                AuthenticateModel {
                    lm_response: lm,
                    nt_response: nt,
                    domain,
                    user,
                    workstation: ws,
                    encrypted_session_key: key,
                    flags,
                    version: version_if(d, 64, flags),
                    mic,
                },
            ),
            _ => None,
        }
    }
}

fn compute_payload_start(data: &[u8]) -> (r: usize)
    requires
        data@.len() >= 64,
    ensures
        r == payload_start(data@),
{
    let (lm_len, lm_offset) = read_security_buffer(data, 12);
    let (nt_len, nt_offset) = read_security_buffer(data, 20);
    let (domain_len, domain_offset) = read_security_buffer(data, 28);
    let (user_len, user_offset) = read_security_buffer(data, 36);
    let (workstation_len, workstation_offset) = read_security_buffer(data, 44);
    let (session_len, session_offset) = read_security_buffer(data, 52);
    let mut payload_start: usize = usize::MAX;
    if lm_len > 0 && lm_offset < payload_start {
        payload_start = lm_offset;
    }
    if nt_len > 0 && nt_offset < payload_start {
        payload_start = nt_offset;
    }
    if domain_len > 0 && domain_offset < payload_start {
        payload_start = domain_offset;
    }
    if user_len > 0 && user_offset < payload_start {
        payload_start = user_offset;
    }
    if workstation_len > 0 && workstation_offset < payload_start {
        payload_start = workstation_offset;
    }
    if session_len > 0 && session_offset < payload_start {
        payload_start = session_offset;
    }
    if payload_start == usize::MAX {
        payload_start = data.len();
    }
    payload_start
}

fn read_mic(data: &[u8], cursor: usize) -> (m: [u8; 16])
    requires
        cursor + 16 <= data@.len(),
    ensures
        m@ == data@.subrange(cursor as int, cursor + 16),
{
    let m = [data[cursor], data[cursor + 1], data[cursor + 2], data[cursor + 3], data[cursor + 4],
        data[cursor + 5], data[cursor + 6], data[cursor + 7], data[cursor + 8], data[cursor + 9],
        data[cursor + 10], data[cursor + 11], data[cursor + 12], data[cursor + 13], data[cursor + 14],
        data[cursor + 15]];
    assert(m@ =~= data@.subrange(cursor as int, cursor + 16));
    m
}

impl AuthenticateMessage {
    /// Encodes the message.
    #[verifier::rlimit(60)]
    pub fn encode(&self) -> (out: Vec<u8>)
        ensures
            out@ == authenticate_bytes(self@),
    {
        let flags = self.flags;
        let domain_bytes = encode_string(self.domain.as_str(), flags);
        let user_bytes = encode_string(self.user.as_str(), flags);
        let workstation_bytes = encode_string(self.workstation.as_str(), flags);
        let base_len: usize = 64 + if self.version.is_some() { 8 } else { 0 } + if self.mic.is_some() { 16 } else { 0 };
        let lm_offset = base_len;
        let nt_offset = crate::wire::offset_add(lm_offset, self.lm_response.len());
        let domain_offset = crate::wire::offset_add(nt_offset, self.nt_response.len());
        let user_offset = crate::wire::offset_add(domain_offset, domain_bytes.len());
        let workstation_offset = crate::wire::offset_add(user_offset, user_bytes.len());
        let session_offset = crate::wire::offset_add(workstation_offset, workstation_bytes.len());
        proof {
            let m = self@;
            let base = base_len as int;
            let a = self.lm_response@.len() as int;
            let b = self.nt_response@.len() as int;
            let c = domain_bytes@.len() as int;
            let d = user_bytes@.len() as int;
            let e = workstation_bytes@.len() as int;
            crate::wire::lemma_offset_chain(base, a, nt_offset as int);
            crate::wire::lemma_offset_chain(nt_offset as int, b, domain_offset as int);
            crate::wire::lemma_offset_chain(domain_offset as int, c, user_offset as int);
            crate::wire::lemma_offset_chain(user_offset as int, d, workstation_offset as int);
            crate::wire::lemma_offset_chain(workstation_offset as int, e, session_offset as int);
            assert((nt_offset as int + b) % 0x1_0000_0000 == (base + a + b) % 0x1_0000_0000);
            assert((domain_offset as int) % 0x1_0000_0000 == (base + a + b) % 0x1_0000_0000);
            assert((domain_offset as int + c) % 0x1_0000_0000 == (base + a + b + c) % 0x1_0000_0000) by {
                crate::wire::lemma_offset_chain(base + a, b, domain_offset as int);
            }
            assert((user_offset as int) % 0x1_0000_0000 == (base + a + b + c) % 0x1_0000_0000);
            assert((user_offset as int + d) % 0x1_0000_0000 == (base + a + b + c + d) % 0x1_0000_0000) by {
                crate::wire::lemma_offset_chain(base + a + b, c, user_offset as int);
            }
            assert((workstation_offset as int) % 0x1_0000_0000 == (base + a + b + c + d) % 0x1_0000_0000);
            assert((workstation_offset as int + e) % 0x1_0000_0000 == (base + a + b + c + d + e) % 0x1_0000_0000) by {
                crate::wire::lemma_offset_chain(base + a + b + c, d, workstation_offset as int);
            }
            lemma_secbuf_mod(b, nt_offset as int, base + a);
            lemma_secbuf_mod(c, domain_offset as int, base + a + b);
            lemma_secbuf_mod(d, user_offset as int, base + a + b + c);
            lemma_secbuf_mod(e, workstation_offset as int, base + a + b + c + d);
            lemma_secbuf_mod(self.encrypted_session_key@.len() as int, session_offset as int, base + a + b + c + d + e);
        }
        let mut out: Vec<u8> = Vec::new();
        push_signature(&mut out);
        push_le32(&mut out, TYPE_AUTHENTICATE);
        push_secbuf(&mut out, self.lm_response.len(), lm_offset);
        push_secbuf(&mut out, self.nt_response.len(), nt_offset);
        push_secbuf(&mut out, domain_bytes.len(), domain_offset);
        push_secbuf(&mut out, user_bytes.len(), user_offset);
        push_secbuf(&mut out, workstation_bytes.len(), workstation_offset);
        push_secbuf(&mut out, self.encrypted_session_key.len(), session_offset);
        push_le32(&mut out, flags);
        push_opt_version(&mut out, self.version);
        if let Some(mic) = self.mic {
            push_bytes(&mut out, mic.as_slice());
        }
        push_bytes(&mut out, self.lm_response.as_slice());
        push_bytes(&mut out, self.nt_response.as_slice());
        push_bytes(&mut out, domain_bytes.as_slice());
        push_bytes(&mut out, user_bytes.as_slice());
        push_bytes(&mut out, workstation_bytes.as_slice());
        push_bytes(&mut out, self.encrypted_session_key.as_slice());
        out
    }

    /// Decodes an authenticate message.
    #[verifier::rlimit(60)]
    pub fn decode(data: &[u8]) -> (r: ProtoResult<AuthenticateMessage>)
        requires
            !authenticate_reads_past_end(data@),
        ensures
            match r {
                Ok(m) => authenticate_decode(data@) == Some(m@),
                Err(e) => authenticate_decode(data@) is None && e is Parse,
            },
    {
        if data.len() < 64 || !has_signature(data) {
            return Err(ProtoError::Parse("invalid NTLM authenticate"));
        }
        let message_type = read_le32(data, 8);
        if message_type != TYPE_AUTHENTICATE {
            return Err(ProtoError::Parse("invalid NTLM authenticate type"));
        }
        let (lm_len, lm_offset) = read_security_buffer(data, 12);
        let (nt_len, nt_offset) = read_security_buffer(data, 20);
        let (domain_len, domain_offset) = read_security_buffer(data, 28);
        let (user_len, user_offset) = read_security_buffer(data, 36);
        let (workstation_len, workstation_offset) = read_security_buffer(data, 44);
        let (session_len, session_offset) = read_security_buffer(data, 52);
        let flags = read_le32(data, 60);
        let mut cursor: usize = 64;
        let version = if data.len() >= 72 && (flags & NEGOTIATE_VERSION) != 0 {
            cursor = 72;
            Some(Version { major: data[64], minor: data[65], build: crate::wire::read_le16(data, 66), ntlm_rev: data[71] })
        } else {
            None
        };
        let payload_start = compute_payload_start(data);
        assert(cursor == mic_cursor(data@));
        let mic = if cursor + 16 <= payload_start {
            Some(read_mic(data, cursor))
        } else {
            None
        };
        let lm_response = read_bytes(data, lm_offset, lm_len)?;
        let nt_response = read_bytes(data, nt_offset, nt_len)?;
        let domain = read_string(data, domain_offset, domain_len, flags)?;
        let user = read_string(data, user_offset, user_len, flags)?;
        let workstation = read_string(data, workstation_offset, workstation_len, flags)?;
        let encrypted_session_key = read_bytes(data, session_offset, session_len)?;
        Ok(AuthenticateMessage {
            lm_response,
            nt_response,
            domain,
            user,
            workstation,
            encrypted_session_key,
            flags,
            version,
            mic,
        })
    }
}

/// Any of the three NTLM messages.
#[derive(Debug, Clone, PartialEq, Eq)]
pub enum NtlmMessage {
    Negotiate(NegotiateMessage),
    Challenge(ChallengeMessage),
    Authenticate(AuthenticateMessage),
}

/// Wire image of any NTLM message.
pub open spec fn ntlm_message_bytes(m: NtlmMessage) -> Seq<u8> {
    match m {
        NtlmMessage::Negotiate(msg) => negotiate_bytes(msg@),
        NtlmMessage::Challenge(msg) => challenge_bytes(msg@),
        NtlmMessage::Authenticate(msg) => authenticate_bytes(msg@),
    }
}

/// Whether `m` is the message that `d` holds.
pub open spec fn ntlm_message_decodes_to(d: Seq<u8>, m: NtlmMessage) -> bool {
    match m {
        NtlmMessage::Negotiate(msg) => get_le32(d, 8) == TYPE_NEGOTIATE && negotiate_decode(d) == Some(msg@),
        NtlmMessage::Challenge(msg) => get_le32(d, 8) == TYPE_CHALLENGE && challenge_decode(d) == Some(msg@),
        NtlmMessage::Authenticate(msg) => get_le32(d, 8) == TYPE_AUTHENTICATE && authenticate_decode(d) == Some(msg@),
    }
}

/// Whether `d` holds some NTLM message.
pub open spec fn ntlm_message_valid(d: Seq<u8>) -> bool {
    d.len() >= 12 && d.subrange(0, 8) == signature() && (
        (get_le32(d, 8) == TYPE_NEGOTIATE && negotiate_decode(d) is Some)
        || (get_le32(d, 8) == TYPE_CHALLENGE && challenge_decode(d) is Some)
        || (get_le32(d, 8) == TYPE_AUTHENTICATE && authenticate_decode(d) is Some))
}

impl NtlmMessage {
    /// Encodes the message.
    pub fn encode(&self) -> (out: Vec<u8>)
        ensures
            out@ == ntlm_message_bytes(*self),
    {
        match self {
            NtlmMessage::Negotiate(msg) => msg.encode(),
            NtlmMessage::Challenge(msg) => msg.encode(),
            NtlmMessage::Authenticate(msg) => msg.encode(),
        }
    }

    /// Decodes whichever message `data` holds, by its type field.
    pub fn decode(data: &[u8]) -> (r: ProtoResult<NtlmMessage>)
        requires
            !authenticate_reads_past_end(data@),
        ensures
            match r {
                Ok(m) => ntlm_message_decodes_to(data@, m),
                Err(e) => !ntlm_message_valid(data@) && e is Parse,
            },
    {
        if data.len() < 12 || !has_signature(data) {
            return Err(ProtoError::Parse("invalid NTLM message"));
        }
        let message_type = read_le32(data, 8);
        if message_type == TYPE_NEGOTIATE {
            Ok(NtlmMessage::Negotiate(NegotiateMessage::decode(data)?))
        } else if message_type == TYPE_CHALLENGE {
            Ok(NtlmMessage::Challenge(ChallengeMessage::decode(data)?))
        } else if message_type == TYPE_AUTHENTICATE {
            Ok(NtlmMessage::Authenticate(AuthenticateMessage::decode(data)?))
        } else {
            Err(ProtoError::Parse("invalid NTLM message type"))
        }
    }
}

} // verus!
