//! The MySQL connection handshake: the server's greeting, the client's reply, and the
//! `mysql_native_password` scramble.
use vstd::prelude::*;
use vstd::utf8::encode_utf8;
use crate::error::{ProtoError, ProtoResult};
use crate::mysql::wire::{decode_lenenc_int, lenenc_read, nt_read, read_null_terminated};
use crate::text::{lossy_text, utf8_bytes};
use crate::wire::{copy_range, get_le16, get_le32, le16, le32, push_bytes, push_le16, push_le32, read_le16, read_le32};

verus! {

/// The protocol version of the greeting.
pub const PROTOCOL_VERSION: u8 = 0x0A;
/// Server status: autocommit is on.
pub const SERVER_STATUS_AUTOCOMMIT: u16 = 0x0002;
/// Capability: long passwords.
pub const CLIENT_LONG_PASSWORD: u32 = 0x0000_0001;
/// Capability: long column flags.
pub const CLIENT_LONG_FLAG: u32 = 0x0000_0004;
/// Capability: a database is named in the handshake response.
pub const CLIENT_CONNECT_WITH_DB: u32 = 0x0000_0008;
/// Capability: the 4.1 protocol.
pub const CLIENT_PROTOCOL_41: u32 = 0x0000_0200;
/// Capability: the 4.1 authentication.
pub const CLIENT_SECURE_CONNECTION: u32 = 0x0000_8000;
/// Capability: authentication plugins.
pub const CLIENT_PLUGIN_AUTH: u32 = 0x0008_0000;
/// Capability: a length-encoded authentication response.
pub const CLIENT_PLUGIN_AUTH_LENENC_CLIENT_DATA: u32 = 0x0020_0000;

/// Whether the capability bit `flag` (a power of two) is set in `caps`.
pub open spec fn has_cap(caps: u32, flag: u32) -> bool {
    (caps / flag) % 2 == 1
}

/// The server's greeting.
pub struct MysqlHandshake {
    pub server_version: String,
    pub connection_id: u32,
    pub auth_plugin_data: [u8; 20],
    pub capability_flags: u32,
    pub character_set: u8,
    pub status_flags: u16,
    pub auth_plugin_name: String,
}

/// The greeting as a value.
pub struct HandshakeModel {
    pub server_version: Seq<char>,
    pub connection_id: u32,
    pub auth_plugin_data: Seq<u8>,
    pub capability_flags: u32,
    pub character_set: u8,
    pub status_flags: u16,
    pub auth_plugin_name: Seq<char>,
}

impl View for MysqlHandshake {
    type V = HandshakeModel;

    open spec fn view(&self) -> HandshakeModel {
        HandshakeModel {
            server_version: self.server_version@,
            connection_id: self.connection_id,
            auth_plugin_data: self.auth_plugin_data@,
            capability_flags: self.capability_flags,
            character_set: self.character_set,
            status_flags: self.status_flags,
            auth_plugin_name: self.auth_plugin_name@,
        }
    }
}

/// `n` zero bytes.
pub open spec fn zeros(n: nat) -> Seq<u8> {
    Seq::new(n, |i: int| 0u8)
}

/// The bytes of a greeting: protocol 10, the version NUL-terminated, the connection id,
/// the first 8 scramble bytes, a filler, the low capabilities, the character set, the status,
/// the high capabilities, the scramble length 21, 10 reserved bytes, the last 12 scramble
/// bytes with a NUL, and the plugin name NUL-terminated.
pub open spec fn handshake_bytes(h: HandshakeModel) -> Seq<u8> {
    seq![PROTOCOL_VERSION] + encode_utf8(h.server_version).push(0) + le32(h.connection_id)
        + h.auth_plugin_data.subrange(0, 8) + seq![0u8] + le16((h.capability_flags % 65536) as u16) + seq![
        h.character_set,
    ] + le16(h.status_flags) + le16((h.capability_flags / 65536) as u16) + seq![21u8] + zeros(10)
        + h.auth_plugin_data.subrange(8, 20) + seq![0u8] + encode_utf8(h.auth_plugin_name).push(0)
}

/// The name of the native password plugin.
pub open spec fn native_plugin_name() -> Seq<char> {
    "mysql_native_password"@
}

/// The greeting that `p` holds. The second part of the scramble is read over
/// max(13, length - 8) bytes, as many as there are, of which the first 12 are kept; with no
/// bytes left after it the plugin is the native one.
pub open spec fn handshake_read(p: Seq<u8>) -> Option<HandshakeModel> {
    if p.len() == 0 || p[0] != PROTOCOL_VERSION {
        None
    } else {
        match nt_read(p, 1) {
            None => None,
            Some((version, i)) => {
                let i1 = i + 4;
                let i2 = i1 + 9;
                let i3 = i2 + 2;
                let i4 = i3 + 1;
                let i5 = i4 + 2;
                let i6 = i5 + 2;
                if i1 > p.len() || i1 + 8 > p.len() || i2 + 2 > p.len() || i3 >= p.len() || i4 + 2 > p.len() || i5
                    + 2 > p.len() {
                    None
                } else {
                    let adl: int = if i6 < p.len() { p[i6] as int } else { 0 };
                    let i7 = i6 + 11;
                    let remaining: int = if p.len() > i7 { p.len() - i7 } else { 0 };
                    let tail: int = if adl > 8 { adl - 8 } else { 0 };
                    let needed: int = if tail > 13 { tail } else { 13 };
                    let second: int = if remaining < needed { remaining } else { needed };
                    if i7 + second > p.len() {
                        None
                    } else {
                        let copy: int = if second < 12 { second } else { 12 };
                        let scramble = p.subrange(i1, i1 + 8) + p.subrange(i7, i7 + copy) + zeros((12 - copy) as nat);
                        let i8 = i7 + second;
                        let name = if i8 < p.len() {
                            nt_read(p, i8)
                        } else {
                            Some((native_plugin_name(), i8))
                        };
                        match name {
                            None => None,
                            Some((plugin, _)) => Some(
                                HandshakeModel {
                                    server_version: version,
                                    connection_id: get_le32(p, i),
                                    auth_plugin_data: scramble,
                                    capability_flags: (get_le16(p, i2) + 65536 * get_le16(p, i5)) as u32,
                                    character_set: p[i3],
                                    status_flags: get_le16(p, i4),
                                    auth_plugin_name: plugin,
                                },
                            ),
                        }
                    }
                }
            },
        }
    }
}

impl MysqlHandshake {
    /// The bytes of the greeting.
    pub fn encode(&self) -> (r: Vec<u8>)
        ensures
            r@ == handshake_bytes(self@),
    {
        let mut out: Vec<u8> = vec![PROTOCOL_VERSION];
        let v = utf8_bytes(self.server_version.as_str());
        push_bytes(&mut out, v.as_slice());
        out.push(0);
        push_le32(&mut out, self.connection_id);
        let first = copy_range(&self.auth_plugin_data, 0, 8);
        push_bytes(&mut out, first.as_slice());
        out.push(0);
        push_le16(&mut out, (self.capability_flags % 65536) as u16);
        out.push(self.character_set);
        push_le16(&mut out, self.status_flags);
        push_le16(&mut out, (self.capability_flags / 65536) as u16);
        out.push(21);
        let z: Vec<u8> = vec![0u8; 10];
        push_bytes(&mut out, z.as_slice());
        let second = copy_range(&self.auth_plugin_data, 8, 12);
        push_bytes(&mut out, second.as_slice());
        out.push(0);
        let n = utf8_bytes(self.auth_plugin_name.as_str());
        push_bytes(&mut out, n.as_slice());
        out.push(0);
        assert(z@ =~= zeros(10));
        assert(out@ =~= handshake_bytes(self@));
        out
    }

    /// The greeting that `payload` holds.
    pub fn decode(payload: &[u8]) -> (r: ProtoResult<MysqlHandshake>)
        ensures
            r is Ok <==> handshake_read(payload@) is Some,
            r matches Ok(h) ==> handshake_read(payload@) == Some(h@),
    {
        if payload.len() == 0 {
            return Err(ProtoError::Parse("mysql handshake empty"));
        }
        if payload[0] != PROTOCOL_VERSION {
            return Err(ProtoError::Parse("mysql protocol unsupported"));
        }
        let mut idx: usize = 1;
        let server_version = read_null_terminated(payload, &mut idx)?;
        let i = idx;
        if payload.len() < 4 || i > payload.len() - 4 {
            return Err(ProtoError::Parse("mysql handshake conn id"));
        }
        let connection_id = read_le32(payload, i);
        let i1 = i + 4;
        if payload.len() - i1 < 8 {
            return Err(ProtoError::Parse("mysql handshake scramble"));
        }
        let first = copy_range(payload, i1, 8);
        if payload.len() - i1 < 11 {
            return Err(ProtoError::Parse("mysql handshake caps"));
        }
        let i2 = i1 + 9;
        let caps_low = read_le16(payload, i2);
        let i3 = i2 + 2;
        if i3 >= payload.len() {
            return Err(ProtoError::Parse("mysql handshake charset"));
        }
        let character_set = payload[i3];
        let i4 = i3 + 1;
        if payload.len() - i4 < 2 {
            return Err(ProtoError::Parse("mysql handshake status"));
        }
        let status_flags = read_le16(payload, i4);
        let i5 = i4 + 2;
        if payload.len() - i5 < 2 {
            return Err(ProtoError::Parse("mysql handshake caps2"));
        }
        let caps_high = read_le16(payload, i5);
        let i6 = i5 + 2;
        let capability_flags: u32 = caps_low as u32 + 65536 * (caps_high as u32);
        let adl: usize = if i6 < payload.len() {
            payload[i6] as usize
        } else {
            0
        };
        if payload.len() - i6 < 11 {
            return Err(ProtoError::Parse("mysql handshake scramble2"));
        }
        let i7 = i6 + 11;
        let remaining: usize = payload.len() - i7;
        let tail: usize = if adl > 8 {
            adl - 8
        } else {
            0
        };
        let needed: usize = if tail > 13 {
            tail
        } else {
            13
        };
        let second: usize = if remaining < needed {
            remaining
        } else {
            needed
        };
        if i7 > payload.len() || payload.len() - i7 < second {
            return Err(ProtoError::Parse("mysql handshake scramble2"));
        }
        let copy: usize = if second < 12 {
            second
        } else {
            12
        };
        let mid = copy_range(payload, i7, copy);
        let mut scramble = [0u8; 20];
        let mut k: usize = 0;
        while k < 20
            invariant
                k <= 20,
                first@.len() == 8,
                mid@.len() == copy,
                copy <= 12,
                forall|j: int| 0 <= j < k ==> scramble@[j] == (if j < 8 {
                    first@[j]
                } else if j < 8 + copy {
                    mid@[j - 8]
                } else {
                    0u8
                }),
            decreases 20 - k,
        {
            let b = if k < 8 {
                first[k]
            } else if k < 8 + copy {
                mid[k - 8]
            } else {
                0u8
            };
            scramble.set(k, b);
            k = k + 1;
        }
        assert(scramble@ =~= first@ + mid@ + zeros((12 - copy) as nat));
        let i8 = i7 + second;
        let auth_plugin_name = if i8 < payload.len() {
            let mut j = i8;
            read_null_terminated(payload, &mut j)?
        } else {
            String::from_str("mysql_native_password")
        };
        Ok(
            MysqlHandshake {
                server_version,
                connection_id,
                auth_plugin_data: scramble,
                capability_flags,
                character_set,
                status_flags,
                auth_plugin_name,
            },
        )
    }
}

// ---------------------------------------------------------------------------
// The client's reply
// ---------------------------------------------------------------------------

/// The client's reply to the greeting.
pub struct MysqlHandshakeResponse {
    pub capability_flags: u32,
    pub max_packet_size: u32,
    pub character_set: u8,
    pub username: String,
    pub auth_response: Vec<u8>,
    pub database: Option<String>,
    pub auth_plugin_name: Option<String>,
}

/// The reply as a value.
pub struct ResponseModel {
    pub capability_flags: u32,
    pub max_packet_size: u32,
    pub character_set: u8,
    pub username: Seq<char>,
    pub auth_response: Seq<u8>,
    pub database: Option<Seq<char>>,
    pub auth_plugin_name: Option<Seq<char>>,
}

/// The characters of an optional string.
pub open spec fn opt_text(s: Option<String>) -> Option<Seq<char>> {
    match s {
        Some(t) => Some(t@),
        None => None,
    }
}

impl View for MysqlHandshakeResponse {
    type V = ResponseModel;

    open spec fn view(&self) -> ResponseModel {
        ResponseModel {
            capability_flags: self.capability_flags,
            max_packet_size: self.max_packet_size,
            character_set: self.character_set,
            username: self.username@,
            auth_response: self.auth_response@,
            database: opt_text(self.database),
            auth_plugin_name: opt_text(self.auth_plugin_name),
        }
    }
}

/// Reads the authentication response at `i`: length-encoded when the capability says so,
/// else one length byte (nothing at all when no byte is left).
pub open spec fn auth_read(p: Seq<u8>, i: int, caps: u32) -> Option<(Seq<u8>, int)> {
    if has_cap(caps, CLIENT_PLUGIN_AUTH_LENENC_CLIENT_DATA) {
        match lenenc_read(p, i) {
            None => None,
            Some((n, j)) => if j + n > p.len() {
                None
            } else {
                Some((p.subrange(j, j + n), j + n))
            },
        }
    } else if i >= p.len() {
        Some((Seq::empty(), i))
    } else {
        let n = p[i] as int;
        if i + 1 + n > p.len() {
            None
        } else {
            Some((p.subrange(i + 1, i + 1 + n), i + 1 + n))
        }
    }
}

/// The reply that `p` holds.
pub open spec fn response_read(p: Seq<u8>) -> Option<ResponseModel> {
    if p.len() < 36 {
        None
    } else {
        let caps = get_le32(p, 0);
        match nt_read(p, 32) {
            None => None,
            Some((user, i1)) => match auth_read(p, i1, caps) {
                None => None,
                Some((auth, i2)) => {
                    let db = if has_cap(caps, CLIENT_CONNECT_WITH_DB) {
                        match nt_read(p, i2) {
                            Some((d, k)) => Some((Some(d), k)),
                            None => None,
                        }
                    } else {
                        Some((None, i2))
                    };
                    match db {
                        None => None,
                        Some((database, i3)) => {
                            let plugin = if has_cap(caps, CLIENT_PLUGIN_AUTH) && i3 < p.len() {
                                match nt_read(p, i3) {
                                    Some((n, _)) => Some(Some(n)),
                                    None => None,
                                }
                            } else {
                                Some(None)
                            };
                            match plugin {
                                None => None,
                                Some(auth_plugin_name) => Some(
                                    ResponseModel {
                                        capability_flags: caps,
                                        max_packet_size: get_le32(p, 4),
                                        character_set: p[8],
                                        username: user,
                                        auth_response: auth,
                                        database,
                                        auth_plugin_name,
                                    },
                                ),
                            }
                        },
                    }
                },
            },
        }
    }
}

impl MysqlHandshakeResponse {
    /// The reply that `payload` holds.
    pub fn decode(payload: &[u8]) -> (r: ProtoResult<MysqlHandshakeResponse>)
        ensures
            r is Ok <==> response_read(payload@) is Some,
            r matches Ok(m) ==> response_read(payload@) == Some(m@),
    {
        if payload.len() < 36 {
            return Err(ProtoError::Parse("mysql handshake response too short"));
        }
        let capability_flags = read_le32(payload, 0);
        let max_packet_size = read_le32(payload, 4);
        let character_set = payload[8];
        let mut idx: usize = 32;
        let username = read_null_terminated(payload, &mut idx)?;
        let auth_response = if (capability_flags / CLIENT_PLUGIN_AUTH_LENENC_CLIENT_DATA) % 2 == 1 {
            let n = decode_lenenc_int(payload, &mut idx)?;
            if ((payload.len() - idx) as u64) < n {
                return Err(ProtoError::Parse("mysql auth response len"));
            }
            let data = copy_range(payload, idx, n as usize);
            idx = idx + n as usize;
            data
        } else if idx >= payload.len() {
            Vec::new()
        } else {
            let n = payload[idx] as usize;
            if payload.len() - idx - 1 < n {
                return Err(ProtoError::Parse("mysql auth response bounds"));
            }
            let data = copy_range(payload, idx + 1, n);
            idx = idx + 1 + n;
            data
        };
        let database = if (capability_flags / CLIENT_CONNECT_WITH_DB) % 2 == 1 {
            Some(read_null_terminated(payload, &mut idx)?)
        } else {
            None
        };
        let auth_plugin_name = if (capability_flags / CLIENT_PLUGIN_AUTH) % 2 == 1 && idx < payload.len() {
            Some(read_null_terminated(payload, &mut idx)?)
        } else {
            None
        };
        Ok(
            MysqlHandshakeResponse {
                capability_flags,
                max_packet_size,
                character_set,
                username,
                auth_response,
                database,
                auth_plugin_name,
            },
        )
    }
}

/// The bytes of a client's reply: capabilities, a 16 MiB packet limit, the character set,
/// 23 reserved bytes, the user name NUL-terminated, the authentication response after its
/// length in one byte (cut to 8 bits), the database NUL-terminated when there is one, and the
/// plugin name NUL-terminated.
pub open spec fn response_bytes(
    caps: u32,
    character_set: u8,
    username: Seq<char>,
    auth: Seq<u8>,
    database: Option<Seq<char>>,
    plugin: Seq<char>,
) -> Seq<u8> {
    le32(caps) + le32(0x0100_0000) + seq![character_set] + zeros(23) + encode_utf8(username).push(0) + seq![
        (auth.len() % 256) as u8,
    ] + auth + (match database {
        Some(d) => encode_utf8(d).push(0),
        None => Seq::empty(),
    }) + encode_utf8(plugin).push(0)
}

/// The bytes of a client's reply to the greeting.
pub fn encode_handshake_response(
    capabilities: u32,
    character_set: u8,
    username: &str,
    auth_response: &[u8],
    database: Option<&str>,
    plugin_name: &str,
) -> (r: Vec<u8>)
    ensures
        r@ == response_bytes(
            capabilities,
            character_set,
            username@,
            auth_response@,
            match database {
                Some(d) => Some(d@),
                None => None,
            },
            plugin_name@,
        ),
{
    let mut out: Vec<u8> = Vec::new();
    push_le32(&mut out, capabilities);
    push_le32(&mut out, 0x0100_0000);
    out.push(character_set);
    let z: Vec<u8> = vec![0u8; 23];
    push_bytes(&mut out, z.as_slice());
    let u = utf8_bytes(username);
    push_bytes(&mut out, u.as_slice());
    out.push(0);
    out.push((auth_response.len() % 256) as u8);
    push_bytes(&mut out, auth_response);
    let ghost before_db = out@;
    match database {
        Some(db) => {
            let d = utf8_bytes(db);
            push_bytes(&mut out, d.as_slice());
            out.push(0);
        },
        None => {},
    }
    let n = utf8_bytes(plugin_name);
    push_bytes(&mut out, n.as_slice());
    out.push(0);
    assert(z@ =~= zeros(23));
    assert(out@ =~= response_bytes(
        capabilities,
        character_set,
        username@,
        auth_response@,
        match database {
            Some(d) => Some(d@),
            None => None,
        },
        plugin_name@,
    ));
    out
}

// ---------------------------------------------------------------------------
// mysql_native_password
// ---------------------------------------------------------------------------

/// The SHA-1 digest of `data`, as the `sha1` crate computes it.
pub uninterp spec fn sha1(data: Seq<u8>) -> Seq<u8>;

/// The SHA-1 digest of `data` (`<sha1::Sha1 as Digest>::digest`).
#[verifier::external_body]
fn sha1_digest(data: &[u8]) -> (r: [u8; 20])
    ensures
        r@ == sha1(data@),
{
    let d = <sha1::Sha1 as sha1::Digest>::digest(data);
    let mut out = [0u8; 20];
    out.copy_from_slice(d.as_slice());
    out
}

/// The `mysql_native_password` token: empty for an empty password, else
/// SHA1(password) XOR SHA1(scramble + SHA1(SHA1(password))), byte by byte.
pub open spec fn native_token(password: Seq<char>, scramble: Seq<u8>) -> Seq<u8> {
    if password.len() == 0 {
        Seq::empty()
    } else {
        let s1 = sha1(encode_utf8(password));
        let s3 = sha1(scramble + sha1(s1));
        Seq::new(if s1.len() < s3.len() { s1.len() } else { s3.len() }, |i: int| s1[i] ^ s3[i])
    }
}

/// The `mysql_native_password` token of `password` for `scramble`.
pub fn mysql_native_password_token(password: &str, scramble: &[u8; 20]) -> (r: Vec<u8>)
    ensures
        r@ == native_token(password@, scramble@),
{
    if password.is_empty() {
        return Vec::new();
    }
    let pw = utf8_bytes(password);
    let stage1 = sha1_digest(pw.as_slice());
    let stage2 = sha1_digest(&stage1);
    let mut combined: Vec<u8> = Vec::new();
    push_bytes(&mut combined, scramble);
    push_bytes(&mut combined, &stage2);
    let stage3 = sha1_digest(combined.as_slice());
    let mut out: Vec<u8> = Vec::new();
    let mut i: usize = 0;
    while i < 20
        invariant
            i <= 20,
            out@.len() == i,
            forall|k: int| 0 <= k < i ==> out@[k] == stage1@[k] ^ stage3@[k],
        decreases 20 - i,
    {
        out.push(stage1[i] ^ stage3[i]);
        i = i + 1;
    }
    assert(out@ =~= native_token(password@, scramble@));
    out
}

/// One step of the xorshift generator.
pub open spec fn xorshift(x: u64) -> u64 {
    let a = x ^ (x << 13u64);
    let b = a ^ (a >> 7u64);
    b ^ (b << 17u64)
}

/// `n` bytes of the xorshift stream from `x`: the low byte of each successive state.
pub open spec fn scramble_bytes(x: u64, n: nat) -> Seq<u8>
    decreases n,
{
    if n == 0 {
        Seq::empty()
    } else {
        let y = xorshift(x);
        seq![(y % 256) as u8] + scramble_bytes(y, (n - 1) as nat)
    }
}

/// The 20 scramble bytes that the xorshift stream gives from `x`.
pub fn scramble_from(x: u64) -> (r: [u8; 20])
    ensures
        r@ == scramble_bytes(x, 20),
{
    let mut out = [0u8; 20];
    let mut s = x;
    let mut i: usize = 0;
    while i < 20
        invariant
            i <= 20,
            out@.len() == 20,
            out@.subrange(0, i as int) + scramble_bytes(s, (20 - i) as nat) == scramble_bytes(x, 20),
        decreases 20 - i,
    {
        let a = s ^ (s << 13u64);
        let b = a ^ (a >> 7u64);
        let y = b ^ (b << 17u64);
        let ghost before = out@;
        out.set(i, (y % 256) as u8);
        proof {
            assert(y == xorshift(s));
            assert(out@.subrange(0, i + 1) =~= before.subrange(0, i as int).push((y % 256) as u8));
            assert(scramble_bytes(s, (20 - i) as nat) == seq![(y % 256) as u8] + scramble_bytes(y, (20 - i - 1) as nat));
            assert(before.subrange(0, i as int) + (seq![(y % 256) as u8] + scramble_bytes(y, (20 - i - 1) as nat))
                =~= before.subrange(0, i as int).push((y % 256) as u8) + scramble_bytes(y, (20 - i - 1) as nat));
        }
        s = y;
        i = i + 1;
    }
    assert(out@.subrange(0, 20) =~= out@);
    assert(scramble_bytes(s, 0) =~= Seq::<u8>::empty());
    assert(out@ + Seq::<u8>::empty() =~= out@);
    out
}

/// A fresh scramble: the xorshift stream from `seed` mixed with the clock's nanoseconds.
pub fn generate_scramble(seed: u64) -> (r: [u8; 20])
    ensures
        exists|t: u64| r@ == scramble_bytes(seed ^ t, 20),
{
    let t = crate::clock::unix_nanos();
    scramble_from(seed ^ t)
}

} // verus!
