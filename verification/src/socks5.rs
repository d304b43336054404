//! SOCKS5 (RFC 1928): the authentication methods, the commands and the address field.
use vstd::prelude::*;
use vstd::utf8::encode_utf8;
use crate::error::{ProtoError, ProtoResult};
use crate::text::{lemma_lossy_of_utf8, lossy_text, string_from_utf8_lossy, utf8_bytes};
use crate::wire::{be16, copy_range, push_be16, push_bytes};
use crate::credentials::{user_password, UserTable};

verus! {

pub const SOCKS5_DEFAULT_PORT: u16 = 1080;

/// How a client authenticates.
#[derive(Debug, Clone, Copy, PartialEq, Eq, Structural)]
pub enum Socks5AuthMethod {
    NoAuth,
    UserPass,
}

/// The wire code of an authentication method.
pub open spec fn auth_method_code(m: Socks5AuthMethod) -> u8 {
    match m {
        Socks5AuthMethod::NoAuth => 0x00,
        Socks5AuthMethod::UserPass => 0x02,
    }
}

impl Socks5AuthMethod {
    /// The wire code.
    pub fn code(self) -> (c: u8)
        ensures
            c == auth_method_code(self),
    {
        match self {
            Socks5AuthMethod::NoAuth => 0x00,
            Socks5AuthMethod::UserPass => 0x02,
        }
    }
}

/// What a client asks the proxy to do.
#[derive(Debug, Clone, Copy, PartialEq, Eq, Structural)]
pub enum Socks5Command {
    Connect,
    Bind,
    UdpAssociate,
}

/// The wire code of a command.
pub open spec fn command_code(c: Socks5Command) -> u8 {
    match c {
        Socks5Command::Connect => 0x01,
        Socks5Command::Bind => 0x02,
        Socks5Command::UdpAssociate => 0x03,
    }
}

impl Socks5Command {
    /// The wire code.
    pub fn code(self) -> (c: u8)
        ensures
            c == command_code(self),
    {
        match self {
            Socks5Command::Connect => 0x01,
            Socks5Command::Bind => 0x02,
            Socks5Command::UdpAssociate => 0x03,
        }
    }
}

/// A destination: an IPv4 address, an IPv6 address or a domain name.
#[derive(Debug, Clone, PartialEq, Eq)]
pub enum Socks5Address {
    IpV4([u8; 4]),
    IpV6([u8; 16]),
    Domain(String),
}

/// Abstract value of an address.
pub enum AddressModel {
    IpV4(Seq<u8>),
    IpV6(Seq<u8>),
    Domain(Seq<char>),
}

impl View for Socks5Address {
    type V = AddressModel;

    open spec fn view(&self) -> AddressModel {
        match self {
            Socks5Address::IpV4(o) => AddressModel::IpV4(o@),
            Socks5Address::IpV6(o) => AddressModel::IpV6(o@),
            Socks5Address::Domain(n) => AddressModel::Domain(n@),
        }
    }
}

/// The image of an address: its type, then the octets, or the name's length (cut to a
/// byte) and its UTF-8 bytes.
pub open spec fn address_bytes(a: AddressModel) -> Seq<u8> {
    match a {
        AddressModel::IpV4(o) => seq![0x01u8] + o,
        AddressModel::Domain(n) => seq![0x03u8, (encode_utf8(n).len() % 256) as u8] + encode_utf8(n),
        AddressModel::IpV6(o) => seq![0x04u8] + o,
    }
}

/// Reading an address at `i`: the address and the position after it, or the error and
/// the position where reading stopped.
pub open spec fn address_read(d: Seq<u8>, i: int) -> Result<(AddressModel, int), (ProtoError, int)> {
    if i >= d.len() {
        Err((ProtoError::Parse("socks5 address eof"), i))
    } else {
        let t = d[i];
        let j = i + 1;
        if t == 0x01 {
            if j + 4 > d.len() {
                Err((ProtoError::Parse("socks5 ipv4"), j))
            } else {
                Ok((AddressModel::IpV4(d.subrange(j, j + 4)), j + 4))
            }
        } else if t == 0x03 {
            if j >= d.len() {
                Err((ProtoError::Parse("socks5 domain len"), j))
            } else {
                let len = d[j] as int;
                if j + 1 + len > d.len() {
                    Err((ProtoError::Parse("socks5 domain"), j + 1))
                } else {
                    Ok((AddressModel::Domain(lossy_text(d.subrange(j + 1, j + 1 + len))), j + 1 + len))
                }
            }
        } else if t == 0x04 {
            if j + 16 > d.len() {
                Err((ProtoError::Parse("socks5 ipv6"), j))
            } else {
                Ok((AddressModel::IpV6(d.subrange(j, j + 16)), j + 16))
            }
        } else {
            Err((ProtoError::Parse("socks5 unknown address"), j))
        }
    }
}

impl Socks5Address {
    /// Appends the image of the address.
    pub fn encode(&self, out: &mut Vec<u8>)
        ensures
            final(out)@ == old(out)@ + address_bytes(self@),
    {
        let ghost start = out@;
        match self {
            Socks5Address::IpV4(o) => {
                out.push(0x01);
                push_bytes(out, o.as_slice());
            },
            Socks5Address::Domain(name) => {
                let b = utf8_bytes(name.as_str());
                out.push(0x03);
                out.push((b.len() % 256) as u8);
                push_bytes(out, b.as_slice());
            },
            Socks5Address::IpV6(o) => {
                out.push(0x04);
                push_bytes(out, o.as_slice());
            },
        }
        assert(out@ =~= start + address_bytes(self@));
    }

    /// Reads the address at `*idx`, moving `*idx` past what was read.
    pub fn decode(data: &[u8], idx: &mut usize) -> (r: ProtoResult<Socks5Address>)
        requires
            *old(idx) <= data.len(),
        ensures
            match address_read(data@, *old(idx) as int) {
                Ok((a, j)) => r matches Ok(v) && v@ == a && *final(idx) == j,
                Err((e, j)) => r == Err::<Socks5Address, ProtoError>(e) && *final(idx) == j,
            },
    {
        if *idx >= data.len() {
            return Err(ProtoError::Parse("socks5 address eof"));
        }
        let atyp = data[*idx];
        *idx = *idx + 1;
        if atyp == 0x01 {
            if data.len() - *idx < 4 {
                return Err(ProtoError::Parse("socks5 ipv4"));
            }
            let i = *idx;
            let o = [data[i], data[i + 1], data[i + 2], data[i + 3]];
            assert(o@ =~= data@.subrange(i as int, i + 4));
            *idx = i + 4;
            Ok(Socks5Address::IpV4(o))
        } else if atyp == 0x03 {
            if *idx >= data.len() {
                return Err(ProtoError::Parse("socks5 domain len"));
            }
            let len = data[*idx] as usize;
            *idx = *idx + 1;
            if data.len() - *idx < len {
                return Err(ProtoError::Parse("socks5 domain"));
            }
            let bytes = copy_range(data, *idx, len);
            let name = string_from_utf8_lossy(bytes.as_slice());
            *idx = *idx + len;
            Ok(Socks5Address::Domain(name))
        } else if atyp == 0x04 {
            if data.len() - *idx < 16 {
                return Err(ProtoError::Parse("socks5 ipv6"));
            }
            let i = *idx;
            let o = [data[i], data[i + 1], data[i + 2], data[i + 3], data[i + 4], data[i + 5], data[i + 6], data[i + 7],
                data[i + 8], data[i + 9], data[i + 10], data[i + 11], data[i + 12], data[i + 13], data[i + 14], data[i + 15]];
            assert(o@ =~= data@.subrange(i as int, i + 16));
            *idx = i + 16;
            Ok(Socks5Address::IpV6(o))
        } else {
            Err(ProtoError::Parse("socks5 unknown address"))
        }
    }
}

/// Reading back the image of an address gives the address and the position after the
/// image, wherever it stands, when a domain name's UTF-8 form is shorter than 256 bytes
/// and IP addresses have their length.
pub proof fn lemma_address_roundtrip(pre: Seq<u8>, a: AddressModel, post: Seq<u8>)
    requires
        a matches AddressModel::IpV4(o) ==> o.len() == 4,
        a matches AddressModel::IpV6(o) ==> o.len() == 16,
        a matches AddressModel::Domain(n) ==> encode_utf8(n).len() < 256,
    ensures
        address_read(pre + address_bytes(a) + post, pre.len() as int) == Ok::<(AddressModel, int), (ProtoError, int)>(
            (a, (pre.len() + address_bytes(a).len()) as int),
        ),
{
    let d = pre + address_bytes(a) + post;
    let i = pre.len() as int;
    let b = address_bytes(a);
    assert(d.subrange(i, i + b.len()) =~= b);
    assert forall|k: int| 0 <= k < b.len() implies d[i + k] == b[k] by {
        assert(d.subrange(i, i + b.len())[k] == b[k]);
    }
    match a {
        AddressModel::IpV4(o) => {
            assert(d.subrange(i + 1, i + 5) =~= o);
        },
        AddressModel::IpV6(o) => {
            assert(d.subrange(i + 1, i + 17) =~= o);
        },
        AddressModel::Domain(n) => {
            let u = encode_utf8(n);
            assert(d[i + 1] == (u.len() % 256) as u8);
            assert(d.subrange(i + 2, i + 2 + u.len()) =~= u);
            lemma_lossy_of_utf8(n);
        },
    }
}

/// The server's settings: the users it accepts; with none, clients need not authenticate.
pub struct Socks5ServerConfig {
    pub users: UserTable,
}

impl Default for Socks5ServerConfig {
    fn default() -> (c: Self)
        ensures
            c.users.entries().len() == 0,
    {
        Socks5ServerConfig { users: UserTable::new() }
    }
}

/// The method the server picks from those a client offers: no authentication when no
/// users are configured, else user and password; 0xff when the client does not offer it.
pub open spec fn chosen_method(no_users: bool, offered: Seq<u8>) -> u8 {
    let wanted = if no_users { auth_method_code(Socks5AuthMethod::NoAuth) } else { auth_method_code(Socks5AuthMethod::UserPass) };
    if offered.contains(wanted) { wanted } else { 0xff }
}

/// Picks the authentication method for a client's greeting.
pub fn choose_method(config: &Socks5ServerConfig, offered: &[u8]) -> (r: u8)
    ensures
        r == chosen_method(config.users.entries().len() == 0, offered@),
{
    let wanted: u8 = if config.users.len() == 0 { Socks5AuthMethod::NoAuth.code() } else { Socks5AuthMethod::UserPass.code() };
    let mut i: usize = 0;
    while i < offered.len()
        invariant
            i <= offered.len(),
            forall|k: int| 0 <= k < i ==> offered@[k] != wanted,
            wanted == if config.users.entries().len() == 0 { 0x00u8 } else { 0x02u8 },
        decreases offered.len() - i,
    {
        if offered[i] == wanted {
            assert(offered@.contains(wanted)) by {
                assert(offered@[i as int] == wanted);
            }
            return wanted;
        }
        i = i + 1;
    }
    0xff
}

/// Whether a user and password sub-negotiation logs the client in: the name and the
/// password, read as UTF-8 with bad sequences replaced, are a configured pair.
pub open spec fn userpass_ok(users: Seq<(String, String)>, name: Seq<u8>, pass: Seq<u8>) -> bool {
    user_password(users, lossy_text(name)) == Some(lossy_text(pass))
}

/// Checks a user and password sub-negotiation.
pub fn check_userpass(config: &Socks5ServerConfig, name: &[u8], pass: &[u8]) -> (r: bool)
    ensures
        r == userpass_ok(config.users.entries(), name@, pass@),
{
    let u = string_from_utf8_lossy(name);
    let p = string_from_utf8_lossy(pass);
    config.users.check(u.as_str(), p.as_str())
}

/// The server's reply to a request: version, code, a reserved zero, then the bound
/// address and its big-endian port.
pub open spec fn reply_bytes(code: u8, bound: AddressModel, port: u16) -> Seq<u8> {
    seq![0x05u8, code, 0x00] + address_bytes(bound) + be16(port)
}

/// Builds the server's reply to a request.
pub fn build_reply(code: u8, bound: &Socks5Address, port: u16) -> (out: Vec<u8>)
    ensures
        out@ == reply_bytes(code, bound@, port),
{
    let mut out: Vec<u8> = Vec::new();
    out.push(0x05);
    out.push(code);
    out.push(0x00);
    bound.encode(&mut out);
    push_be16(&mut out, port);
    assert(out@ =~= reply_bytes(code, bound@, port));
    out
}

} // verus!
