//! Certificate enrollment (MS-CRTD style): certificate templates, enrollment requests and
//! issued certificates, their wire forms, and the server's answers.
use vstd::prelude::*;
use crate::error::{ProtoError, ProtoResult};
use crate::ms_dtyp::{hex_digit, hex_text};
use crate::text::{chars_of, lossy_text, str_eq, string_from_utf8_lossy, utf8_bytes};
use crate::wire::{
    be16, be32, be64, concat_map, copy_range, get_be16, get_be32, get_be64, lemma_concat_map_push, push_be16, push_be32,
    push_be64, push_bytes, read_be16, read_be32, read_be64,
};
use vstd::utf8::encode_utf8;

verus! {

/// A certificate template.
#[derive(Debug, Clone)]
pub struct CertificateTemplate {
    pub name: String,
    pub oid: String,
    pub eku: Vec<String>,
    pub flags: u32,
    pub validity_days: u32,
    pub renewal_days: u32,
}

/// A request for a certificate from a template.
#[derive(Debug, Clone)]
pub struct CertificateRequest {
    pub template: String,
    pub csr: Vec<u8>,
}

/// An issued certificate.
#[derive(Debug, Clone)]
pub struct CertificateResponse {
    pub template: String,
    pub issued_at: u64,
    pub serial: u64,
    pub data: Vec<u8>,
}

/// The kind of a message.
#[derive(Debug, Clone, Copy, PartialEq, Eq, Structural)]
pub enum CrtdMessageType {
    ListTemplates,
    GetTemplate,
    Enroll,
    Response,
    Error,
    Auth,
}

/// The code of each kind on the wire.
pub open spec fn type_code(t: CrtdMessageType) -> u8 {
    match t {
        CrtdMessageType::ListTemplates => 1,
        CrtdMessageType::GetTemplate => 2,
        CrtdMessageType::Enroll => 3,
        CrtdMessageType::Response => 4,
        CrtdMessageType::Error => 5,
        CrtdMessageType::Auth => 6,
    }
}

/// The kind with code `v`, if there is one.
pub open spec fn type_from(v: u8) -> Option<CrtdMessageType> {
    if v == 1 {
        Some(CrtdMessageType::ListTemplates)
    } else if v == 2 {
        Some(CrtdMessageType::GetTemplate)
    } else if v == 3 {
        Some(CrtdMessageType::Enroll)
    } else if v == 4 {
        Some(CrtdMessageType::Response)
    } else if v == 5 {
        Some(CrtdMessageType::Error)
    } else if v == 6 {
        Some(CrtdMessageType::Auth)
    } else {
        None
    }
}

impl CrtdMessageType {
    /// The code on the wire.
    pub fn code(&self) -> (c: u8)
        ensures
            c == type_code(*self),
    {
        match self {
            CrtdMessageType::ListTemplates => 1,
            CrtdMessageType::GetTemplate => 2,
            CrtdMessageType::Enroll => 3,
            CrtdMessageType::Response => 4,
            CrtdMessageType::Error => 5,
            CrtdMessageType::Auth => 6,
        }
    }
}

/// A message: its kind and payload.
#[derive(Debug, Clone)]
pub struct CrtdMessage {
    pub msg_type: CrtdMessageType,
    pub payload: Vec<u8>,
}

/// The bytes of a message: kind code, payload length (32 bits, big-endian, modulo 2^32),
/// payload.
pub open spec fn message_bytes(t: CrtdMessageType, payload: Seq<u8>) -> Seq<u8> {
    seq![type_code(t)] + be32((payload.len() % 0x1_0000_0000) as u32) + payload
}

/// The message at the start of `d`; `None` when the header is short, the kind unknown, or
/// the payload beyond the data. Bytes after the payload are ignored.
pub open spec fn message_decode(d: Seq<u8>) -> Option<(CrtdMessageType, Seq<u8>)> {
    if d.len() < 5 {
        None
    } else {
        match type_from(d[0]) {
            None => None,
            Some(t) => {
                let len = get_be32(d, 1) as int;
                if d.len() < 5 + len {
                    None
                } else {
                    Some((t, d.subrange(5, 5 + len)))
                }
            },
        }
    }
}

impl CrtdMessage {
    /// The bytes of the message.
    pub fn encode(&self) -> (out: Vec<u8>)
        ensures
            out@ == message_bytes(self.msg_type, self.payload@),
    {
        let mut out: Vec<u8> = Vec::new();
        out.push(self.msg_type.code());
        push_be32(&mut out, (self.payload.len() as u64 % 0x1_0000_0000) as u32);
        push_bytes(&mut out, self.payload.as_slice());
        assert(out@ =~= message_bytes(self.msg_type, self.payload@));
        out
    }

    /// Reads a message from the start of `data`.
    pub fn decode(data: &[u8]) -> (r: ProtoResult<CrtdMessage>)
        ensures
            match r {
                Ok(m) => message_decode(data@) == Some((m.msg_type, m.payload@)),
                Err(e) => message_decode(data@) is None && e is Parse,
            },
    {
        if data.len() < 5 {
            return Err(ProtoError::Parse("ms_crtd message too short"));
        }
        let b = data[0];
        let msg_type = if b == 1 {
            CrtdMessageType::ListTemplates
        } else if b == 2 {
            CrtdMessageType::GetTemplate
        } else if b == 3 {
            CrtdMessageType::Enroll
        } else if b == 4 {
            CrtdMessageType::Response
        } else if b == 5 {
            CrtdMessageType::Error
        } else if b == 6 {
            CrtdMessageType::Auth
        } else {
            return Err(ProtoError::Parse("ms_crtd unknown type"));
        };
        let len = read_be32(data, 1) as usize;
        if data.len() - 5 < len {
            return Err(ProtoError::Parse("ms_crtd payload length"));
        }
        Ok(CrtdMessage { msg_type, payload: copy_range(data, 5, len) })
    }
}

/// Decoding the bytes of a message whose payload a 32-bit length can count gives the
/// message back, whatever follows it.
#[verifier::spinoff_prover]
pub proof fn lemma_message_roundtrip(t: CrtdMessageType, payload: Seq<u8>, rest: Seq<u8>)
    requires
        payload.len() < 0x1_0000_0000,
    ensures
        message_decode(message_bytes(t, payload) + rest) == Some((t, payload)),
{
    let n = payload.len() as u32;
    let d = message_bytes(t, payload) + rest;
    crate::wire::lemma_fixed_width_roundtrip(seq![type_code(t)], payload + rest, 0, n, 0);
    assert(d =~= seq![type_code(t)] + be32(n) + (payload + rest));
    assert(d.subrange(5, 5 + n) =~= payload);
}

/// The wire form of a string: its UTF-8 length (16 bits, big-endian, modulo 2^16), then
/// its UTF-8 bytes.
pub open spec fn string_bytes(s: Seq<char>) -> Seq<u8> {
    be16((encode_utf8(s).len() % 65536) as u16) + encode_utf8(s)
}

/// The string at `i` and the position after it.
pub open spec fn string_at(d: Seq<u8>, i: int) -> Option<(Seq<char>, int)> {
    if i + 2 > d.len() || i + 2 + get_be16(d, i) > d.len() {
        None
    } else {
        let end = i + 2 + get_be16(d, i);
        Some((lossy_text(d.subrange(i + 2, end)), end))
    }
}

/// Appends the wire form of a string.
pub fn encode_string(out: &mut Vec<u8>, value: &str)
    ensures
        final(out)@ == old(out)@ + string_bytes(value@),
{
    let bytes = utf8_bytes(value);
    let ghost start = out@;
    push_be16(out, (bytes.len() % 65536) as u16);
    push_bytes(out, bytes.as_slice());
    assert(out@ =~= start + string_bytes(value@));
}

/// Reads the string at `*idx` and moves past it.
pub fn decode_string(data: &[u8], idx: &mut usize) -> (r: ProtoResult<String>)
    requires
        *old(idx) <= data.len(),
    ensures
        match r {
            Ok(s) => string_at(data@, *old(idx) as int) == Some((s@, *final(idx) as int)),
            Err(e) => string_at(data@, *old(idx) as int) is None && e is Parse,
        },
        *final(idx) <= data.len(),
{
    if data.len() - *idx < 2 {
        return Err(ProtoError::Parse("ms_crtd string len"));
    }
    let len = read_be16(data, *idx) as usize;
    if data.len() - *idx - 2 < len {
        return Err(ProtoError::Parse("ms_crtd string bounds"));
    }
    let bytes = copy_range(data, *idx + 2, len);
    let value = string_from_utf8_lossy(bytes.as_slice());
    *idx = *idx + 2 + len;
    Ok(value)
}

/// The wire form of a template: name and OID, flags, validity and renewal days (32 bits,
/// big-endian), the number of extended key usages (16 bits, modulo 2^16), then each of
/// them.
pub open spec fn template_bytes(t: CertificateTemplate) -> Seq<u8> {
    string_bytes(t.name@) + string_bytes(t.oid@) + be32(t.flags) + be32(t.validity_days) + be32(t.renewal_days) + be16(
        (t.eku@.len() % 65536) as u16,
    ) + concat_map(t.eku@, |e: String| string_bytes(e@))
}

/// A template as values: name, OID, extended key usages, flags, validity and renewal days.
pub type TemplateModel = (Seq<char>, Seq<char>, Seq<Seq<char>>, u32, u32, u32);

/// A template as values.
pub open spec fn template_model(t: CertificateTemplate) -> TemplateModel {
    (t.name@, t.oid@, t.eku@.map_values(|e: String| e@), t.flags, t.validity_days, t.renewal_days)
}

/// `n` strings read one after another from `i`, and the position after them.
pub open spec fn strings_at(d: Seq<u8>, i: int, n: nat) -> Option<(Seq<Seq<char>>, int)>
    decreases n,
{
    if n == 0 {
        Some((Seq::empty(), i))
    } else {
        match string_at(d, i) {
            None => None,
            Some((s, j)) => match strings_at(d, j, (n - 1) as nat) {
                None => None,
                Some((rest, k)) => Some((seq![s] + rest, k)),
            },
        }
    }
}

/// The template at `i` and the position after it.
pub open spec fn template_at(d: Seq<u8>, i: int) -> Option<(TemplateModel, int)> {
    match string_at(d, i) {
        None => None,
        Some((name, p1)) => match string_at(d, p1) {
            None => None,
            Some((oid, p2)) => if p2 + 12 > d.len() || p2 + 14 > d.len() {
                None
            } else {
                match strings_at(d, p2 + 14, get_be16(d, p2 + 12) as nat) {
                    None => None,
                    Some((eku, p3)) => Some(
                        ((name, oid, eku, get_be32(d, p2), get_be32(d, p2 + 4), get_be32(d, p2 + 8)), p3),
                    ),
                }
            },
        },
    }
}

/// Appends the wire form of a template.
pub fn encode_template(out: &mut Vec<u8>, template: &CertificateTemplate)
    ensures
        final(out)@ == old(out)@ + template_bytes(*template),
{
    let ghost start = out@;
    let ghost f = |e: String| string_bytes(e@);
    encode_string(out, template.name.as_str());
    encode_string(out, template.oid.as_str());
    push_be32(out, template.flags);
    push_be32(out, template.validity_days);
    push_be32(out, template.renewal_days);
    push_be16(out, (template.eku.len() % 65536) as u16);
    let ghost head = out@;
    let mut i: usize = 0;
    while i < template.eku.len()
        invariant
            i <= template.eku@.len(),
            f == (|e: String| string_bytes(e@)),
            out@ == head + concat_map(template.eku@.subrange(0, i as int), f),
        decreases template.eku.len() - i,
    {
        encode_string(out, template.eku[i].as_str());
        proof {
            lemma_concat_map_push(template.eku@.subrange(0, i as int), template.eku@[i as int], f);
            assert(template.eku@.subrange(0, i as int).push(template.eku@[i as int]) == template.eku@.subrange(0, i + 1));
        }
        i = i + 1;
        assert(out@ =~= head + concat_map(template.eku@.subrange(0, i as int), f));
    }
    assert(template.eku@.subrange(0, i as int) == template.eku@);
    assert(out@ =~= start + template_bytes(*template));
}

/// Reads the template at `*idx` and moves past it.
pub fn decode_template(data: &[u8], idx: &mut usize) -> (r: ProtoResult<CertificateTemplate>)
    requires
        *old(idx) <= data.len(),
    ensures
        match r {
            Ok(t) => template_at(data@, *old(idx) as int) == Some((template_model(t), *final(idx) as int)),
            Err(e) => template_at(data@, *old(idx) as int) is None && e is Parse,
        },
        *final(idx) <= data.len(),
{
    let ghost start = *idx as int;
    let name = decode_string(data, idx)?;
    let oid = decode_string(data, idx)?;
    if data.len() - *idx < 12 {
        return Err(ProtoError::Parse("ms_crtd template bounds"));
    }
    let flags = read_be32(data, *idx);
    let validity_days = read_be32(data, *idx + 4);
    let renewal_days = read_be32(data, *idx + 8);
    *idx = *idx + 12;
    if data.len() - *idx < 2 {
        return Err(ProtoError::Parse("ms_crtd template eku count"));
    }
    let eku_count = read_be16(data, *idx) as usize;
    *idx = *idx + 2;
    let ghost p = *idx as int;
    let ghost whole = template_at(data@, start);
    assert(start == *old(idx));
    assert(whole == match strings_at(data@, p, eku_count as nat) {
        None => None,
        Some((e, q)) => Some(((name@, oid@, e, flags, validity_days, renewal_days), q)),
    });
    let mut eku: Vec<String> = Vec::new();
    let mut k: usize = 0;
    proof {
        let ev = eku@.map_values(|e: String| e@);
        assert(ev =~= Seq::<Seq<char>>::empty());
        assert forall|rest: Seq<Seq<char>>| #[trigger] (ev + rest) == rest by {
            assert(ev + rest =~= rest);
        }
    }
    while k < eku_count
        invariant
            k <= eku_count,
            *idx <= data.len(),
            strings_at(data@, p, eku_count as nat) == match strings_at(data@, *idx as int, (eku_count - k) as nat) {
                None => None,
                Some((rest, q)) => Some((eku@.map_values(|e: String| e@) + rest, q)),
            },
            whole == template_at(data@, *old(idx) as int),
            whole == match strings_at(data@, p, eku_count as nat) {
                None => None,
                Some((e, q)) => Some(((name@, oid@, e, flags, validity_days, renewal_days), q)),
            },
        decreases eku_count - k,
    {
        let s = match decode_string(data, idx) {
            Ok(s) => s,
            Err(e) => {
                return Err(e);
            },
        };
        proof {
            let ev = eku@.map_values(|e: String| e@);
            assert(eku@.push(s).map_values(|e: String| e@) =~= ev.push(s@));
            assert forall|rest: Seq<Seq<char>>| ev + (seq![s@] + rest) == ev.push(s@) + rest by {
                assert(ev + (seq![s@] + rest) =~= ev.push(s@) + rest);
            }
        }
        eku.push(s);
        k = k + 1;
    }
    assert(eku@.map_values(|e: String| e@) + Seq::<Seq<char>>::empty() =~= eku@.map_values(|e: String| e@));
    Ok(CertificateTemplate { name, oid, eku, flags, validity_days, renewal_days })
}

/// The wire form of a template list: the count (16 bits, modulo 2^16), then each template.
pub open spec fn templates_bytes(ts: Seq<CertificateTemplate>) -> Seq<u8> {
    be16((ts.len() % 65536) as u16) + concat_map(ts, |t: CertificateTemplate| template_bytes(t))
}

/// `n` templates read one after another from `i`.
pub open spec fn templates_at(d: Seq<u8>, i: int, n: nat) -> Option<Seq<TemplateModel>>
    decreases n,
{
    if n == 0 {
        Some(Seq::empty())
    } else {
        match template_at(d, i) {
            None => None,
            Some((t, j)) => match templates_at(d, j, (n - 1) as nat) {
                None => None,
                Some(rest) => Some(seq![t] + rest),
            },
        }
    }
}

/// The wire form of a list of templates.
pub fn encode_templates(templates: &Vec<CertificateTemplate>) -> (out: Vec<u8>)
    ensures
        out@ == templates_bytes(templates@),
{
    let ghost f = |t: CertificateTemplate| template_bytes(t);
    let mut out: Vec<u8> = Vec::new();
    push_be16(&mut out, (templates.len() % 65536) as u16);
    let ghost head = out@;
    let mut i: usize = 0;
    while i < templates.len()
        invariant
            i <= templates@.len(),
            f == (|t: CertificateTemplate| template_bytes(t)),
            out@ == head + concat_map(templates@.subrange(0, i as int), f),
        decreases templates.len() - i,
    {
        encode_template(&mut out, &templates[i]);
        proof {
            lemma_concat_map_push(templates@.subrange(0, i as int), templates@[i as int], f);
            assert(templates@.subrange(0, i as int).push(templates@[i as int]) == templates@.subrange(0, i + 1));
        }
        i = i + 1;
        assert(out@ =~= head + concat_map(templates@.subrange(0, i as int), f));
    }
    assert(templates@.subrange(0, i as int) == templates@);
    out
}

/// Reads a list of templates.
pub fn decode_templates(data: &[u8]) -> (r: ProtoResult<Vec<CertificateTemplate>>)
    ensures
        match r {
            Ok(ts) => data@.len() >= 2 && templates_at(data@, 2, get_be16(data@, 0) as nat) == Some(
                ts@.map_values(|t: CertificateTemplate| template_model(t)),
            ),
            Err(e) => (data@.len() < 2 || templates_at(data@, 2, get_be16(data@, 0) as nat) is None) && e is Parse,
        },
{
    if data.len() < 2 {
        return Err(ProtoError::Parse("ms_crtd templates len"));
    }
    let count = read_be16(data, 0) as usize;
    let mut idx: usize = 2;
    let mut out: Vec<CertificateTemplate> = Vec::new();
    let mut k: usize = 0;
    proof {
        let ov = out@.map_values(|t: CertificateTemplate| template_model(t));
        assert(ov =~= Seq::<TemplateModel>::empty());
        assert forall|rest: Seq<TemplateModel>| #[trigger] (ov + rest) == rest by {
            assert(ov + rest =~= rest);
        }
    }
    while k < count
        invariant
            k <= count,
            data@.len() >= 2,
            count == get_be16(data@, 0),
            idx <= data.len(),
            templates_at(data@, 2, count as nat) == match templates_at(data@, idx as int, (count - k) as nat) {
                None => None,
                Some(rest) => Some(out@.map_values(|t: CertificateTemplate| template_model(t)) + rest),
            },
        decreases count - k,
    {
        let t = decode_template(data, &mut idx)?;
        proof {
            let ov = out@.map_values(|t: CertificateTemplate| template_model(t));
            assert(out@.push(t).map_values(|t: CertificateTemplate| template_model(t)) =~= ov.push(template_model(t)));
            assert forall|rest: Seq<TemplateModel>| ov + (seq![template_model(t)] + rest) == ov.push(template_model(t)) + rest by {
                assert(ov + (seq![template_model(t)] + rest) =~= ov.push(template_model(t)) + rest);
            }
        }
        out.push(t);
        k = k + 1;
    }
    assert(out@.map_values(|t: CertificateTemplate| template_model(t)) + Seq::<TemplateModel>::empty()
        =~= out@.map_values(|t: CertificateTemplate| template_model(t)));
    Ok(out)
}

/// The wire form of a certificate: template name, issue time and serial (64 bits,
/// big-endian), data length (32 bits, modulo 2^32), data.
pub open spec fn certificate_bytes(c: CertificateResponse) -> Seq<u8> {
    string_bytes(c.template@) + be64(c.issued_at) + be64(c.serial) + be32((c.data@.len() % 0x1_0000_0000) as u32)
        + c.data@
}

/// A certificate as values: template name, issue time, serial and data.
pub type CertificateModel = (Seq<char>, u64, u64, Seq<u8>);

/// The certificate in `d`; `None` when it does not hold a whole one.
pub open spec fn certificate_decode(d: Seq<u8>) -> Option<CertificateModel> {
    match string_at(d, 0) {
        None => None,
        Some((name, p)) => if p + 16 > d.len() || p + 20 > d.len() || p + 20 + get_be32(d, p + 16) > d.len() {
            None
        } else {
            Some((name, get_be64(d, p), get_be64(d, p + 8), d.subrange(p + 20, p + 20 + get_be32(d, p + 16))))
        },
    }
}

/// The wire form of a certificate.
pub fn encode_certificate(cert: &CertificateResponse) -> (out: Vec<u8>)
    ensures
        out@ == certificate_bytes(*cert),
{
    let mut out: Vec<u8> = Vec::new();
    encode_string(&mut out, cert.template.as_str());
    push_be64(&mut out, cert.issued_at);
    push_be64(&mut out, cert.serial);
    push_be32(&mut out, (cert.data.len() as u64 % 0x1_0000_0000) as u32);
    push_bytes(&mut out, cert.data.as_slice());
    assert(out@ =~= certificate_bytes(*cert));
    out
}

/// Reads a certificate.
pub fn decode_certificate(data: &[u8]) -> (r: ProtoResult<CertificateResponse>)
    ensures
        match r {
            Ok(c) => certificate_decode(data@) == Some((c.template@, c.issued_at, c.serial, c.data@)),
            Err(e) => certificate_decode(data@) is None && e is Parse,
        },
{
    let mut idx: usize = 0;
    let template = decode_string(data, &mut idx)?;
    if data.len() - idx < 16 {
        return Err(ProtoError::Parse("ms_crtd certificate bounds"));
    }
    let issued_at = read_be64(data, idx);
    let serial = read_be64(data, idx + 8);
    idx = idx + 16;
    if data.len() - idx < 4 {
        return Err(ProtoError::Parse("ms_crtd cert data len"));
    }
    let len = read_be32(data, idx) as usize;
    idx = idx + 4;
    if data.len() - idx < len {
        return Err(ProtoError::Parse("ms_crtd cert data"));
    }
    Ok(CertificateResponse { template, issued_at, serial, data: copy_range(data, idx, len) })
}

/// The SHA-256 digest of `data`, as the `sha256` crate computes it.
pub uninterp spec fn sha256(data: Seq<u8>) -> Seq<u8>;

/// The SHA-256 digest of `data` in lower-case hexadecimal (`sha256::digest`, which
/// hex-encodes the 32 bytes of the digest).
#[verifier::external_body]
fn sha256_hex(data: &[u8]) -> (r: String)
    ensures
        r@ == hex_text(sha256(data@)),
        r@.len() == 64,
{
    sha256::digest(data)
}

/// The value of a lower-case hexadecimal digit.
pub open spec fn hex_value(c: char) -> nat {
    if '0' <= c && c <= '9' {
        (c as u32 - 48) as nat
    } else {
        (c as u32 - 87) as nat
    }
}

proof fn lemma_hex_digit_value(d: nat)
    requires
        d < 16,
    ensures
        hex_value(hex_digit(d)) == d,
        ('0' <= hex_digit(d) && hex_digit(d) <= '9') || ('a' <= hex_digit(d) && hex_digit(d) <= 'f'),
{
}

proof fn lemma_hex_text(b: Seq<u8>)
    ensures
        hex_text(b).len() == 2 * b.len(),
        forall|i: int| 0 <= i < b.len() ==> #[trigger] b[i] == 16 * hex_value(hex_text(b)[2 * i]) + hex_value(hex_text(b)[2 * i + 1]),
        forall|i: int| 0 <= i < hex_text(b).len() ==> ('0' <= #[trigger] hex_text(b)[i] && hex_text(b)[i] <= '9') || (
            'a' <= hex_text(b)[i] && hex_text(b)[i] <= 'f'),
    decreases b.len(),
{
    if b.len() > 0 {
        let init = b.drop_last();
        lemma_hex_text(init);
        let last = b.last();
        lemma_hex_digit_value((last / 16) as nat);
        lemma_hex_digit_value((last % 16) as nat);
        let h = hex_text(b);
        assert(h == hex_text(init) + seq![hex_digit((last / 16) as nat), hex_digit((last % 16) as nat)]);
        assert forall|i: int| 0 <= i < b.len() implies #[trigger] b[i] == 16 * hex_value(h[2 * i]) + hex_value(h[2 * i + 1]) by {
            if i < b.len() - 1 {
                assert(init[i] == b[i]);
                assert(h[2 * i] == hex_text(init)[2 * i]);
                assert(h[2 * i + 1] == hex_text(init)[2 * i + 1]);
            }
        }
        assert forall|i: int| 0 <= i < h.len() implies ('0' <= #[trigger] h[i] && h[i] <= '9') || ('a' <= h[i] && h[i] <= 'f') by {
            if i < h.len() - 2 {
                assert(h[i] == hex_text(init)[i]);
            }
        }
    }
}

/// The bytes that lower-case hexadecimal text stands for.
fn hex_decode(s: &[char]) -> (r: Vec<u8>)
    requires
        s@.len() % 2 == 0,
        forall|i: int| 0 <= i < s@.len() ==> ('0' <= #[trigger] s@[i] && s@[i] <= '9') || ('a' <= s@[i] && s@[i] <= 'f'),
    ensures
        r@.len() == s@.len() / 2,
        forall|i: int| 0 <= i < r@.len() ==> #[trigger] r@[i] == 16 * hex_value(s@[2 * i]) + hex_value(s@[2 * i + 1]),
{
    let mut out: Vec<u8> = Vec::new();
    let mut i: usize = 0;
    while i + 1 < s.len()
        invariant
            s@.len() % 2 == 0,
            i % 2 == 0,
            i <= s@.len(),
            out@.len() == i / 2,
            forall|j: int| 0 <= j < s@.len() ==> ('0' <= #[trigger] s@[j] && s@[j] <= '9') || ('a' <= s@[j] && s@[j] <= 'f'),
            forall|j: int| 0 <= j < out@.len() ==> #[trigger] out@[j] == 16 * hex_value(s@[2 * j]) + hex_value(s@[2 * j + 1]),
        decreases s.len() - i,
    {
        let a = s[i];
        let b = s[i + 1];
        let hi: u8 = if a <= '9' { (a as u32 - 48) as u8 } else { (a as u32 - 87) as u8 };
        let lo: u8 = if b <= '9' { (b as u32 - 48) as u8 } else { (b as u32 - 87) as u8 };
        assert(hi == hex_value(s@[i as int]) && hi < 16);
        assert(lo == hex_value(s@[i + 1]) && lo < 16);
        out.push(hi * 16 + lo);
        i = i + 2;
    }
    out
}

/// The data of a certificate issued from `template` for `csr` at `issued_at`: `MLCERT`
/// and the SHA-256 digest of the template name, the request and the issue time (64 bits,
/// big-endian).
pub open spec fn certificate_data(name: Seq<char>, csr: Seq<u8>, issued_at: u64) -> Seq<u8> {
    seq![77u8, 76u8, 67u8, 69u8, 82u8, 84u8] + sha256(encode_utf8(name) + csr + be64(issued_at))
}

/// The certificate issued from `template` for `csr` at `issued_at` (seconds since the Unix
/// epoch): its serial is the issue time XOR the template's flags.
pub fn issue_certificate(template: &CertificateTemplate, csr: &[u8], issued_at: u64) -> (c: CertificateResponse)
    ensures
        c.template@ == template.name@,
        c.issued_at == issued_at,
        c.serial == issued_at ^ (template.flags as u64),
        c.data@ == certificate_data(template.name@, csr@, issued_at),
{
    let mut input: Vec<u8> = utf8_bytes(template.name.as_str());
    push_bytes(&mut input, csr);
    push_be64(&mut input, issued_at);
    let hex = sha256_hex(input.as_slice());
    proof {
        lemma_hex_text(sha256(input@));
    }
    let hc = chars_of(hex.as_str());
    let digest = hex_decode(hc.as_slice());
    assert(digest@ =~= sha256(input@));
    let mut data: Vec<u8> = vec![77u8, 76u8, 67u8, 69u8, 82u8, 84u8];
    push_bytes(&mut data, digest.as_slice());
    assert(data@ =~= certificate_data(template.name@, csr@, issued_at));
    CertificateResponse { template: template.name.clone(), issued_at, serial: issued_at ^ (template.flags as u64), data }
}

/// What a server is configured with: whether a client must authenticate, and the
/// password of each user.
#[derive(Debug, Clone)]
pub struct CrtdServerConfig {
    pub require_auth: bool,
    pub users: Vec<(String, String)>,
}

impl Default for CrtdServerConfig {
    /// No authentication, no users.
    fn default() -> (r: Self)
        ensures
            !r.require_auth,
            r.users@.len() == 0,
    {
        CrtdServerConfig { require_auth: false, users: Vec::new() }
    }
}

/// What a client is configured with: the user and password it authenticates with.
#[derive(Debug, Clone)]
pub struct CrtdClientConfig {
    pub username: Option<String>,
    pub password: Option<String>,
}

impl Default for CrtdClientConfig {
    /// No user, no password.
    fn default() -> (r: Self)
        ensures
            r.username is None,
            r.password is None,
    {
        CrtdClientConfig { username: None, password: None }
    }
}

/// The last template named `name` in the list: a server keeps one template per name, the
/// later one replacing the earlier.
pub open spec fn template_find(ts: Seq<CertificateTemplate>, name: Seq<char>) -> Option<CertificateTemplate>
    decreases ts.len(),
{
    if ts.len() == 0 {
        None
    } else if ts.last().name@ == name {
        Some(ts.last())
    } else {
        template_find(ts.drop_last(), name)
    }
}

/// The template named `name`, if the list holds one.
pub fn find_template(templates: &Vec<CertificateTemplate>, name: &str) -> (r: Option<usize>)
    ensures
        match r {
            Some(i) => i < templates@.len() && template_find(templates@, name@) == Some(templates@[i as int]),
            None => template_find(templates@, name@) is None,
        },
{
    let mut i: usize = templates.len();
    assert(templates@.subrange(0, i as int) == templates@);
    while i > 0
        invariant
            i <= templates@.len(),
            template_find(templates@, name@) == template_find(templates@.subrange(0, i as int), name@),
        decreases i,
    {
        proof {
            let pre = templates@.subrange(0, i as int);
            assert(pre.last() == templates@[i - 1]);
            assert(pre.drop_last() == templates@.subrange(0, i - 1));
        }
        if str_eq(templates[i - 1].name.as_str(), name) {
            return Some(i - 1);
        }
        i = i - 1;
    }
    None
}

/// Whether the password in an auth payload is the user's: the payload holds the user
/// name and the password as two strings.
pub open spec fn auth_spec(payload: Seq<u8>, users: Seq<(String, String)>) -> Option<bool> {
    match string_at(payload, 0) {
        None => None,
        Some((user, p)) => match string_at(payload, p) {
            None => None,
            Some((pass, _)) => Some(crate::text::pair_lookup(users, user) == Some(pass)),
        },
    }
}

/// Checks the user name and password of an auth payload.
pub fn validate_auth(payload: &[u8], users: &Vec<(String, String)>) -> (r: ProtoResult<bool>)
    ensures
        match r {
            Ok(b) => auth_spec(payload@, users@) == Some(b),
            Err(e) => auth_spec(payload@, users@) is None && e is Parse,
        },
{
    let mut idx: usize = 0;
    let user = decode_string(payload, &mut idx)?;
    let pass = decode_string(payload, &mut idx)?;
    let mut i: usize = 0;
    assert(users@.subrange(0, users@.len() as int) == users@);
    assert(auth_spec(payload@, users@) == Some(crate::text::pair_lookup(users@, user@) == Some(pass@)));
    while i < users.len()
        invariant
            i <= users@.len(),
            auth_spec(payload@, users@) == Some(crate::text::pair_lookup(users@, user@) == Some(pass@)),
            crate::text::pair_lookup(users@, user@) == crate::text::pair_lookup(
                users@.subrange(i as int, users@.len() as int),
                user@,
            ),
        decreases users.len() - i,
    {
        proof {
            let rest = users@.subrange(i as int, users@.len() as int);
            assert(rest[0] == users@[i as int]);
            assert(rest.drop_first() == users@.subrange(i + 1, users@.len() as int));
        }
        if str_eq(users[i].0.as_str(), user.as_str()) {
            return Ok(str_eq(users[i].1.as_str(), pass.as_str()));
        }
        i = i + 1;
    }
    Ok(false)
}

/// The enrollment request in an enroll payload: the template name, then the request's
/// length (32 bits, big-endian) and bytes.
pub open spec fn enroll_decode(d: Seq<u8>) -> Option<(Seq<char>, Seq<u8>)> {
    match string_at(d, 0) {
        None => None,
        Some((name, p)) => if p + 4 > d.len() || p + 4 + get_be32(d, p) > d.len() {
            None
        } else {
            Some((name, d.subrange(p + 4, p + 4 + get_be32(d, p))))
        },
    }
}

/// The server's answer to a message at time `now`, or the error that ends the session:
/// a template listing; the named template (an error when there is none); a certificate
/// for an enrollment (an error for an empty request or an unknown template); an error
/// message for an unexpected auth; and a response or error message sent back as it came.
pub open spec fn message_spec(
    t: CrtdMessageType,
    payload: Seq<u8>,
    templates: Seq<CertificateTemplate>,
    now: u64,
) -> Result<(CrtdMessageType, Seq<u8>), ProtoError> {
    match t {
        CrtdMessageType::ListTemplates => Ok((CrtdMessageType::Response, templates_bytes(templates))),
        CrtdMessageType::GetTemplate => match string_at(payload, 0) {
            None => Err(ProtoError::Parse("ms_crtd string")),
            Some((name, _)) => match template_find(templates, name) {
                None => Err(ProtoError::Message("template not found")),
                Some(tpl) => Ok((CrtdMessageType::Response, template_bytes(tpl))),
            },
        },
        CrtdMessageType::Enroll => match enroll_decode(payload) {
            None => Err(ProtoError::Parse("ms_crtd csr")),
            Some((name, csr)) => if csr.len() == 0 {
                Err(ProtoError::Message("empty csr"))
            } else {
                match template_find(templates, name) {
                    None => Err(ProtoError::Message("template not found")),
                    Some(tpl) => Ok(
                        (
                            CrtdMessageType::Response,
                            string_bytes(tpl.name@) + be64(now) + be64(now ^ (tpl.flags as u64)) + be32(
                                (certificate_data(tpl.name@, csr, now).len() % 0x1_0000_0000) as u32,
                            ) + certificate_data(tpl.name@, csr, now),
                        ),
                    ),
                }
            },
        },
        CrtdMessageType::Auth => Ok((CrtdMessageType::Error, encode_utf8("unexpected auth"@))),
        _ => Ok((t, payload)),
    }
}

/// Whether two errors are of the same kind.
pub open spec fn same_kind(a: ProtoError, b: ProtoError) -> bool {
    match (a, b) {
        (ProtoError::Parse(_), ProtoError::Parse(_)) => true,
        (ProtoError::Message(x), ProtoError::Message(y)) => x == y,
        _ => false,
    }
}

/// Answers a message at time `now` (seconds since the Unix epoch).
pub fn handle_crtd_message(msg: CrtdMessage, templates: &Vec<CertificateTemplate>, now: u64) -> (r: ProtoResult<CrtdMessage>)
    ensures
        match (r, message_spec(msg.msg_type, msg.payload@, templates@, now)) {
            (Ok(m), Ok((t, p))) => m.msg_type == t && m.payload@ == p,
            (Err(e), Err(x)) => same_kind(e, x),
            _ => false,
        },
{
    match msg.msg_type {
        CrtdMessageType::ListTemplates => Ok(
            CrtdMessage { msg_type: CrtdMessageType::Response, payload: encode_templates(templates) },
        ),
        CrtdMessageType::GetTemplate => {
            let mut idx: usize = 0;
            let name = decode_string(msg.payload.as_slice(), &mut idx)?;
            match find_template(templates, name.as_str()) {
                None => Err(ProtoError::Message("template not found")),
                Some(i) => {
                    let mut payload: Vec<u8> = Vec::new();
                    encode_template(&mut payload, &templates[i]);
                    Ok(CrtdMessage { msg_type: CrtdMessageType::Response, payload })
                },
            }
        },
        CrtdMessageType::Enroll => {
            let data = msg.payload.as_slice();
            let mut idx: usize = 0;
            let template_name = decode_string(data, &mut idx)?;
            if data.len() - idx < 4 {
                return Err(ProtoError::Parse("ms_crtd csr len"));
            }
            let csr_len = read_be32(data, idx) as usize;
            idx = idx + 4;
            if data.len() - idx < csr_len {
                return Err(ProtoError::Parse("ms_crtd csr bounds"));
            }
            let csr = copy_range(data, idx, csr_len);
            if csr.len() == 0 {
                return Err(ProtoError::Message("empty csr"));
            }
            match find_template(templates, template_name.as_str()) {
                None => Err(ProtoError::Message("template not found")),
                Some(i) => {
                    let cert = issue_certificate(&templates[i], csr.as_slice(), now);
                    let payload = encode_certificate(&cert);
                    Ok(CrtdMessage { msg_type: CrtdMessageType::Response, payload })
                },
            }
        },
        CrtdMessageType::Auth => Ok(
            CrtdMessage { msg_type: CrtdMessageType::Error, payload: utf8_bytes("unexpected auth") },
        ),
        _ => Ok(msg),
    }
}

/// The current time in seconds since the Unix epoch.
pub fn current_timestamp() -> (t: u64) {
    let (secs, _) = crate::clock::unix_time_now();
    secs
}

/// What a server that requires authentication does with the first message: an auth
/// message with a known user and the right password gets `ok` and the session goes on;
/// any other message gets an `auth failed` error and the session ends; an auth payload
/// that does not hold two strings ends the session with an error.
pub fn auth_reply(msg: &CrtdMessage, users: &Vec<(String, String)>) -> (r: ProtoResult<(CrtdMessage, bool)>)
    ensures
        msg.msg_type != CrtdMessageType::Auth ==> (r matches Ok((m, more)) && !more && m.msg_type
            == CrtdMessageType::Error && m.payload@ == encode_utf8("auth failed"@)),
        msg.msg_type == CrtdMessageType::Auth ==> match auth_spec(msg.payload@, users@) {
            None => r matches Err(e) && e is Parse,
            Some(false) => r matches Ok((m, more)) && !more && m.msg_type == CrtdMessageType::Error
                && m.payload@ == encode_utf8("auth failed"@),
            Some(true) => r matches Ok((m, more)) && more && m.msg_type == CrtdMessageType::Response
                && m.payload@ == encode_utf8("ok"@),
        },
{
    if msg.msg_type != CrtdMessageType::Auth {
        return Ok((CrtdMessage { msg_type: CrtdMessageType::Error, payload: utf8_bytes("auth failed") }, false));
    }
    let ok = validate_auth(msg.payload.as_slice(), users)?;
    if !ok {
        return Ok((CrtdMessage { msg_type: CrtdMessageType::Error, payload: utf8_bytes("auth failed") }, false));
    }
    Ok((CrtdMessage { msg_type: CrtdMessageType::Response, payload: utf8_bytes("ok") }, true))
}

/// The message a client authenticates with: the user name and password.
pub fn auth_request(user: &str, pass: &str) -> (m: CrtdMessage)
    ensures
        m.msg_type == CrtdMessageType::Auth,
        m.payload@ == string_bytes(user@) + string_bytes(pass@),
{
    let mut payload: Vec<u8> = Vec::new();
    encode_string(&mut payload, user);
    encode_string(&mut payload, pass);
    CrtdMessage { msg_type: CrtdMessageType::Auth, payload }
}

/// The message that asks for the named template.
pub fn get_template_request(name: &str) -> (m: CrtdMessage)
    ensures
        m.msg_type == CrtdMessageType::GetTemplate,
        m.payload@ == string_bytes(name@),
{
    let mut payload: Vec<u8> = Vec::new();
    encode_string(&mut payload, name);
    assert(payload@ =~= string_bytes(name@));
    CrtdMessage { msg_type: CrtdMessageType::GetTemplate, payload }
}

/// The message that asks for a certificate.
pub fn enroll_request(request: &CertificateRequest) -> (m: CrtdMessage)
    ensures
        m.msg_type == CrtdMessageType::Enroll,
        m.payload@ == string_bytes(request.template@) + be32((request.csr@.len() % 0x1_0000_0000) as u32)
            + request.csr@,
{
    let mut payload: Vec<u8> = Vec::new();
    encode_string(&mut payload, request.template.as_str());
    push_be32(&mut payload, (request.csr.len() as u64 % 0x1_0000_0000) as u32);
    push_bytes(&mut payload, request.csr.as_slice());
    CrtdMessage { msg_type: CrtdMessageType::Enroll, payload }
}

/// No two templates share a name.
pub open spec fn names_unique(ts: Seq<CertificateTemplate>) -> bool {
    forall|i: int, j: int| 0 <= i < j < ts.len() ==> ts[i].name@ != ts[j].name@
}

proof fn lemma_find_update(s: Seq<CertificateTemplate>, j: int, t: CertificateTemplate, n: Seq<char>)
    requires
        names_unique(s),
        0 <= j < s.len(),
        s[j].name@ == t.name@,
    ensures
        template_find(s.update(j, t), n) == if n == t.name@ { Some(t) } else { template_find(s, n) },
    decreases s.len(),
{
    let u = s.update(j, t);
    if j == s.len() - 1 {
        assert(u.drop_last() == s.drop_last());
    } else {
        assert(u.last() == s.last());
        assert(s.last().name@ != t.name@);
        assert(u.drop_last() == s.drop_last().update(j, t));
        assert forall|a: int, b: int| 0 <= a < b < s.drop_last().len() implies s.drop_last()[a].name@
            != s.drop_last()[b].name@ by {
            assert(s.drop_last()[a] == s[a] && s.drop_last()[b] == s[b]);
        }
        lemma_find_update(s.drop_last(), j, t, n);
    }
}

/// The templates a server keeps: one per name, a later template replacing an earlier one
/// of the same name.
pub fn template_table(templates: Vec<CertificateTemplate>) -> (r: Vec<CertificateTemplate>)
    ensures
        names_unique(r@),
        forall|n: Seq<char>| #[trigger] template_find(r@, n) == template_find(templates@, n),
{
    let ghost all = templates@;
    let mut src = templates;
    let mut out: Vec<CertificateTemplate> = Vec::new();
    let mut i: usize = 0;
    assert(all.len() == src.len());
    while src.len() > 0
        invariant
            i <= all.len(),
            all.len() <= usize::MAX,
            src@ == all.subrange(i as int, all.len() as int),
            names_unique(out@),
            forall|n: Seq<char>| #[trigger] template_find(out@, n) == template_find(all.subrange(0, i as int), n),
        decreases src.len(),
    {
        let t = src.remove(0);
        assert(t == all[i as int]);
        proof {
            assert(all.subrange(0, i + 1).drop_last() == all.subrange(0, i as int));
            assert(src@ == all.subrange(i + 1, all.len() as int));
        }
        let mut j: usize = 0;
        let mut found: Option<usize> = None;
        while j < out.len()
            invariant
                j <= out@.len(),
                found matches Some(k) ==> k < out@.len() && out@[k as int].name@ == t.name@,
                found is None ==> forall|k: int| 0 <= k < j ==> out@[k].name@ != t.name@,
            decreases out.len() - j,
        {
            if found.is_none() && str_eq(out[j].name.as_str(), t.name.as_str()) {
                found = Some(j);
            }
            j = j + 1;
        }
        let ghost before = out@;
        match found {
            Some(k) => {
                proof {
                    assert forall|n: Seq<char>| #[trigger] template_find(before.update(k as int, t), n) == template_find(
                        all.subrange(0, i + 1),
                        n,
                    ) by {
                        lemma_find_update(before, k as int, t, n);
                    }
                }
                out.set(k, t);
                proof {
                    assert forall|a: int, b: int| 0 <= a < b < out@.len() implies out@[a].name@ != out@[b].name@ by {
                        assert(before[a].name@ != before[b].name@);
                    }
                }
            },
            None => {
                out.push(t);
                proof {
                    assert(out@.drop_last() == before);
                    assert(out@.last() == t);
                    assert(all.subrange(0, i + 1).last() == t);
                    assert forall|n: Seq<char>| #[trigger] template_find(out@, n) == template_find(all.subrange(0, i + 1), n) by {
                        assert(template_find(out@, n) == if t.name@ == n { Some(t) } else { template_find(before, n) });
                    }
                    assert forall|a: int, b: int| 0 <= a < b < out@.len() implies out@[a].name@ != out@[b].name@ by {
                        if b < before.len() {
                            assert(before[a].name@ != before[b].name@);
                        } else {
                            assert(out@[a] == before[a]);
                        }
                    }
                }
            },
        }
        i = i + 1;
    }
    assert(all.subrange(0, i as int) == all);
    out
}

} // verus!
