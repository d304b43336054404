//! NTLM tokens in HTTP headers: `NTLM ` followed by the Base64 image of a message.
use vstd::prelude::*;
use vstd::utf8::encode_utf8;
use crate::error::{ProtoError, ProtoResult};
use crate::text::{chars_of, push_char, string_from_chars, utf8_bytes, trim, trim_chars};
use crate::ntlm::message::{NtlmMessage, ntlm_message_bytes, ntlm_message_decodes_to, ntlm_message_valid, authenticate_reads_past_end};

verus! {

/// The Base64 alphabet byte for a six-bit value.
pub open spec fn b64_byte(v: u32) -> u8 {
    if v < 26 {
        (65 + v) as u8
    } else if v < 52 {
        (97 + (v - 26)) as u8
    } else if v < 62 {
        (48 + (v - 52)) as u8
    } else if v == 62 {
        43u8
    } else {
        47u8
    }
}

/// The Base64 characters for the group of up to three bytes at `i`.
pub open spec fn b64_group(data: Seq<u8>, i: int) -> Seq<char> {
    let b0 = data[i] as u32;
    let b1 = if i + 1 < data.len() { data[i + 1] as u32 } else { 0u32 };
    let b2 = if i + 2 < data.len() { data[i + 2] as u32 } else { 0u32 };
    let triple = (b0 << 16u32) | (b1 << 8u32) | b2;
    seq![
        b64_byte((triple >> 18u32) & 0x3f) as char,
        b64_byte((triple >> 12u32) & 0x3f) as char,
        if i + 1 < data.len() { b64_byte((triple >> 6u32) & 0x3f) as char } else { '=' },
        if i + 2 < data.len() { b64_byte(triple & 0x3f) as char } else { '=' },
    ]
}

/// The Base64 characters of the first `n` groups of three bytes.
pub open spec fn b64_groups(data: Seq<u8>, n: nat) -> Seq<char>
    decreases n,
{
    if n == 0 {
        Seq::empty()
    } else {
        b64_groups(data, (n - 1) as nat) + b64_group(data, 3 * (n - 1))
    }
}

/// The padded Base64 image of `data`.
pub open spec fn b64_encode(data: Seq<u8>) -> Seq<char> {
    b64_groups(data, ((data.len() + 2) / 3) as nat)
}

fn b64_byte_exec(v: u32) -> (r: u8)
    requires
        v < 64,
    ensures
        r == b64_byte(v),
{
    if v < 26 {
        (65 + v) as u8
    } else if v < 52 {
        (97 + (v - 26)) as u8
    } else if v < 62 {
        (48 + (v - 52)) as u8
    } else if v == 62 {
        43u8
    } else {
        47u8
    }
}

/// The padded Base64 image of `data`.
pub fn base64_encode(data: &[u8]) -> (out: String)
    ensures
        out@ == b64_encode(data@),
{
    let mut out = String::new();
    let mut i: usize = 0;
    let mut n: usize = 0;
    while i < data.len()
        invariant
            i == 3 * n,
            i <= data@.len() + 2,
            n <= (data@.len() + 2) / 3,
            i < data@.len() ==> n < (data@.len() + 2) / 3,
            i >= data@.len() ==> n == (data@.len() + 2) / 3,
            out@ == b64_groups(data@, n as nat),
        decreases data@.len() + 3 - i,
    {
        let b0 = data[i];
        let b1 = if i + 1 < data.len() { data[i + 1] } else { 0 };
        let b2 = if i + 2 < data.len() { data[i + 2] } else { 0 };
        let triple = ((b0 as u32) << 16u32) | ((b1 as u32) << 8u32) | b2 as u32;
        assert((triple >> 18u32) & 0x3f < 64 && (triple >> 12u32) & 0x3f < 64 && (triple >> 6u32) & 0x3f < 64 && triple & 0x3f < 64) by (bit_vector);
        let ghost before = out@;
        push_char(&mut out, b64_byte_exec((triple >> 18u32) & 0x3f) as char);
        push_char(&mut out, b64_byte_exec((triple >> 12u32) & 0x3f) as char);
        if i + 1 < data.len() {
            push_char(&mut out, b64_byte_exec((triple >> 6u32) & 0x3f) as char);
        } else {
            push_char(&mut out, '=');
        }
        if i + 2 < data.len() {
            push_char(&mut out, b64_byte_exec(triple & 0x3f) as char);
        } else {
            push_char(&mut out, '=');
        }
        assert(out@ =~= before + b64_group(data@, i as int));
        i = i + 3;
        n = n + 1;
    }
    out
}

/// The six-bit value of a Base64 alphabet byte.
pub open spec fn b64_val(c: u8) -> Option<u8> {
    if 65 <= c <= 90 {
        Some((c - 65) as u8)
    } else if 97 <= c <= 122 {
        Some((c - 97 + 26) as u8)
    } else if 48 <= c <= 57 {
        Some((c - 48 + 52) as u8)
    } else if c == 43 {
        Some(62u8)
    } else if c == 47 {
        Some(63u8)
    } else {
        None
    }
}

fn b64_val_exec(c: u8) -> (r: Option<u8>)
    ensures
        r == b64_val(c),
{
    if 65 <= c && c <= 90 {
        Some(c - 65)
    } else if 97 <= c && c <= 122 {
        Some(c - 97 + 26)
    } else if 48 <= c && c <= 57 {
        Some(c - 48 + 52)
    } else if c == 43 {
        Some(62)
    } else if c == 47 {
        Some(63)
    } else {
        None
    }
}

/// The byte at `i`, or `=` past the end.
pub open spec fn b64_at(s: Seq<u8>, i: int) -> u8 {
    if i < s.len() { s[i] } else { 61u8 }
}

/// The bytes a group of four Base64 characters at `i` stands for, if they are valid.
pub open spec fn b64_decode_group(s: Seq<u8>, i: int) -> Option<Seq<u8>> {
    let c0 = b64_at(s, i);
    let c1 = b64_at(s, i + 1);
    let c2 = b64_at(s, i + 2);
    let c3 = b64_at(s, i + 3);
    match (b64_val(c0), b64_val(c1)) {
        (Some(v0), Some(v1)) => {
            let o2 = if c2 == 61 { Some(0u8) } else { b64_val(c2) };
            let o3 = if c3 == 61 { Some(0u8) } else { b64_val(c3) };
            match (o2, o3) {
                (Some(v2), Some(v3)) => {
                    let triple = ((v0 as u32) << 18u32) | ((v1 as u32) << 12u32) | ((v2 as u32) << 6u32) | (v3 as u32);
                    let a = seq![((triple >> 16u32) & 0xff) as u8];
                    let b = if c2 != 61 { a.push(((triple >> 8u32) & 0xff) as u8) } else { a };
                    Some(if c3 != 61 { b.push((triple & 0xff) as u8) } else { b })
                },
                _ => None,
            }
        },
        _ => None,
    }
}

/// The bytes that Base64 text stands for from position `i` on, if it is valid.
pub open spec fn b64_decode_from(s: Seq<u8>, i: nat) -> Option<Seq<u8>>
    decreases s.len() + 4 - i,
{
    if i >= s.len() {
        Some(Seq::empty())
    } else {
        match (b64_decode_group(s, i as int), b64_decode_from(s, i + 4)) {
            (Some(g), Some(rest)) => Some(g + rest),
            _ => None,
        }
    }
}

/// The bytes that Base64 text stands for, if it is valid.
pub open spec fn b64_decode(s: Seq<u8>) -> Option<Seq<u8>> {
    b64_decode_from(s, 0)
}

/// Decodes Base64 text.
pub fn base64_decode(data: &[u8]) -> (r: Option<Vec<u8>>)
    ensures
        match r {
            Some(v) => b64_decode(data@) == Some(v@),
            None => b64_decode(data@) is None,
        },
{
    let mut out: Vec<u8> = Vec::new();
    let mut i: usize = 0;
    assert forall|rest: Seq<u8>| out@ + rest == rest by {
        assert(out@ + rest =~= rest);
    }
    while i < data.len()
        invariant
            i <= data@.len(),
            b64_decode(data@) == match b64_decode_from(data@, i as nat) {
                Some(rest) => Some(out@ + rest),
                None => None,
            },
        decreases data@.len() + 4 - i,
    {
        let c0 = data[i];
        let rem = data.len() - i;
        let c1 = if rem > 1 { data[i + 1] } else { 61u8 };
        let c2 = if rem > 2 { data[i + 2] } else { 61u8 };
        let c3 = if rem > 3 { data[i + 3] } else { 61u8 };
        let v0 = match b64_val_exec(c0) {
            Some(v) => v,
            None => {
                return None;
            },
        };
        let v1 = match b64_val_exec(c1) {
            Some(v) => v,
            None => {
                return None;
            },
        };
        let v2 = if c2 == 61 {
            0
        } else {
            match b64_val_exec(c2) {
                Some(v) => v,
                None => {
                    return None;
                },
            }
        };
        let v3 = if c3 == 61 {
            0
        } else {
            match b64_val_exec(c3) {
                Some(v) => v,
                None => {
                    return None;
                },
            }
        };
        let triple = ((v0 as u32) << 18u32) | ((v1 as u32) << 12u32) | ((v2 as u32) << 6u32) | v3 as u32;
        let ghost before = out@;
        out.push(((triple >> 16u32) & 0xff) as u8);
        if c2 != 61 {
            out.push(((triple >> 8u32) & 0xff) as u8);
        }
        if c3 != 61 {
            out.push((triple & 0xff) as u8);
        }
        proof {
            let g = b64_decode_group(data@, i as int);
            assert(g == Some(out@.subrange(before.len() as int, out@.len() as int)));
            assert(out@ == before + g.unwrap());
            assert forall|rest: Seq<u8>| before + (g.unwrap() + rest) == out@ + rest by {
                assert(before + (g.unwrap() + rest) =~= out@ + rest);
            }
        }
        if rem <= 4 {
            assert(b64_decode_from(data@, (i + 4) as nat) == Some(Seq::<u8>::empty()));
            assert(b64_decode_from(data@, data@.len()) == Some(Seq::<u8>::empty()));
            i = data.len();
        } else {
            i = i + 4;
        }
    }
    proof {
        assert(out@ + Seq::<u8>::empty() =~= out@);
    }
    Some(out)
}

/// The prefix that names the NTLM scheme in an HTTP header.
pub open spec fn ntlm_scheme() -> Seq<char> {
    seq!['N', 'T', 'L', 'M']
}

/// The header value that carries a message.
pub open spec fn http_token(bytes: Seq<u8>) -> Seq<char> {
    ntlm_scheme() + seq![' '] + b64_encode(bytes)
}

/// The header value that carries `message`.
pub fn encode_http_token(message: &NtlmMessage) -> (r: String)
    ensures
        r@ == http_token(ntlm_message_bytes(*message)),
{
    let encoded = base64_encode(message.encode().as_slice());
    let mut out = String::new();
    push_char(&mut out, 'N');
    push_char(&mut out, 'T');
    push_char(&mut out, 'L');
    push_char(&mut out, 'M');
    push_char(&mut out, ' ');
    let ghost start = out@;
    out.append(encoded.as_str());
    assert(out@ =~= http_token(ntlm_message_bytes(*message)));
    out
}

/// The Base64 text of a header value: trimmed, without the scheme name, trimmed again.
pub open spec fn token_text(header: Seq<char>) -> Seq<char> {
    let t = trim(header);
    let rest = if t.len() >= 4 && t.subrange(0, 4) == ntlm_scheme() { t.subrange(4, t.len() as int) } else { t };
    trim(rest)
}

/// The message bytes a header value carries, if its Base64 text is valid.
pub open spec fn token_bytes(header: Seq<char>) -> Option<Seq<u8>> {
    b64_decode(encode_utf8(token_text(header)))
}

/// Decodes the message that an HTTP header value carries.
pub fn decode_http_token(header_value: &str) -> (r: ProtoResult<NtlmMessage>)
    requires
        token_bytes(header_value@) matches Some(b) ==> !authenticate_reads_past_end(b),
    ensures
        match r {
            Ok(m) => token_bytes(header_value@) matches Some(b) && ntlm_message_decodes_to(b, m),
            Err(e) => (token_bytes(header_value@) is None || !ntlm_message_valid(token_bytes(header_value@).unwrap())) && e is Parse,
        },
{
    let cs = chars_of(header_value);
    let t = trim_chars(cs.as_slice());
    let stripped: Vec<char> = if t.len() >= 4 && t[0] == 'N' && t[1] == 'T' && t[2] == 'L' && t[3] == 'M' {
        assert(t@.subrange(0, 4) =~= ntlm_scheme());
        let mut v: Vec<char> = Vec::new();
        let mut i: usize = 4;
        while i < t.len()
            invariant
                4 <= i <= t@.len(),
                v@ == t@.subrange(4, i as int),
            decreases t.len() - i,
        {
            v.push(t[i]);
            i = i + 1;
            assert(v@ =~= t@.subrange(4, i as int));
        }
        v
    } else {
        assert(t@.len() >= 4 ==> t@.subrange(0, 4) != ntlm_scheme()) by {
            if t@.len() >= 4 && t@.subrange(0, 4) == ntlm_scheme() {
                assert(t@.subrange(0, 4)[0] == t@[0]);
                assert(t@.subrange(0, 4)[1] == t@[1]);
                assert(t@.subrange(0, 4)[2] == t@[2]);
                assert(t@.subrange(0, 4)[3] == t@[3]);
            }
        }
        t
    };
    let token = trim_chars(stripped.as_slice());
    let token_string = string_from_chars(token.as_slice());
    let bytes = utf8_bytes(token_string.as_str());
    let data = match base64_decode(bytes.as_slice()) {
        Some(d) => d,
        None => {
            return Err(ProtoError::Parse("invalid base64"));
        },
    };
    NtlmMessage::decode(data.as_slice())
}

} // verus!
