//! Password hashes, challenge responses and session keys of NTLM.
use vstd::prelude::*;
use crate::text::{utf16le, utf16le_bytes, ascii_upper, ascii_upper_str, chars_of, to_ascii_uppercase};
use crate::ntlm::md4::{md4, md4_digest};
use crate::ntlm::des::{des, des_key_of, des_encrypt_block, des_key_from_7bytes};
use crate::wire::push_bytes;

verus! {

/// What `md5::compute` returns for `data`.
pub uninterp spec fn md5(data: Seq<u8>) -> [u8; 16];

/// The MD5 digest of `data` (`md5::compute`).
#[verifier::external_body]
pub fn md5_digest(data: &[u8]) -> (r: [u8; 16])
    ensures
        r == md5(data@),
{
    md5::compute(data).0
}

/// The 64-byte HMAC key block: the key, or its digest when longer than a block, zero-padded.
pub open spec fn hmac_key_block(key: Seq<u8>) -> Seq<u8> {
    Seq::new(64, |i: int| if key.len() > 64 {
        if i < 16 { md5(key)@[i] } else { 0u8 }
    } else {
        if i < key.len() { key[i] } else { 0u8 }
    })
}

/// Each byte of `s` XORed with `pad`.
pub open spec fn xor_pad(s: Seq<u8>, pad: u8) -> Seq<u8> {
    Seq::new(s.len(), |i: int| s[i] ^ pad)
}

/// HMAC-MD5 (RFC 2104) of `data` under `key`.
pub open spec fn hmac_md5_spec(key: Seq<u8>, data: Seq<u8>) -> Seq<u8> {
    let kb = hmac_key_block(key);
    md5(xor_pad(kb, 0x5c) + md5(xor_pad(kb, 0x36) + data)@)@
}

/// HMAC-MD5 of `data` under `key`.
pub fn hmac_md5(key: &[u8], data: &[u8]) -> (r: [u8; 16])
    ensures
        r@ == hmac_md5_spec(key@, data@),
{
    let mut key_block = [0u8; 64];
    if key.len() > 64 {
        let digest = md5_digest(key);
        let mut i: usize = 0;
        while i < 16
            invariant
                i <= 16,
                key@.len() > 64,
                digest == md5(key@),
                forall|j: int| 0 <= j < i ==> key_block@[j] == md5(key@)@[j],
                forall|j: int| 16 <= j < 64 ==> key_block@[j] == 0,
            decreases 16 - i,
        {
            key_block[i] = digest[i];
            i = i + 1;
        }
    } else {
        let mut i: usize = 0;
        while i < key.len()
            invariant
                i <= key@.len(),
                key@.len() <= 64,
                forall|j: int| 0 <= j < i ==> key_block@[j] == key@[j],
                forall|j: int| key@.len() <= j < 64 ==> key_block@[j] == 0,
            decreases key.len() - i,
        {
            key_block[i] = key[i];
            i = i + 1;
        }
    }
    assert(key_block@ =~= hmac_key_block(key@));
    let mut inner: Vec<u8> = Vec::new();
    let mut outer: Vec<u8> = Vec::new();
    let mut i: usize = 0;
    while i < 64
        invariant
            i <= 64,
            key_block@ == hmac_key_block(key@),
            inner@ == xor_pad(key_block@, 0x36).subrange(0, i as int),
            outer@ == xor_pad(key_block@, 0x5c).subrange(0, i as int),
        decreases 64 - i,
    {
        inner.push(key_block[i] ^ 0x36);
        outer.push(key_block[i] ^ 0x5c);
        i = i + 1;
        assert(inner@ =~= xor_pad(key_block@, 0x36).subrange(0, i as int));
        assert(outer@ =~= xor_pad(key_block@, 0x5c).subrange(0, i as int));
    }
    assert(inner@ =~= xor_pad(key_block@, 0x36));
    assert(outer@ =~= xor_pad(key_block@, 0x5c));
    push_bytes(&mut inner, data);
    let inner_digest = md5_digest(inner.as_slice());
    push_bytes(&mut outer, inner_digest.as_slice());
    md5_digest(outer.as_slice())
}

/// The NT hash of a password: MD4 of its UTF-16LE bytes.
pub open spec fn nt_hash_spec(password: Seq<char>) -> Seq<u8> {
    md4(utf16le(password))
}

/// The NT hash of `password`.
pub fn nt_hash(password: &str) -> (r: [u8; 16])
    ensures
        r@ == nt_hash_spec(password@),
{
    let bytes = utf16le_bytes(password);
    md4_digest(bytes.as_slice())
}

/// The OEM byte that stands for a password character in an LM hash.
pub open spec fn lm_oem_byte(c: char) -> u8 {
    if (c as u32) < 128 { (ascii_upper(c) as u32) as u8 } else { 63u8 }
}

/// The 14 OEM bytes of a password for an LM hash: upper-cased, truncated, zero-padded.
pub open spec fn lm_oem(password: Seq<char>) -> Seq<u8> {
    Seq::new(14, |i: int| if i < password.len() { lm_oem_byte(password[i]) } else { 0u8 })
}

/// The fixed plaintext that LM hashing encrypts.
pub open spec fn lm_magic() -> Seq<u8> {
    seq![0x4bu8, 0x47, 0x53, 0x21, 0x40, 0x23, 0x24, 0x25]
}

/// The LM hash of a password.
pub open spec fn lm_hash_spec(password: Seq<char>) -> Seq<u8> {
    let oem = lm_oem(password);
    des(des_key_of(oem.subrange(0, 7)), lm_magic()) + des(des_key_of(oem.subrange(7, 14)), lm_magic())
}

/// The LM hash of `password`.
pub fn lm_hash(password: &str) -> (r: [u8; 16])
    ensures
        r@ == lm_hash_spec(password@),
{
    broadcast use vstd::utf8::char_u32_cast;
    let cs = chars_of(password);
    let mut oem: Vec<u8> = Vec::new();
    let mut i: usize = 0;
    while i < 14
        invariant
            i <= 14,
            cs@ == password@,
            oem@ == lm_oem(password@).subrange(0, i as int),
        decreases 14 - i,
    {
        let b = if i < cs.len() {
            let c = cs[i];
            let v = c as u32;
            if v < 128 {
                if 'a' <= c && c <= 'z' { (v - 32) as u8 } else { v as u8 }
            } else {
                63u8
            }
        } else {
            0u8
        };
        oem.push(b);
        i = i + 1;
        assert(oem@ =~= lm_oem(password@).subrange(0, i as int));
    }
    assert(oem@ =~= lm_oem(password@));
    let key1 = des_key_from_7bytes(&oem.as_slice()[0..7]);
    let key2 = des_key_from_7bytes(&oem.as_slice()[7..14]);
    let block: [u8; 8] = [0x4b, 0x47, 0x53, 0x21, 0x40, 0x23, 0x24, 0x25];
    assert(block@ =~= lm_magic());
    let h1 = des_encrypt_block(key1, block);
    let h2 = des_encrypt_block(key2, block);
    let out = [h1[0], h1[1], h1[2], h1[3], h1[4], h1[5], h1[6], h1[7], h2[0], h2[1], h2[2], h2[3],
        h2[4], h2[5], h2[6], h2[7]];
    assert(out@ =~= h1@ + h2@);
    out
}

/// The 24-byte DES response to an 8-byte challenge under a 16-byte hash (NTLMv1 and LM).
pub open spec fn des_response(hash: Seq<u8>, challenge: Seq<u8>) -> Seq<u8> {
    let k = hash + seq![0u8, 0, 0, 0, 0];
    des(des_key_of(k.subrange(0, 7)), challenge) + des(des_key_of(k.subrange(7, 14)), challenge)
        + des(des_key_of(k.subrange(14, 21)), challenge)
}

fn des_response_exec(hash: &[u8; 16], challenge: &[u8; 8]) -> (r: [u8; 24])
    ensures
        r@ == des_response(hash@, challenge@),
{
    let mut k: Vec<u8> = Vec::new();
    push_bytes(&mut k, hash.as_slice());
    k.push(0);
    k.push(0);
    k.push(0);
    k.push(0);
    k.push(0);
    assert(k@ =~= hash@ + seq![0u8, 0, 0, 0, 0]);
    let key1 = des_key_from_7bytes(&k.as_slice()[0..7]);
    let key2 = des_key_from_7bytes(&k.as_slice()[7..14]);
    let key3 = des_key_from_7bytes(&k.as_slice()[14..21]);
    let a = des_encrypt_block(key1, *challenge);
    let b = des_encrypt_block(key2, *challenge);
    let c = des_encrypt_block(key3, *challenge);
    let out = [a[0], a[1], a[2], a[3], a[4], a[5], a[6], a[7], b[0], b[1], b[2], b[3], b[4], b[5],
        b[6], b[7], c[0], c[1], c[2], c[3], c[4], c[5], c[6], c[7]];
    assert(out@ =~= a@ + b@ + c@);
    out
}

/// The NTLMv1 response of an NT hash to a server challenge.
pub fn ntlm_v1_response(nt_hash: &[u8; 16], challenge: &[u8; 8]) -> (r: [u8; 24])
    ensures
        r@ == des_response(nt_hash@, challenge@),
{
    des_response_exec(nt_hash, challenge)
}

/// The LM response of an LM hash to a server challenge.
pub fn lm_v1_response(lm_hash: &[u8; 16], challenge: &[u8; 8]) -> (r: [u8; 24])
    ensures
        r@ == des_response(lm_hash@, challenge@),
{
    des_response_exec(lm_hash, challenge)
}

/// The NTLMv2 hash: HMAC-MD5 under the NT hash of the upper-cased user name followed by the domain.
pub open spec fn ntlmv2_hash_spec(nt_hash: Seq<u8>, user: Seq<char>, domain: Seq<char>) -> Seq<u8> {
    hmac_md5_spec(nt_hash, utf16le(ascii_upper_str(user) + domain))
}

/// The NTLMv2 hash of an NT hash, user and domain.
pub fn ntlmv2_hash(nt_hash: &[u8; 16], user: &str, domain: &str) -> (r: [u8; 16])
    ensures
        r@ == ntlmv2_hash_spec(nt_hash@, user@, domain@),
{
    let upper = to_ascii_uppercase(user);
    let mut cs = chars_of(upper.as_str());
    let dcs = chars_of(domain);
    let mut i: usize = 0;
    let ghost start = cs@;
    while i < dcs.len()
        invariant
            i <= dcs@.len(),
            cs@ == start + dcs@.subrange(0, i as int),
        decreases dcs.len() - i,
    {
        cs.push(dcs[i]);
        i = i + 1;
        assert(cs@ =~= start + dcs@.subrange(0, i as int));
    }
    assert(dcs@.subrange(0, dcs@.len() as int) == dcs@);
    let id = crate::text::string_from_chars(cs.as_slice());
    let id_bytes = utf16le_bytes(id.as_str());
    hmac_md5(nt_hash.as_slice(), id_bytes.as_slice())
}

/// The client-to-server signing key derivation constant.
pub open spec fn magic_signing_client() -> Seq<u8> {
    seq![115, 101, 115, 115, 105, 111, 110, 32, 107, 101, 121, 32, 116, 111, 32, 99, 108, 105, 101, 110, 116, 45, 116, 111, 45, 115, 101, 114, 118, 101, 114, 32, 115, 105, 103, 110, 105, 110, 103, 32, 107, 101, 121, 32, 109, 97, 103, 105, 99, 32, 99, 111, 110, 115, 116, 97, 110, 116]
}

fn magic_signing_client_exec() -> (t: [u8; 58])
    ensures
        t@ == magic_signing_client(),
{
    let t: [u8; 58] = [115, 101, 115, 115, 105, 111, 110, 32, 107, 101, 121, 32, 116, 111, 32, 99, 108, 105, 101, 110, 116, 45, 116, 111, 45, 115, 101, 114, 118, 101, 114, 32, 115, 105, 103, 110, 105, 110, 103, 32, 107, 101, 121, 32, 109, 97, 103, 105, 99, 32, 99, 111, 110, 115, 116, 97, 110, 116];
    assert(t@ =~= magic_signing_client());
    t
}

/// The server-to-client signing key derivation constant.
pub open spec fn magic_signing_server() -> Seq<u8> {
    seq![115, 101, 115, 115, 105, 111, 110, 32, 107, 101, 121, 32, 116, 111, 32, 115, 101, 114, 118, 101, 114, 45, 116, 111, 45, 99, 108, 105, 101, 110, 116, 32, 115, 105, 103, 110, 105, 110, 103, 32, 107, 101, 121, 32, 109, 97, 103, 105, 99, 32, 99, 111, 110, 115, 116, 97, 110, 116]
}

fn magic_signing_server_exec() -> (t: [u8; 58])
    ensures
        t@ == magic_signing_server(),
{
    let t: [u8; 58] = [115, 101, 115, 115, 105, 111, 110, 32, 107, 101, 121, 32, 116, 111, 32, 115, 101, 114, 118, 101, 114, 45, 116, 111, 45, 99, 108, 105, 101, 110, 116, 32, 115, 105, 103, 110, 105, 110, 103, 32, 107, 101, 121, 32, 109, 97, 103, 105, 99, 32, 99, 111, 110, 115, 116, 97, 110, 116];
    assert(t@ =~= magic_signing_server());
    t
}

/// The client-to-server sealing key derivation constant.
pub open spec fn magic_sealing_client() -> Seq<u8> {
    seq![115, 101, 115, 115, 105, 111, 110, 32, 107, 101, 121, 32, 116, 111, 32, 99, 108, 105, 101, 110, 116, 45, 116, 111, 45, 115, 101, 114, 118, 101, 114, 32, 115, 101, 97, 108, 105, 110, 103, 32, 107, 101, 121, 32, 109, 97, 103, 105, 99, 32, 99, 111, 110, 115, 116, 97, 110, 116]
}

fn magic_sealing_client_exec() -> (t: [u8; 58])
    ensures
        t@ == magic_sealing_client(),
{
    let t: [u8; 58] = [115, 101, 115, 115, 105, 111, 110, 32, 107, 101, 121, 32, 116, 111, 32, 99, 108, 105, 101, 110, 116, 45, 116, 111, 45, 115, 101, 114, 118, 101, 114, 32, 115, 101, 97, 108, 105, 110, 103, 32, 107, 101, 121, 32, 109, 97, 103, 105, 99, 32, 99, 111, 110, 115, 116, 97, 110, 116];
    assert(t@ =~= magic_sealing_client());
    t
}

/// The server-to-client sealing key derivation constant.
pub open spec fn magic_sealing_server() -> Seq<u8> {
    seq![115, 101, 115, 115, 105, 111, 110, 32, 107, 101, 121, 32, 116, 111, 32, 115, 101, 114, 118, 101, 114, 45, 116, 111, 45, 99, 108, 105, 101, 110, 116, 32, 115, 101, 97, 108, 105, 110, 103, 32, 107, 101, 121, 32, 109, 97, 103, 105, 99, 32, 99, 111, 110, 115, 116, 97, 110, 116]
}

fn magic_sealing_server_exec() -> (t: [u8; 58])
    ensures
        t@ == magic_sealing_server(),
{
    let t: [u8; 58] = [115, 101, 115, 115, 105, 111, 110, 32, 107, 101, 121, 32, 116, 111, 32, 115, 101, 114, 118, 101, 114, 45, 116, 111, 45, 99, 108, 105, 101, 110, 116, 32, 115, 101, 97, 108, 105, 110, 103, 32, 107, 101, 121, 32, 109, 97, 103, 105, 99, 32, 99, 111, 110, 115, 116, 97, 110, 116];
    assert(t@ =~= magic_sealing_server());
    t
}

/// MD5 of a key followed by a derivation constant.
pub open spec fn md5_magic_spec(key: Seq<u8>, magic: Seq<u8>) -> Seq<u8> {
    md5(key + magic)@
}

fn md5_magic(key: &[u8; 16], magic: &[u8]) -> (r: [u8; 16])
    ensures
        r@ == md5_magic_spec(key@, magic@),
{
    let mut data: Vec<u8> = Vec::new();
    push_bytes(&mut data, key.as_slice());
    push_bytes(&mut data, magic);
    md5_digest(data.as_slice())
}

/// The keys of an established NTLM session.
#[derive(Debug, Clone)]
pub struct NtlmSession {
    pub exported_session_key: [u8; 16],
    pub signing_key_client: [u8; 16],
    pub signing_key_server: [u8; 16],
    pub sealing_key_client: [u8; 16],
    pub sealing_key_server: [u8; 16],
}

/// Whether `s` holds the keys derived from the exported session key `k`.
pub open spec fn session_of(s: NtlmSession, k: Seq<u8>) -> bool {
    &&& s.exported_session_key@ == k
    &&& s.signing_key_client@ == md5_magic_spec(k, magic_signing_client())
    &&& s.signing_key_server@ == md5_magic_spec(k, magic_signing_server())
    &&& s.sealing_key_client@ == md5_magic_spec(k, magic_sealing_client())
    &&& s.sealing_key_server@ == md5_magic_spec(k, magic_sealing_server())
}

/// Derives the signing and sealing keys of both directions from the exported session key.
pub fn derive_session_keys(exported_session_key: [u8; 16]) -> (s: NtlmSession)
    ensures
        session_of(s, exported_session_key@),
{
    let m1 = magic_signing_client_exec();
    let m2 = magic_signing_server_exec();
    let m3 = magic_sealing_client_exec();
    let m4 = magic_sealing_server_exec();
    NtlmSession {
        exported_session_key,
        signing_key_client: md5_magic(&exported_session_key, m1.as_slice()),
        signing_key_server: md5_magic(&exported_session_key, m2.as_slice()),
        sealing_key_client: md5_magic(&exported_session_key, m3.as_slice()),
        sealing_key_server: md5_magic(&exported_session_key, m4.as_slice()),
    }
}

/// Whether two byte strings are equal, in time that depends only on their lengths.
pub fn constant_time_eq(a: &[u8], b: &[u8]) -> (r: bool)
    ensures
        r == (a@ == b@),
{
    if a.len() != b.len() {
        return false;
    }
    let mut diff: u8 = 0;
    let mut i: usize = 0;
    while i < a.len()
        invariant
            i <= a@.len(),
            a@.len() == b@.len(),
            (diff == 0) <==> (forall|j: int| 0 <= j < i ==> a@[j] == b@[j]),
        decreases a.len() - i,
    {
        let x = a[i];
        let y = b[i];
        let old_diff = diff;
        diff = diff | (x ^ y);
        assert((diff == 0) <==> (old_diff == 0 && x == y)) by (bit_vector)
            requires
                diff == old_diff | (x ^ y),
        ;
        i = i + 1;
    }
    if diff == 0 {
        assert(a@ =~= b@);
        true
    } else {
        false
    }
}

} // verus!
