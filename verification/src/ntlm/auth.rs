//! The NTLM client and server: the challenge-response exchange and session key agreement.
use vstd::prelude::*;
use ring::rand::SecureRandom;
use crate::error::{ProtoError, ProtoResult};
use crate::text::ascii_upper_str;
use crate::ntlm::av::{
    AvPair, AvModel, Version, NEGOTIATE_EXTENDED_SESSIONSECURITY, NEGOTIATE_KEY_EXCH,
    merge_flags, merge_flags_spec, default_flags, default_flags_spec, av_models, has_eol,
    contains_eol, target_info_bytes, encode_target_info, copy_pairs,
};
use crate::ntlm::message::{NegotiateMessage, NegotiateModel, ChallengeMessage, ChallengeModel, AuthenticateMessage, AuthenticateModel};
use crate::ntlm::hash::{
    NtlmSession, session_of, derive_session_keys, hmac_md5, hmac_md5_spec, nt_hash, nt_hash_spec,
    lm_hash, lm_hash_spec, des_response, ntlm_v1_response, lm_v1_response, ntlmv2_hash,
    ntlmv2_hash_spec, constant_time_eq,
};
use crate::ntlm::md4::{md4, md4_digest};
use crate::ntlm::rc4::{Rc4, rc4_init, rc4_run, xor_bytes};
use crate::wire::{le32, le64, push_le32, push_le64, push_bytes, copy_range};

verus! {

/// A credential: a password or one of its hashes.
#[derive(Debug, Clone)]
pub enum NtlmSecret {
    Plaintext(String),
    NtHash([u8; 16]),
    LmHash([u8; 16]),
}

/// Abstract value of a credential.
pub enum SecretModel {
    Plaintext(Seq<char>),
    NtHash(Seq<u8>),
    LmHash(Seq<u8>),
}

impl View for NtlmSecret {
    type V = SecretModel;

    open spec fn view(&self) -> SecretModel {
        match self {
            NtlmSecret::Plaintext(p) => SecretModel::Plaintext(p@),
            NtlmSecret::NtHash(h) => SecretModel::NtHash(h@),
            NtlmSecret::LmHash(h) => SecretModel::LmHash(h@),
        }
    }
}

/// The NT hash a credential gives, if any.
pub open spec fn secret_nt(s: SecretModel) -> Option<Seq<u8>> {
    match s {
        SecretModel::Plaintext(p) => Some(nt_hash_spec(p)),
        SecretModel::NtHash(h) => Some(h),
        SecretModel::LmHash(_) => None,
    }
}

/// The LM hash a credential gives, if any.
pub open spec fn secret_lm(s: SecretModel) -> Option<Seq<u8>> {
    match s {
        SecretModel::Plaintext(p) => Some(lm_hash_spec(p)),
        SecretModel::NtHash(_) => None,
        SecretModel::LmHash(h) => Some(h),
    }
}

impl NtlmSecret {
    /// The NT hash of the credential, if it gives one.
    pub fn nt_hash(&self) -> (r: Option<[u8; 16]>)
        ensures
            match (r, secret_nt(self@)) {
                (Some(h), Some(m)) => h@ == m,
                (None, None) => true,
                _ => false,
            },
    {
        match self {
            NtlmSecret::Plaintext(value) => Some(nt_hash(value.as_str())),
            NtlmSecret::NtHash(value) => Some(*value),
            NtlmSecret::LmHash(_) => None,
        }
    }

    /// The LM hash of the credential, if it gives one.
    pub fn lm_hash(&self) -> (r: Option<[u8; 16]>)
        ensures
            match (r, secret_lm(self@)) {
                (Some(h), Some(m)) => h@ == m,
                (None, None) => true,
                _ => false,
            },
    {
        match self {
            NtlmSecret::Plaintext(value) => Some(lm_hash(value.as_str())),
            NtlmSecret::NtHash(_) => None,
            NtlmSecret::LmHash(value) => Some(*value),
        }
    }
}

/// What a client is configured with.
#[derive(Debug, Clone)]
pub struct NtlmClientConfig {
    pub username: String,
    pub password: NtlmSecret,
    pub domain: String,
    pub workstation: String,
    pub flags: u32,
    pub client_challenge: Option<[u8; 8]>,
    pub timestamp: Option<u64>,
    pub version: Option<Version>,
}

/// The workstation name a configuration starts with.
pub open spec fn default_workstation() -> Seq<char> {
    seq!['M', 'O', 'O', 'N', 'L', 'I', 'G', 'H', 'T']
}

impl Default for NtlmClientConfig {
    fn default() -> (r: Self)
        ensures
            r.username@ == Seq::<char>::empty(),
            r.password@ == SecretModel::Plaintext(Seq::empty()),
            r.domain@ == Seq::<char>::empty(),
            r.workstation@ == default_workstation(),
            r.flags == default_flags_spec(),
            r.client_challenge is None,
            r.timestamp is None,
            r.version == Some(Version { major: 10, minor: 0, build: 19041, ntlm_rev: 15 }),
    {
        NtlmClientConfig {
            username: String::new(),
            password: NtlmSecret::Plaintext(String::new()),
            domain: String::new(),
            workstation: default_workstation_string(),
            flags: default_flags(),
            client_challenge: None,
            timestamp: None,
            version: Some(Version::windows_10()),
        }
    }
}

fn default_workstation_string() -> (s: String)
    ensures
        s@ == default_workstation(),
{
    let mut s = String::new();
    crate::text::push_char(&mut s, 'M');
    crate::text::push_char(&mut s, 'O');
    crate::text::push_char(&mut s, 'O');
    crate::text::push_char(&mut s, 'N');
    crate::text::push_char(&mut s, 'L');
    crate::text::push_char(&mut s, 'I');
    crate::text::push_char(&mut s, 'G');
    crate::text::push_char(&mut s, 'H');
    crate::text::push_char(&mut s, 'T');
    assert(s@ =~= default_workstation());
    s
}

/// Whether a response takes the NTLMv2 form: extended session security, or target information.
pub open spec fn client_uses_v2(flags: u32, ch: ChallengeModel) -> bool {
    flags & NEGOTIATE_EXTENDED_SESSIONSECURITY != 0 || ch.target_info.len() > 0
}

/// Target information with an end-of-list pair.
pub open spec fn with_eol(ti: Seq<AvModel>) -> Seq<AvModel> {
    if has_eol(ti) { ti } else { ti.push(AvModel::Eol) }
}

/// The NTLMv2 client blob.
pub open spec fn blob_spec(timestamp: u64, client_challenge: Seq<u8>, ti: Seq<AvModel>) -> Seq<u8> {
    le32(0x01010000) + le32(0) + le64(timestamp) + client_challenge + le32(0) + target_info_bytes(ti) + le32(0)
}

/// What the client answers: the LM and NT responses, and the session base key; `None` when the
/// credential lacks a hash that the answer needs.
pub open spec fn client_responses(
    secret: SecretModel,
    user: Seq<char>,
    domain: Seq<char>,
    flags: u32,
    ch: ChallengeModel,
    cc: Seq<u8>,
    ts: u64,
) -> Option<(Seq<u8>, Seq<u8>, Seq<u8>)> {
    match secret_nt(secret) {
        None => None,
        Some(nt) => if client_uses_v2(flags, ch) {
            let v2 = ntlmv2_hash_spec(nt, user, domain);
            let blob = blob_spec(ts, cc, with_eol(ch.target_info));
            let proof = hmac_md5_spec(v2, ch.server_challenge + blob);
            Some((hmac_md5_spec(v2, ch.server_challenge + cc) + cc, proof + blob, hmac_md5_spec(v2, proof)))
        } else {
            match secret_lm(secret) {
                None => None,
                Some(lm) => Some((des_response(lm, ch.server_challenge), des_response(nt, ch.server_challenge), md4(nt))),
            }
        },
    }
}

/// The exported session key and its encrypted form, given the session base key.
pub open spec fn key_exchange(flags: u32, base: Seq<u8>, random_key: Seq<u8>) -> (Seq<u8>, Seq<u8>) {
    if flags & NEGOTIATE_KEY_EXCH != 0 {
        (random_key, xor_bytes(random_key, rc4_run(rc4_init(base), 16).1))
    } else {
        (base, Seq::empty())
    }
}

/// Abstract value of a client configuration.
pub struct ClientConfigModel {
    pub username: Seq<char>,
    pub password: SecretModel,
    pub domain: Seq<char>,
    pub workstation: Seq<char>,
    pub flags: u32,
    pub client_challenge: Option<Seq<u8>>,
    pub timestamp: Option<u64>,
    pub version: Option<Version>,
}

impl View for NtlmClientConfig {
    type V = ClientConfigModel;

    open spec fn view(&self) -> ClientConfigModel {
        ClientConfigModel {
            username: self.username@,
            password: self.password@,
            domain: self.domain@,
            workstation: self.workstation@,
            flags: self.flags,
            client_challenge: match self.client_challenge {
                Some(c) => Some(c@),
                None => None,
            },
            timestamp: self.timestamp,
            version: self.version,
        }
    }
}

/// The authenticate message and exported session key a client produces, given its client
/// challenge, timestamp and random session key; `None` when the credential lacks a needed hash.
pub open spec fn respond_spec(
    c: ClientConfigModel,
    ch: ChallengeModel,
    cc: Seq<u8>,
    ts: u64,
    random_key: Seq<u8>,
) -> Option<(AuthenticateModel, Seq<u8>)> {
    let flags = merge_flags_spec(c.flags, ch.flags);
    match client_responses(c.password, c.username, c.domain, flags, ch, cc, ts) {
        None => None,
        Some((lm, nt, base)) => {
            let (exported, encrypted) = key_exchange(flags, base, random_key);
            Some((
                AuthenticateModel {
                    lm_response: lm,
                    nt_response: nt,
                    domain: c.domain,
                    user: c.username,
                    workstation: c.workstation,
                    encrypted_session_key: encrypted,
                    flags,
                    version: c.version,
                    mic: None,
                },
                exported,
            ))
        },
    }
}

/// Fills `buf` from the system's secure random source (`ring::rand::SystemRandom`); a
/// failure of the source leaves `buf` as it was.
#[verifier::external_body]
fn fill_random(buf: &mut Vec<u8>)
    ensures
        final(buf)@.len() == old(buf)@.len(),
{
    let _ = ring::rand::SystemRandom::new().fill(buf.as_mut_slice());
}

fn random_bytes_8() -> (r: [u8; 8]) {
    let mut v: Vec<u8> = vec![0u8; 8];
    fill_random(&mut v);
    [v[0], v[1], v[2], v[3], v[4], v[5], v[6], v[7]]
}

fn random_bytes_16() -> (r: [u8; 16]) {
    let mut v: Vec<u8> = vec![0u8; 16];
    fill_random(&mut v);
    [v[0], v[1], v[2], v[3], v[4], v[5], v[6], v[7], v[8], v[9], v[10], v[11], v[12], v[13], v[14],
        v[15]]
}

/// A Windows FILETIME: hundreds of nanoseconds since 1601, modulo 2^64.
pub open spec fn filetime_of(secs: u64, nanos: u32) -> u64 {
    (((secs + 11644473600) * 10_000_000 + nanos / 100) % 0x1_0000_0000_0000_0000) as u64
}

/// Converts a Unix time to a Windows FILETIME, wrapping at 2^64.
pub fn filetime_from_unix(secs: u64, nanos: u32) -> (r: u64)
    ensures
        r == filetime_of(secs, nanos),
{
    let t = secs.wrapping_add(11644473600).wrapping_mul(10_000_000).wrapping_add((nanos / 100) as u64);
    proof {
        let m: int = 0x1_0000_0000_0000_0000;
        let a = (secs + 11644473600) % m;
        let b = (a * 10_000_000) % m;
        assert(b == ((secs + 11644473600) * 10_000_000) % m) by {
            vstd::arithmetic::div_mod::lemma_mul_mod_noop_left(secs + 11644473600, 10_000_000, m);
        }
        assert((b + nanos / 100) % m == ((secs + 11644473600) * 10_000_000 + nanos / 100) % m) by {
            vstd::arithmetic::div_mod::lemma_add_mod_noop((secs + 11644473600) * 10_000_000, (nanos / 100) as int, m);
            vstd::arithmetic::div_mod::lemma_mod_twice((secs + 11644473600) * 10_000_000, m);
            vstd::arithmetic::div_mod::lemma_add_mod_noop(b, (nanos / 100) as int, m);
        }
    }
    t
}

/// The current time as a Windows FILETIME.
pub fn filetime_now() -> (r: u64)
    ensures
        exists|secs: u64, nanos: u32| nanos < 1_000_000_000 && r == #[trigger] filetime_of(secs, nanos),
{
    let (secs, nanos) = crate::clock::unix_time_now();
    let r = filetime_from_unix(secs, nanos);
    assert(r == filetime_of(secs, nanos));
    r
}

/// The client side of an NTLM exchange.
#[derive(Debug, Clone)]
pub struct NtlmClient {
    config: NtlmClientConfig,
}

impl View for NtlmClient {
    type V = ClientConfigModel;

    closed spec fn view(&self) -> ClientConfigModel {
        self.config@
    }
}

fn build_ntlmv2_blob(timestamp: u64, client_challenge: [u8; 8], target_info: &[AvPair]) -> (blob: Vec<u8>)
    ensures
        blob@ == blob_spec(timestamp, client_challenge@, av_models(target_info@)),
{
    let mut blob: Vec<u8> = Vec::new();
    push_le32(&mut blob, 0x01010000);
    push_le32(&mut blob, 0);
    push_le64(&mut blob, timestamp);
    push_bytes(&mut blob, client_challenge.as_slice());
    push_le32(&mut blob, 0);
    let info = encode_target_info(target_info);
    push_bytes(&mut blob, info.as_slice());
    push_le32(&mut blob, 0);
    blob
}

fn concat(a: &[u8], b: &[u8]) -> (r: Vec<u8>)
    ensures
        r@ == a@ + b@,
{
    let mut v: Vec<u8> = Vec::new();
    push_bytes(&mut v, a);
    push_bytes(&mut v, b);
    v
}

fn v2_responses(
    nt_hash: &[u8; 16],
    user: &str,
    domain: &str,
    challenge: &ChallengeMessage,
    client_challenge: [u8; 8],
    timestamp: u64,
) -> (r: (Vec<u8>, Vec<u8>, [u8; 16]))
    ensures
        ({
            let v2 = ntlmv2_hash_spec(nt_hash@, user@, domain@);
            let blob = blob_spec(timestamp, client_challenge@, with_eol(challenge@.target_info));
            let proof = hmac_md5_spec(v2, challenge@.server_challenge + blob);
            &&& r.0@ == hmac_md5_spec(v2, challenge@.server_challenge + client_challenge@) + client_challenge@
            &&& r.1@ == proof + blob
            &&& r.2@ == hmac_md5_spec(v2, proof)
        }),
{
    let v2_hash = ntlmv2_hash(nt_hash, user, domain);
    let blob = if contains_eol(challenge.target_info.as_slice()) {
        build_ntlmv2_blob(timestamp, client_challenge, challenge.target_info.as_slice())
    } else {
        let mut target_info = copy_pairs(challenge.target_info.as_slice());
        target_info.push(AvPair::Eol);
        proof {
            assert(av_models(target_info@) =~= av_models(challenge.target_info@).push(AvModel::Eol));
        }
        build_ntlmv2_blob(timestamp, client_challenge, target_info.as_slice())
    };
    let data = concat(challenge.server_challenge.as_slice(), blob.as_slice());
    let nt_proof = hmac_md5(v2_hash.as_slice(), data.as_slice());
    let nt_response = concat(nt_proof.as_slice(), blob.as_slice());
    let lm_data = concat(challenge.server_challenge.as_slice(), client_challenge.as_slice());
    let lm = hmac_md5(v2_hash.as_slice(), lm_data.as_slice());
    let lm_response = concat(lm.as_slice(), client_challenge.as_slice());
    let session_base_key = hmac_md5(v2_hash.as_slice(), nt_proof.as_slice());
    (lm_response, nt_response, session_base_key)
}

fn v1_responses(nt_hash: &[u8; 16], lm_hash: &[u8; 16], challenge: &ChallengeMessage) -> (r: (Vec<u8>, Vec<u8>, [u8; 16]))
    ensures
        r.0@ == des_response(lm_hash@, challenge@.server_challenge),
        r.1@ == des_response(nt_hash@, challenge@.server_challenge),
        r.2@ == md4(nt_hash@),
{
    let nt_response = ntlm_v1_response(nt_hash, &challenge.server_challenge);
    let lm_response = lm_v1_response(lm_hash, &challenge.server_challenge);
    let session_base_key = md4_digest(nt_hash.as_slice());
    let lm = copy_range(lm_response.as_slice(), 0, 24);
    let nt = copy_range(nt_response.as_slice(), 0, 24);
    assert(lm@ =~= lm_response@);
    assert(nt@ =~= nt_response@);
    (lm, nt, session_base_key)
}

impl NtlmClient {
    /// A client with the given configuration.
    pub fn new(config: NtlmClientConfig) -> (c: NtlmClient)
        ensures
            c@ == config@,
    {
        NtlmClient { config }
    }

    /// The negotiate message the client opens with.
    pub fn negotiate(&self) -> (m: NegotiateMessage)
        ensures
            m@ == (NegotiateModel {
                flags: self@.flags,
                domain: self@.domain,
                workstation: self@.workstation,
                version: self@.version,
            }),
    {
        NegotiateMessage {
            flags: self.config.flags,
            domain: self.config.domain.clone(),
            workstation: self.config.workstation.clone(),
            version: self.config.version,
        }
    }

    /// Answers a challenge, with the given client challenge, timestamp and random session key.
    pub fn respond_with(
        &self,
        challenge: &ChallengeMessage,
        client_challenge: [u8; 8],
        timestamp: u64,
        random_key: [u8; 16],
    ) -> (r: ProtoResult<(AuthenticateMessage, NtlmSession)>)
        ensures
            match (r, respond_spec(self@, challenge@, client_challenge@, timestamp, random_key@)) {
                (Ok((auth, session)), Some((m, k))) => auth@ == m && session_of(session, k),
                (Err(e), None) => e is Message,
                _ => false,
            },
    {
        let flags = merge_flags(self.config.flags, challenge.flags);
        let nt_hash = match self.config.password.nt_hash() {
            Some(h) => h,
            None => {
                return Err(ProtoError::Message("NTLM client requires NT hash"));
            },
        };
        let lm_hash_opt = self.config.password.lm_hash();
        let (lm_response, nt_response, session_base_key) = if (flags & NEGOTIATE_EXTENDED_SESSIONSECURITY) != 0
            || challenge.target_info.len() > 0 {
            v2_responses(&nt_hash, self.config.username.as_str(), self.config.domain.as_str(), challenge, client_challenge, timestamp)
        } else {
            let lm = match lm_hash_opt {
                Some(h) => h,
                None => {
                    return Err(ProtoError::Message("NTLMv1 requires LM hash"));
                },
            };
            v1_responses(&nt_hash, &lm, challenge)
        };
        let (exported_session_key, encrypted_session_key) = if (flags & NEGOTIATE_KEY_EXCH) != 0 {
            let mut rc4 = Rc4::new(session_base_key.as_slice());
            let encrypted = rc4.apply(random_key.as_slice());
            (random_key, encrypted)
        } else {
            (session_base_key, Vec::new())
        };
        let session = derive_session_keys(exported_session_key);
        let authenticate = AuthenticateMessage {
            lm_response,
            nt_response,
            domain: self.config.domain.clone(),
            user: self.config.username.clone(),
            workstation: self.config.workstation.clone(),
            encrypted_session_key,
            flags,
            version: self.config.version,
            mic: None,
        };
        Ok((authenticate, session))
    }

    /// Answers a challenge; the client challenge and timestamp come from the configuration,
    /// else from the secure random source and the clock, and the random session key from the
    /// secure random source.
    pub fn respond(&self, challenge: &ChallengeMessage) -> (r: ProtoResult<(AuthenticateMessage, NtlmSession)>)
        ensures
            exists|cc: Seq<u8>, ts: u64, rk: Seq<u8>|
                #![trigger respond_spec(self@, challenge@, cc, ts, rk)]
                (self@.client_challenge matches Some(c) ==> cc == c) && (self@.timestamp matches Some(t) ==> ts == t)
                && match (r, respond_spec(self@, challenge@, cc, ts, rk)) {
                    (Ok((auth, session)), Some((m, k))) => auth@ == m && session_of(session, k),
                    (Err(e), None) => e is Message,
                    _ => false,
                },
    {
        let client_challenge = match self.config.client_challenge {
            Some(c) => c,
            None => random_bytes_8(),
        };
        let timestamp = match self.config.timestamp {
            Some(t) => t,
            None => filetime_now(),
        };
        let random_key = random_bytes_16();
        let r = self.respond_with(challenge, client_challenge, timestamp, random_key);
        assert(self@.client_challenge matches Some(c) ==> client_challenge@ == c);
        let ghost spec = respond_spec(self@, challenge@, client_challenge@, timestamp, random_key@);
        r
    }
}

/// A credential table: user names with their credentials, first match wins.
pub open spec fn cred_find(creds: Seq<(Seq<char>, SecretModel)>, name: Seq<char>) -> Option<SecretModel>
    decreases creds.len(),
{
    if creds.len() == 0 {
        None
    } else if creds[0].0 == name {
        Some(creds[0].1)
    } else {
        cred_find(creds.drop_first(), name)
    }
}

/// The credential table's abstract value.
pub open spec fn creds_model(creds: Seq<(String, NtlmSecret)>) -> Seq<(Seq<char>, SecretModel)> {
    creds.map_values(|e: (String, NtlmSecret)| (e.0@, e.1@))
}

/// What a server is configured with.
#[derive(Debug, Clone)]
pub struct NtlmServerConfig {
    pub target_name: String,
    pub flags: u32,
    pub server_challenge: Option<[u8; 8]>,
    pub target_info: Vec<AvPair>,
    pub credentials: Vec<(String, NtlmSecret)>,
    pub version: Option<Version>,
}

impl Default for NtlmServerConfig {
    fn default() -> (r: Self)
        ensures
            r.target_name@ == default_workstation(),
            r.flags == default_flags_spec(),
            r.server_challenge is None,
            r.target_info@.len() == 0,
            r.credentials@.len() == 0,
            r.version == Some(Version { major: 10, minor: 0, build: 19041, ntlm_rev: 15 }),
    {
        NtlmServerConfig {
            target_name: default_workstation_string(),
            flags: default_flags(),
            server_challenge: None,
            target_info: Vec::new(),
            credentials: Vec::new(),
            version: Some(Version::windows_10()),
        }
    }
}

impl NtlmServerConfig {
    /// Sets the credential of `user`, replacing the one it had.
    pub fn insert_credential(&mut self, user: String, secret: NtlmSecret)
        ensures
            forall|name: Seq<char>| #[trigger] cred_find(creds_model(final(self).credentials@), name) == if name == user@ {
                Some(secret@)
            } else {
                cred_find(creds_model(old(self).credentials@), name)
            },
            final(self).target_name == old(self).target_name,
            final(self).flags == old(self).flags,
            final(self).server_challenge == old(self).server_challenge,
            final(self).target_info == old(self).target_info,
            final(self).version == old(self).version,
    {
        let ghost old_creds = creds_model(self.credentials@);
        let mut kept: Vec<(String, NtlmSecret)> = Vec::new();
        let ghost user_v = user@;
        let ghost secret_v = secret@;
        kept.push((user, secret));
        let mut i: usize = 0;
        proof {
            let km = creds_model(kept@);
            assert(km[0] == (user_v, secret_v));
            assert(km.drop_first().len() == 0);
            assert(old_creds.subrange(0, 0).len() == 0);
            assert forall|name: Seq<char>| #[trigger] cred_find(creds_model(kept@), name) == if name == user_v {
                Some(secret_v)
            } else {
                cred_find(old_creds.subrange(0, i as int), name)
            } by {
                assert(cred_find(km.drop_first(), name) is None);
                assert(cred_find(old_creds.subrange(0, 0), name) is None);
            }
        }
        while i < self.credentials.len()
            invariant
                i <= self.credentials@.len(),
                old_creds == creds_model(self.credentials@),
                kept@.len() >= 1,
                kept@[0].0@ == user_v,
                kept@[0].1@ == secret_v,
                forall|name: Seq<char>| #[trigger] cred_find(creds_model(kept@), name) == if name == user_v {
                    Some(secret_v)
                } else {
                    cred_find(old_creds.subrange(0, i as int), name)
                },
            decreases self.credentials.len() - i,
        {
            let entry = &self.credentials[i];
            let name = entry.0.clone();
            if !(name == kept[0].0) {
                let copy = (name, entry.1.clone_secret());
                proof {
                    lemma_cred_find_push(creds_model(kept@), (copy.0@, copy.1@));
                    lemma_cred_find_push(old_creds.subrange(0, i as int), old_creds[i as int]);
                    assert(old_creds.subrange(0, i as int).push(old_creds[i as int]) == old_creds.subrange(0, i + 1));
                    assert(creds_model(kept@.push(copy)) == creds_model(kept@).push((copy.0@, copy.1@)));
                }
                kept.push(copy);
            } else {
                proof {
                    lemma_cred_find_push(old_creds.subrange(0, i as int), old_creds[i as int]);
                    assert(old_creds.subrange(0, i as int).push(old_creds[i as int]) == old_creds.subrange(0, i + 1));
                }
            }
            i = i + 1;
        }
        assert(old_creds.subrange(0, old_creds.len() as int) == old_creds);
        self.credentials = kept;
    }
}

/// Looking a name up in a table extended at its end finds the same entry, or the new one.
pub proof fn lemma_cred_find_push(creds: Seq<(Seq<char>, SecretModel)>, e: (Seq<char>, SecretModel))
    ensures
        forall|name: Seq<char>| #[trigger] cred_find(creds.push(e), name) == match cred_find(creds, name) {
            Some(s) => Some(s),
            None => if e.0 == name { Some(e.1) } else { None },
        },
{
    assert forall|name: Seq<char>| #[trigger] cred_find(creds.push(e), name) == match cred_find(creds, name) {
        Some(s) => Some(s),
        None => if e.0 == name { Some(e.1) } else { None },
    } by {
        lemma_cred_find_push_one(creds, e, name);
    }
}

#[verifier::spinoff_prover]
proof fn lemma_cred_find_push_one(creds: Seq<(Seq<char>, SecretModel)>, e: (Seq<char>, SecretModel), name: Seq<char>)
    ensures
        cred_find(creds.push(e), name) == match cred_find(creds, name) {
            Some(s) => Some(s),
            None => if e.0 == name { Some(e.1) } else { None },
        },
    decreases creds.len(),
{
    let p = creds.push(e);
    if creds.len() == 0 {
        assert(p[0] == e);
        assert(p.drop_first().len() == 0);
        assert(cred_find(p.drop_first(), name) is None);
    } else {
        assert(p[0] == creds[0]);
        assert(p.drop_first() == creds.drop_first().push(e));
        lemma_cred_find_push_one(creds.drop_first(), e, name);
    }
}

impl NtlmSecret {
    /// A copy of the credential.
    pub fn clone_secret(&self) -> (r: NtlmSecret)
        ensures
            r@ == self@,
    {
        match self {
            NtlmSecret::Plaintext(p) => NtlmSecret::Plaintext(p.clone()),
            NtlmSecret::NtHash(h) => NtlmSecret::NtHash(*h),
            NtlmSecret::LmHash(h) => NtlmSecret::LmHash(*h),
        }
    }
}

/// Abstract value of a server configuration.
pub struct ServerConfigModel {
    pub target_name: Seq<char>,
    pub flags: u32,
    pub server_challenge: Option<Seq<u8>>,
    pub target_info: Seq<AvModel>,
    pub credentials: Seq<(Seq<char>, SecretModel)>,
    pub version: Option<Version>,
}

impl View for NtlmServerConfig {
    type V = ServerConfigModel;

    open spec fn view(&self) -> ServerConfigModel {
        ServerConfigModel {
            target_name: self.target_name@,
            flags: self.flags,
            server_challenge: match self.server_challenge {
                Some(c) => Some(c@),
                None => None,
            },
            target_info: av_models(self.target_info@),
            credentials: creds_model(self.credentials@),
            version: self.version,
        }
    }
}

/// The server side of an NTLM exchange.
#[derive(Debug, Clone)]
pub struct NtlmServer {
    config: NtlmServerConfig,
}

impl View for NtlmServer {
    type V = ServerConfigModel;

    closed spec fn view(&self) -> ServerConfigModel {
        self.config@
    }
}

/// The challenge a server sends, given the server challenge it uses.
pub open spec fn challenge_spec(c: ServerConfigModel, negotiate: NegotiateModel, sc: Seq<u8>) -> ChallengeModel {
    ChallengeModel {
        target_name: c.target_name,
        flags: merge_flags_spec(c.flags, negotiate.flags),
        server_challenge: sc,
        target_info: c.target_info,
        version: c.version,
    }
}

/// The credential the server holds for the user an authenticate message names: by its
/// upper-case name first, then by the name as given.
pub open spec fn server_secret(c: ServerConfigModel, user: Seq<char>) -> Option<SecretModel> {
    match cred_find(c.credentials, ascii_upper_str(user)) {
        Some(s) => Some(s),
        None => cred_find(c.credentials, user),
    }
}

/// Whether the server checks the response as NTLMv2.
pub open spec fn server_uses_v2(a: AuthenticateModel) -> bool {
    a.flags & NEGOTIATE_EXTENDED_SESSIONSECURITY != 0 || a.nt_response.len() > 24
}

/// Whether an NTLMv2 response is too short to hold a proof.
pub open spec fn server_short_response(c: ServerConfigModel, a: AuthenticateModel) -> bool {
    &&& server_secret(c, a.user) matches Some(s)
    &&& secret_nt(s) is Some
    &&& server_uses_v2(a)
    &&& a.nt_response.len() < 16
}

/// The session base key the server derives when it accepts the responses; `None` when it
/// refuses them.
pub open spec fn server_base_key(c: ServerConfigModel, ch: ChallengeModel, a: AuthenticateModel) -> Option<Seq<u8>> {
    match server_secret(c, a.user) {
        None => None,
        Some(secret) => match secret_nt(secret) {
            None => None,
            Some(nt) => if server_uses_v2(a) {
                let v2 = ntlmv2_hash_spec(nt, a.user, a.domain);
                if a.nt_response.len() < 16 {
                    None
                } else {
                    let proof = a.nt_response.subrange(0, 16);
                    let blob = a.nt_response.subrange(16, a.nt_response.len() as int);
                    if (hmac_md5_spec(v2, ch.server_challenge + blob) != proof) {
                        None
                    } else if (a.lm_response.len() == 24 && hmac_md5_spec(v2, ch.server_challenge + a.lm_response.subrange(16, 24)) != a.lm_response.subrange(0, 16)) {
                        None
                    } else {
                        Some(hmac_md5_spec(v2, proof))
                    }
                }
            } else {
                if (des_response(nt, ch.server_challenge) != a.nt_response) {
                    None
                } else if (a.lm_response.len() != 0 && match secret_lm(secret) {
                    None => true,
                    Some(lm) => des_response(lm, ch.server_challenge) != a.lm_response,
                }) {
                    None
                } else {
                    Some(md4(nt))
                }
            },
        },
    }
}

/// The exported session key the server arrives at, given the session base key.
pub open spec fn server_exported_key(a: AuthenticateModel, base: Seq<u8>) -> Seq<u8> {
    if a.flags & NEGOTIATE_KEY_EXCH != 0 && a.encrypted_session_key.len() == 16 {
        xor_bytes(a.encrypted_session_key, rc4_run(rc4_init(base), 16).1)
    } else {
        base
    }
}

fn find_secret(creds: &Vec<(String, NtlmSecret)>, name: &String) -> (r: Option<usize>)
    ensures
        match r {
            Some(i) => i < creds@.len() && cred_find(creds_model(creds@), name@) == Some(creds@[i as int].1@),
            None => cred_find(creds_model(creds@), name@) is None,
        },
{
    let ghost m = creds_model(creds@);
    let mut i: usize = 0;
    assert(m.subrange(0, m.len() as int) == m);
    while i < creds.len()
        invariant
            i <= creds@.len(),
            m == creds_model(creds@),
            cred_find(m, name@) == cred_find(m.subrange(i as int, m.len() as int), name@),
        decreases creds.len() - i,
    {
        assert(m.subrange(i as int, m.len() as int)[0] == m[i as int]);
        if creds[i].0 == *name {
            return Some(i);
        }
        assert(m.subrange(i as int, m.len() as int).drop_first() == m.subrange(i + 1, m.len() as int));
        i = i + 1;
    }
    None
}

impl NtlmServer {
    /// A server with the given configuration.
    pub fn new(config: NtlmServerConfig) -> (s: NtlmServer)
        ensures
            s@ == config@,
    {
        NtlmServer { config }
    }

    /// The challenge that answers `negotiate`, with the given server challenge.
    pub fn challenge_with(&self, negotiate: &NegotiateMessage, server_challenge: [u8; 8]) -> (m: ChallengeMessage)
        ensures
            m@ == challenge_spec(self@, negotiate@, server_challenge@),
    {
        ChallengeMessage {
            target_name: self.config.target_name.clone(),
            flags: merge_flags(self.config.flags, negotiate.flags),
            server_challenge,
            target_info: copy_pairs(self.config.target_info.as_slice()),
            version: self.config.version,
        }
    }

    /// The challenge that answers `negotiate`; the server challenge comes from the
    /// configuration, else from the secure random source.
    pub fn challenge(&self, negotiate: &NegotiateMessage) -> (m: ChallengeMessage)
        ensures
            self@.server_challenge matches Some(sc) ==> m@ == challenge_spec(self@, negotiate@, sc),
            m@ == challenge_spec(self@, negotiate@, m@.server_challenge),
    {
        let server_challenge = match self.config.server_challenge {
            Some(c) => c,
            None => random_bytes_8(),
        };
        self.challenge_with(negotiate, server_challenge)
    }

    /// Checks the responses of an authenticate message against the challenge it answers, and
    /// derives the session keys.
    pub fn authenticate(&self, challenge: &ChallengeMessage, authenticate: &AuthenticateMessage) -> (r: ProtoResult<NtlmSession>)
        ensures
            match (r, server_base_key(self@, challenge@, authenticate@)) {
                (Ok(session), Some(base)) => session_of(session, server_exported_key(authenticate@, base)),
                (Err(e), None) => e is Parse <==> server_short_response(self@, authenticate@),
                _ => false,
            },
    {
        let username_key = crate::text::to_ascii_uppercase(authenticate.user.as_str());
        let idx = match find_secret(&self.config.credentials, &username_key) {
            Some(i) => i,
            None => match find_secret(&self.config.credentials, &authenticate.user) {
                Some(i) => i,
                None => {
                    return Err(ProtoError::Message("unknown NTLM user"));
                },
            },
        };
        let secret = &self.config.credentials[idx].1;
        assert(server_secret(self@, authenticate@.user) == Some(secret@));
        let flags = authenticate.flags;
        let nt_hash = match secret.nt_hash() {
            Some(h) => h,
            None => {
                return Err(ProtoError::Message("NTLM server requires NT hash"));
            },
        };
        let lm_hash = secret.lm_hash();
        let session_base_key = if (flags & NEGOTIATE_EXTENDED_SESSIONSECURITY) != 0
            || authenticate.nt_response.len() > 24 {
            check_v2(&nt_hash, challenge, authenticate)?
        } else {
            check_v1(&nt_hash, lm_hash, challenge, authenticate)?
        };
        let exported_session_key = if (flags & NEGOTIATE_KEY_EXCH) != 0
            && authenticate.encrypted_session_key.len() == 16 {
            let mut rc4 = Rc4::new(session_base_key.as_slice());
            let decrypted = rc4.apply(authenticate.encrypted_session_key.as_slice());
            let out = [decrypted[0], decrypted[1], decrypted[2], decrypted[3], decrypted[4], decrypted[5],
                decrypted[6], decrypted[7], decrypted[8], decrypted[9], decrypted[10], decrypted[11],
                decrypted[12], decrypted[13], decrypted[14], decrypted[15]];
            assert(out@ =~= decrypted@);
            out
        } else {
            session_base_key
        };
        Ok(derive_session_keys(exported_session_key))
    }
}

fn check_v2(nt_hash: &[u8; 16], challenge: &ChallengeMessage, authenticate: &AuthenticateMessage) -> (r: ProtoResult<[u8; 16]>)
    ensures
        ({
            let a = authenticate@;
            let v2 = ntlmv2_hash_spec(nt_hash@, a.user, a.domain);
            let sc = challenge@.server_challenge;
            let ok = a.nt_response.len() >= 16
                && hmac_md5_spec(v2, sc + a.nt_response.subrange(16, a.nt_response.len() as int)) == a.nt_response.subrange(0, 16)
                && !(a.lm_response.len() == 24 && hmac_md5_spec(v2, sc + a.lm_response.subrange(16, 24)) != a.lm_response.subrange(0, 16));
            match r {
                Ok(k) => ok && k@ == hmac_md5_spec(v2, a.nt_response.subrange(0, 16)),
                Err(e) => !ok && (e is Parse <==> a.nt_response.len() < 16),
            }
        }),
{
    let v2_hash = ntlmv2_hash(nt_hash, authenticate.user.as_str(), authenticate.domain.as_str());
    let nt_response = &authenticate.nt_response;
    if nt_response.len() < 16 {
        return Err(ProtoError::Parse("invalid NTLMv2 response"));
    }
    let nt_proof = &nt_response.as_slice()[0..16];
    let blob = &nt_response.as_slice()[16..nt_response.len()];
    let data = concat(challenge.server_challenge.as_slice(), blob);
    let expected = hmac_md5(v2_hash.as_slice(), data.as_slice());
    if !constant_time_eq(expected.as_slice(), nt_proof) {
        return Err(ProtoError::Message("invalid NTLMv2 proof"));
    }
    if authenticate.lm_response.len() == 24 {
        let lm_data = concat(challenge.server_challenge.as_slice(), &authenticate.lm_response.as_slice()[16..24]);
        let expected_lm = hmac_md5(v2_hash.as_slice(), lm_data.as_slice());
        if !constant_time_eq(expected_lm.as_slice(), &authenticate.lm_response.as_slice()[0..16]) {
            return Err(ProtoError::Message("invalid LMv2 response"));
        }
    }
    Ok(hmac_md5(v2_hash.as_slice(), nt_proof))
}

fn check_v1(nt_hash: &[u8; 16], lm_hash: Option<[u8; 16]>, challenge: &ChallengeMessage, authenticate: &AuthenticateMessage) -> (r: ProtoResult<[u8; 16]>)
    ensures
        ({
            let a = authenticate@;
            let sc = challenge@.server_challenge;
            let ok = des_response(nt_hash@, sc) == a.nt_response && !(a.lm_response.len() != 0 && match lm_hash {
                None => true,
                Some(lm) => des_response(lm@, sc) != a.lm_response,
            });
            match r {
                Ok(k) => ok && k@ == md4(nt_hash@),
                Err(e) => !ok && e is Message,
            }
        }),
{
    let expected_nt = ntlm_v1_response(nt_hash, &challenge.server_challenge);
    if !constant_time_eq(expected_nt.as_slice(), authenticate.nt_response.as_slice()) {
        return Err(ProtoError::Message("invalid NTLMv1 response"));
    }
    if authenticate.lm_response.len() != 0 {
        match lm_hash {
            Some(lm) => {
                let expected_lm = lm_v1_response(&lm, &challenge.server_challenge);
                if !constant_time_eq(expected_lm.as_slice(), authenticate.lm_response.as_slice()) {
                    return Err(ProtoError::Message("invalid LM response"));
                }
            },
            None => {
                return Err(ProtoError::Message("LM hash unavailable"));
            },
        }
    }
    Ok(md4_digest(nt_hash.as_slice()))
}

/// XORing twice with the same key stream gives the data back.
pub proof fn lemma_xor_twice(data: Seq<u8>, ks: Seq<u8>)
    requires
        ks.len() >= data.len(),
    ensures
        xor_bytes(xor_bytes(data, ks), ks) == data,
{
    assert forall|i: int| 0 <= i < data.len() implies #[trigger] xor_bytes(xor_bytes(data, ks), ks)[i] == data[i] by {
        let a = data[i];
        let b = ks[i];
        assert((a ^ b) ^ b == a) by (bit_vector);
    }
    assert(xor_bytes(xor_bytes(data, ks), ks) =~= data);
}

/// An NTLM exchange succeeds: when the server holds, for the client's user, a credential
/// with the same NT hash as the client's, and the exchange is NTLMv2 (extended session
/// security agreed, or target information sent) or both sides hold the same LM hash, the
/// server accepts the client's answer to its challenge and both sides arrive at the same
/// exported session key.
pub proof fn lemma_ntlm_handshake(
    c: ClientConfigModel,
    s: ServerConfigModel,
    server_challenge: Seq<u8>,
    cc: Seq<u8>,
    ts: u64,
    rk: Seq<u8>,
)
    requires
        server_challenge.len() == 8,
        cc.len() == 8,
        rk.len() == 16,
        secret_nt(c.password) is Some,
        server_secret(s, c.username) matches Some(ss) && secret_nt(ss) == secret_nt(c.password) && (
        merge_flags_spec(c.flags, merge_flags_spec(s.flags, c.flags)) & NEGOTIATE_EXTENDED_SESSIONSECURITY != 0
            || s.target_info.len() > 0 || (secret_lm(c.password) is Some && secret_lm(ss) == secret_lm(c.password))),
    ensures
        ({
            let n = NegotiateModel { flags: c.flags, domain: c.domain, workstation: c.workstation, version: c.version };
            let ch = challenge_spec(s, n, server_challenge);
            &&& respond_spec(c, ch, cc, ts, rk) is Some
            &&& server_base_key(s, ch, respond_spec(c, ch, cc, ts, rk).unwrap().0) is Some
            &&& server_exported_key(
                respond_spec(c, ch, cc, ts, rk).unwrap().0,
                server_base_key(s, ch, respond_spec(c, ch, cc, ts, rk).unwrap().0).unwrap(),
            ) == respond_spec(c, ch, cc, ts, rk).unwrap().1
        }),
{
    let n = NegotiateModel { flags: c.flags, domain: c.domain, workstation: c.workstation, version: c.version };
    let ch = challenge_spec(s, n, server_challenge);
    let flags = merge_flags_spec(c.flags, ch.flags);
    let nt = secret_nt(c.password).unwrap();
    let base = if client_uses_v2(flags, ch) {
        lemma_v2_accepted(c, s, ch, cc, ts, rk)
    } else {
        lemma_v1_accepted(c, s, ch, cc, ts, rk)
    };
    if flags & NEGOTIATE_KEY_EXCH != 0 {
        let ks = rc4_run(rc4_init(base), 16).1;
        assert(ks.len() == 16) by {
            lemma_rc4_run_len(rc4_init(base), 16);
        }
        lemma_xor_twice(rk, ks);
    }
}

proof fn lemma_v2_accepted(
    c: ClientConfigModel,
    s: ServerConfigModel,
    ch: ChallengeModel,
    cc: Seq<u8>,
    ts: u64,
    rk: Seq<u8>,
) -> (base: Seq<u8>)
    requires
        ch.server_challenge.len() == 8,
        cc.len() == 8,
        secret_nt(c.password) is Some,
        server_secret(s, c.username) matches Some(ss) && secret_nt(ss) == secret_nt(c.password),
        client_uses_v2(merge_flags_spec(c.flags, ch.flags), ch),
    ensures
        client_responses(c.password, c.username, c.domain, merge_flags_spec(c.flags, ch.flags), ch, cc, ts)
            matches Some((_, _, b)) && b == base,
        respond_spec(c, ch, cc, ts, rk) is Some,
        server_base_key(s, ch, respond_spec(c, ch, cc, ts, rk).unwrap().0) == Some(base),
{
    let flags = merge_flags_spec(c.flags, ch.flags);
    let server_challenge = ch.server_challenge;
    let nt = secret_nt(c.password).unwrap();
    let v2 = ntlmv2_hash_spec(nt, c.username, c.domain);
    let blob = blob_spec(ts, cc, with_eol(ch.target_info));
    let proof = hmac_md5_spec(v2, server_challenge + blob);
    let lm = hmac_md5_spec(v2, server_challenge + cc) + cc;
    let nt_resp = proof + blob;
    let base = hmac_md5_spec(v2, proof);
    assert(client_responses(c.password, c.username, c.domain, flags, ch, cc, ts) == Some((lm, nt_resp, base)));
    let auth = respond_spec(c, ch, cc, ts, rk).unwrap().0;
    assert(auth.nt_response == nt_resp);
    assert(auth.lm_response == lm);
    assert(proof.len() == 16);
    assert(blob.len() >= 28);
    assert(nt_resp.subrange(0, 16) =~= proof);
    assert(nt_resp.subrange(16, nt_resp.len() as int) =~= blob);
    assert(lm.len() == 24);
    assert(lm.subrange(16, 24) =~= cc);
    assert(lm.subrange(0, 16) =~= hmac_md5_spec(v2, server_challenge + cc));
    assert(server_uses_v2(auth));
    base
}

proof fn lemma_des_response_len(h: Seq<u8>, c: Seq<u8>)
    ensures
        des_response(h, c).len() == 24,
{
    assert forall|k: Seq<u8>, b: Seq<u8>| #[trigger] crate::ntlm::des::des(k, b).len() == 8 by {
        reveal(crate::ntlm::des::des);
    }
}

#[verifier::spinoff_prover]
#[verifier::rlimit(40)]
proof fn lemma_v1_accepted(
    c: ClientConfigModel,
    s: ServerConfigModel,
    ch: ChallengeModel,
    cc: Seq<u8>,
    ts: u64,
    rk: Seq<u8>,
) -> (base: Seq<u8>)
    requires
        secret_nt(c.password) is Some,
        server_secret(s, c.username) matches Some(ss) && secret_nt(ss) == secret_nt(c.password)
            && secret_lm(c.password) is Some && secret_lm(ss) == secret_lm(c.password),
        !client_uses_v2(merge_flags_spec(c.flags, ch.flags), ch),
    ensures
        client_responses(c.password, c.username, c.domain, merge_flags_spec(c.flags, ch.flags), ch, cc, ts)
            matches Some((_, _, b)) && b == base,
        respond_spec(c, ch, cc, ts, rk) is Some,
        server_base_key(s, ch, respond_spec(c, ch, cc, ts, rk).unwrap().0) == Some(base),
{
    let flags = merge_flags_spec(c.flags, ch.flags);
    let nt = secret_nt(c.password).unwrap();
    let lmh = secret_lm(c.password).unwrap();
    let sc = ch.server_challenge;
    let base = md4(nt);
    assert(client_responses(c.password, c.username, c.domain, flags, ch, cc, ts) == Some((des_response(lmh, sc), des_response(nt, sc), base)));
    let auth = respond_spec(c, ch, cc, ts, rk).unwrap().0;
    assert(auth.nt_response == des_response(nt, sc));
    lemma_des_response_len(nt, sc);
    assert(!server_uses_v2(auth));
    base
}

/// A run of `n` steps yields `n` key bytes.
pub proof fn lemma_rc4_run_len(st: crate::ntlm::rc4::Rc4Model, n: nat)
    ensures
        rc4_run(st, n).1.len() == n,
    decreases n,
{
    if n > 0 {
        lemma_rc4_run_len(st, (n - 1) as nat);
    }
}

} // verus!
