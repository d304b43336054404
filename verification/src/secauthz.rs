//! A small authorization protocol: framed messages, `key=value` payloads, and a server
//! that answers authorization requests from a list of policies.
use vstd::prelude::*;
use crate::error::{ProtoError, ProtoResult};
use crate::text::{
    pair_lookup, pair_upsert,
    chars_of, find_char, find_from, lines, lines_of, lossy_text, push_text, slice_chars, str_eq, string_from_chars,
    string_from_utf8_lossy, utf8_bytes,
};
use crate::wire::{be32, copy_range, get_be32, push_be32, push_bytes, read_be32};
use vstd::utf8::encode_utf8;

verus! {

/// The largest payload a frame may carry.
pub const MAX_PAYLOAD: usize = 32768;

/// The kind of a frame.
#[derive(Debug, Clone, Copy, PartialEq, Eq, Structural)]
pub enum SecAuthzMessageType {
    Hello,
    Authorize,
    Decision,
    Error,
    Ping,
    Pong,
}

/// The code of each kind on the wire.
pub open spec fn type_code(t: SecAuthzMessageType) -> u8 {
    match t {
        SecAuthzMessageType::Hello => 1,
        SecAuthzMessageType::Authorize => 2,
        SecAuthzMessageType::Decision => 3,
        SecAuthzMessageType::Error => 4,
        SecAuthzMessageType::Ping => 5,
        SecAuthzMessageType::Pong => 6,
    }
}

/// The kind with code `v`, if there is one.
pub open spec fn type_from(v: u8) -> Option<SecAuthzMessageType> {
    if v == 1 {
        Some(SecAuthzMessageType::Hello)
    } else if v == 2 {
        Some(SecAuthzMessageType::Authorize)
    } else if v == 3 {
        Some(SecAuthzMessageType::Decision)
    } else if v == 4 {
        Some(SecAuthzMessageType::Error)
    } else if v == 5 {
        Some(SecAuthzMessageType::Ping)
    } else if v == 6 {
        Some(SecAuthzMessageType::Pong)
    } else {
        None
    }
}

impl SecAuthzMessageType {
    /// The code on the wire.
    pub fn code(&self) -> (c: u8)
        ensures
            c == type_code(*self),
    {
        match self {
            SecAuthzMessageType::Hello => 1,
            SecAuthzMessageType::Authorize => 2,
            SecAuthzMessageType::Decision => 3,
            SecAuthzMessageType::Error => 4,
            SecAuthzMessageType::Ping => 5,
            SecAuthzMessageType::Pong => 6,
        }
    }

    /// The kind with code `value`.
    pub fn from_u8(value: u8) -> (r: ProtoResult<SecAuthzMessageType>)
        ensures
            match r {
                Ok(t) => type_from(value) == Some(t),
                Err(e) => type_from(value) is None && e is Parse,
            },
    {
        if value == 1 {
            Ok(SecAuthzMessageType::Hello)
        } else if value == 2 {
            Ok(SecAuthzMessageType::Authorize)
        } else if value == 3 {
            Ok(SecAuthzMessageType::Decision)
        } else if value == 4 {
            Ok(SecAuthzMessageType::Error)
        } else if value == 5 {
            Ok(SecAuthzMessageType::Ping)
        } else if value == 6 {
            Ok(SecAuthzMessageType::Pong)
        } else {
            Err(ProtoError::Parse("secauthz type"))
        }
    }
}

/// A frame: version, kind and payload.
#[derive(Debug, Clone)]
pub struct SecAuthzFrame {
    pub version: u8,
    pub msg_type: SecAuthzMessageType,
    pub payload: Vec<u8>,
}

/// The bytes of a frame: version, kind code, payload length (32 bits, big-endian, modulo
/// 2^32), payload.
pub open spec fn frame_bytes(version: u8, t: SecAuthzMessageType, payload: Seq<u8>) -> Seq<u8> {
    seq![version, type_code(t)] + be32((payload.len() % 0x1_0000_0000) as u32) + payload
}

/// The frame at the start of `d`: `None` when the header is short, the kind unknown, or
/// the length above `MAX_PAYLOAD` or beyond the data. Bytes after the payload are ignored.
pub open spec fn frame_decode(d: Seq<u8>) -> Option<(u8, SecAuthzMessageType, Seq<u8>)> {
    if d.len() < 6 {
        None
    } else {
        match type_from(d[1]) {
            None => None,
            Some(t) => {
                let len = get_be32(d, 2) as int;
                if len > MAX_PAYLOAD || d.len() < 6 + len {
                    None
                } else {
                    Some((d[0], t, d.subrange(6, 6 + len)))
                }
            },
        }
    }
}

impl SecAuthzFrame {
    /// The bytes of the frame.
    pub fn encode(&self) -> (out: Vec<u8>)
        ensures
            out@ == frame_bytes(self.version, self.msg_type, self.payload@),
    {
        let mut out: Vec<u8> = Vec::new();
        out.push(self.version);
        out.push(self.msg_type.code());
        push_be32(&mut out, (self.payload.len() as u64 % 0x1_0000_0000) as u32);
        push_bytes(&mut out, self.payload.as_slice());
        assert(out@ =~= frame_bytes(self.version, self.msg_type, self.payload@));
        out
    }

    /// Reads a frame from the start of `data`.
    pub fn decode(data: &[u8]) -> (r: ProtoResult<SecAuthzFrame>)
        ensures
            match r {
                Ok(f) => frame_decode(data@) == Some((f.version, f.msg_type, f.payload@)),
                Err(e) => frame_decode(data@) is None && e is Parse,
            },
    {
        if data.len() < 6 {
            return Err(ProtoError::Parse("secauthz frame"));
        }
        let version = data[0];
        let msg_type = SecAuthzMessageType::from_u8(data[1])?;
        let len = read_be32(data, 2) as usize;
        if len > MAX_PAYLOAD || data.len() < 6 + len {
            return Err(ProtoError::Parse("secauthz length"));
        }
        Ok(SecAuthzFrame { version, msg_type, payload: copy_range(data, 6, len) })
    }
}

/// Decoding the bytes of a frame with a payload of at most `MAX_PAYLOAD` bytes gives the
/// frame back.
pub proof fn lemma_frame_roundtrip(version: u8, t: SecAuthzMessageType, payload: Seq<u8>, rest: Seq<u8>)
    requires
        payload.len() <= MAX_PAYLOAD,
    ensures
        frame_decode(frame_bytes(version, t, payload) + rest) == Some((version, t, payload)),
{
    let n = payload.len() as u32;
    let d = frame_bytes(version, t, payload) + rest;
    crate::wire::lemma_fixed_width_roundtrip(seq![version, type_code(t)], payload + rest, 0, n, 0);
    assert(d =~= seq![version, type_code(t)] + be32(n) + (payload + rest));
    assert(d.subrange(6, 6 + n) =~= payload);
}

/// The length a frame header announces, if it is within `MAX_PAYLOAD`.
pub fn header_payload_len(header: [u8; 6]) -> (r: ProtoResult<usize>)
    ensures
        match r {
            Ok(n) => n == get_be32(header@, 2) && n <= MAX_PAYLOAD,
            Err(e) => get_be32(header@, 2) > MAX_PAYLOAD && e is Parse,
        },
{
    let len = read_be32(header.as_slice(), 2) as usize;
    if len > MAX_PAYLOAD {
        return Err(ProtoError::Parse("secauthz payload"));
    }
    Ok(len)
}

/// An authorization decision.
#[derive(Debug, Clone, Copy, PartialEq, Eq, Structural)]
pub enum SecAuthzDecision {
    Permit,
    Deny,
}

/// The word for a decision.
pub open spec fn decision_word(d: SecAuthzDecision) -> Seq<char> {
    match d {
        SecAuthzDecision::Permit => seq!['p', 'e', 'r', 'm', 'i', 't'],
        SecAuthzDecision::Deny => seq!['d', 'e', 'n', 'y'],
    }
}

impl SecAuthzDecision {
    /// The word for the decision: `permit` or `deny`.
    pub fn as_str(&self) -> (s: &'static str)
        ensures
            s@ == decision_word(*self),
    {
        proof {
            reveal_strlit("permit");
            reveal_strlit("deny");
        }
        match self {
            SecAuthzDecision::Permit => "permit",
            SecAuthzDecision::Deny => "deny",
        }
    }
}

/// A policy: the decision for one subject, action and resource.
#[derive(Debug, Clone)]
pub struct SecAuthzPolicy {
    pub subject: String,
    pub action: String,
    pub resource: String,
    pub decision: SecAuthzDecision,
}

/// The decision of the first policy for the request; `Deny` when none matches.
pub open spec fn policy_decide(ps: Seq<SecAuthzPolicy>, subject: Seq<char>, action: Seq<char>, resource: Seq<char>) -> SecAuthzDecision
    decreases ps.len(),
{
    if ps.len() == 0 {
        SecAuthzDecision::Deny
    } else if ps[0].subject@ == subject && ps[0].action@ == action && ps[0].resource@ == resource {
        ps[0].decision
    } else {
        policy_decide(ps.drop_first(), subject, action, resource)
    }
}

/// What a server is configured with: its policies and the subjects that tokens stand for.
#[derive(Debug, Clone)]
pub struct SecAuthzServerConfig {
    pub policies: Vec<SecAuthzPolicy>,
    pub tokens: Vec<(String, String)>,
}

impl Default for SecAuthzServerConfig {
    fn default() -> (r: Self)
        ensures
            r.policies@.len() == 0,
            r.tokens@.len() == 0,
    {
        SecAuthzServerConfig { policies: Vec::new(), tokens: Vec::new() }
    }
}

impl SecAuthzServerConfig {
    /// Lets `token` stand for `subject`, replacing what it stood for.
    pub fn insert_token(&mut self, token: String, subject: String)
        ensures
            final(self).policies@ == old(self).policies@,
            forall|t: Seq<char>| #[trigger] pair_lookup(final(self).tokens@, t) == if t == token@ {
                Some(subject@)
            } else {
                pair_lookup(old(self).tokens@, t)
            },
    {
        pair_upsert(&mut self.tokens, token, subject);
    }
}

/// What a client is configured with.
#[derive(Debug, Clone)]
pub struct SecAuthzClientConfig {}

impl Default for SecAuthzClientConfig {
    fn default() -> (r: Self)
        ensures
            r == (SecAuthzClientConfig {}),
    {
        SecAuthzClientConfig {}
    }
}

/// Decides authorization requests.
pub trait SecAuthzHandler {
    /// The decision for `subject` doing `action` on `resource`.
    fn decide(&self, subject: &str, action: &str, resource: &str) -> SecAuthzDecision;
}

/// A handler that decides by a list of policies.
pub struct PolicyHandler {
    pub policies: Vec<SecAuthzPolicy>,
}

impl PolicyHandler {
    /// A handler with these policies.
    pub fn new(policies: Vec<SecAuthzPolicy>) -> (h: PolicyHandler)
        ensures
            h.policies@ == policies@,
    {
        PolicyHandler { policies }
    }
}

impl SecAuthzHandler for PolicyHandler {
    /// The decision of the first matching policy; `Deny` when none matches.
    fn decide(&self, subject: &str, action: &str, resource: &str) -> (d: SecAuthzDecision)
        ensures
            d == policy_decide(self.policies@, subject@, action@, resource@),
    {
        let mut i: usize = 0;
        assert(self.policies@.subrange(0, self.policies@.len() as int) == self.policies@);
        while i < self.policies.len()
            invariant
                i <= self.policies@.len(),
                policy_decide(self.policies@, subject@, action@, resource@) == policy_decide(
                    self.policies@.subrange(i as int, self.policies@.len() as int),
                    subject@,
                    action@,
                    resource@,
                ),
            decreases self.policies.len() - i,
        {
            let p = &self.policies[i];
            proof {
                let rest = self.policies@.subrange(i as int, self.policies@.len() as int);
                assert(rest[0] == self.policies@[i as int]);
                assert(rest.drop_first() == self.policies@.subrange(i + 1, self.policies@.len() as int));
            }
            if str_eq(p.subject.as_str(), subject) && str_eq(p.action.as_str(), action) && str_eq(
                p.resource.as_str(),
                resource,
            ) {
                return p.decision;
            }
            i = i + 1;
        }
        SecAuthzDecision::Deny
    }
}

/// The text of an authorization request: `subject=`, `action=` and `resource=` lines, and
/// a `token=` line when there is a token.
pub open spec fn authorize_text(subject: Seq<char>, action: Seq<char>, resource: Seq<char>, token: Option<Seq<char>>) -> Seq<
    char,
> {
    "subject="@ + subject + "\naction="@ + action + "\nresource="@ + resource + match token {
        Some(t) => "\ntoken="@ + t,
        None => Seq::empty(),
    }
}

/// The characters of an optional string.
pub open spec fn opt_text(s: Option<&str>) -> Option<Seq<char>> {
    match s {
        Some(t) => Some(t@),
        None => None,
    }
}

/// The payload of an authorization request, as UTF-8.
pub fn build_authorize_payload(subject: &str, action: &str, resource: &str, token: Option<&str>) -> (out: Vec<u8>)
    ensures
        out@ == encode_utf8(authorize_text(subject@, action@, resource@, opt_text(token))),
{
    let mut text = String::new();
    push_text(&mut text, "subject=");
    push_text(&mut text, subject);
    push_text(&mut text, "\naction=");
    push_text(&mut text, action);
    push_text(&mut text, "\nresource=");
    push_text(&mut text, resource);
    if let Some(t) = token {
        push_text(&mut text, "\ntoken=");
        push_text(&mut text, t);
    }
    assert(text@ =~= authorize_text(subject@, action@, resource@, opt_text(token)));
    utf8_bytes(text.as_str())
}

/// The key and value of a `key=value` line, split at the first `=`.
pub open spec fn split_kv(line: Seq<char>) -> Option<(Seq<char>, Seq<char>)> {
    match find_from(line, '=', 0) {
        Some(i) => Some((line.subrange(0, i), line.subrange(i + 1, line.len() as int))),
        None => None,
    }
}

/// The fields of a request: subject, action, resource and token.
pub type AuthzFields = (Seq<char>, Seq<char>, Seq<char>, Option<Seq<char>>);

/// The fields after one more line: a `subject`, `action`, `resource` or `token` line sets
/// that field; other lines change nothing.
pub open spec fn apply_line(f: AuthzFields, line: Seq<char>) -> AuthzFields {
    match split_kv(line) {
        Some((k, v)) => if k == "subject"@ {
            (v, f.1, f.2, f.3)
        } else if k == "action"@ {
            (f.0, v, f.2, f.3)
        } else if k == "resource"@ {
            (f.0, f.1, v, f.3)
        } else if k == "token"@ {
            (f.0, f.1, f.2, Some(v))
        } else {
            f
        },
        None => f,
    }
}

/// The fields that the lines set, the later line winning; empty fields and no token
/// where no line sets them.
pub open spec fn fields_of(ls: Seq<Seq<char>>) -> AuthzFields
    decreases ls.len(),
{
    if ls.len() == 0 {
        (Seq::empty(), Seq::empty(), Seq::empty(), None)
    } else {
        apply_line(fields_of(ls.drop_last()), ls.last())
    }
}

/// A parsed authorization request.
#[derive(Debug, Clone)]
pub struct AuthzRequest {
    pub subject: String,
    pub action: String,
    pub resource: String,
    pub token: Option<String>,
}

/// The fields of a request, as values.
pub open spec fn request_fields(r: AuthzRequest) -> AuthzFields {
    (r.subject@, r.action@, r.resource@, match r.token {
        Some(t) => Some(t@),
        None => None,
    })
}

/// Splits a line at its first `=`.
fn split_line(line: &[char]) -> (r: Option<(Vec<char>, Vec<char>)>)
    ensures
        match r {
            Some((k, v)) => split_kv(line@) == Some((k@, v@)),
            None => split_kv(line@) is None,
        },
{
    match find_char(line, '=', 0) {
        Some(i) => {
            proof {
                crate::text::lemma_find_from(line@, '=', 0);
            }
            assert(i < line.len());
            let j = i + 1;
            Some((slice_chars(line, 0, i), slice_chars(line, j, line.len())))
        },
        None => None,
    }
}

/// Reads the `key=value` lines of an authorization request.
pub fn parse_authorize_payload(data: &[u8]) -> (r: AuthzRequest)
    ensures
        request_fields(r) == fields_of(lines_of(lossy_text(data@))),
{
    let text = string_from_utf8_lossy(data);
    let cs = chars_of(text.as_str());
    let ls = lines(cs.as_slice());
    let ghost all = lines_of(lossy_text(data@));
    let mut r = AuthzRequest { subject: String::new(), action: String::new(), resource: String::new(), token: None };
    let mut i: usize = 0;
    proof {
        reveal_strlit("subject");
        reveal_strlit("action");
        reveal_strlit("resource");
        reveal_strlit("token");
        assert(all.subrange(0, 0) =~= Seq::<Seq<char>>::empty());
        assert(request_fields(r) =~~= fields_of(all.subrange(0, 0)));
    }
    while i < ls.len()
        invariant
            i <= ls@.len(),
            ls@.len() == all.len(),
            forall|j: int| 0 <= j < ls@.len() ==> #[trigger] ls@[j]@ == all[j],
            request_fields(r) == fields_of(all.subrange(0, i as int)),
        decreases ls.len() - i,
    {
        proof {
            assert(all.subrange(0, i + 1).drop_last() == all.subrange(0, i as int));
            assert(all.subrange(0, i + 1).last() == ls@[i as int]@);
        }
        if let Some((k, v)) = split_line(ls[i].as_slice()) {
            let key = string_from_chars(k.as_slice());
            let value = string_from_chars(v.as_slice());
            if str_eq(key.as_str(), "subject") {
                r.subject = value;
            } else if str_eq(key.as_str(), "action") {
                r.action = value;
            } else if str_eq(key.as_str(), "resource") {
                r.resource = value;
            } else if str_eq(key.as_str(), "token") {
                r.token = Some(value);
            }
        }
        i = i + 1;
    }
    proof {
        assert(all.subrange(0, i as int) == all);
    }
    r
}

/// The subject a request acts as: its own subject when it names one, else the subject its
/// token stands for, else `anonymous`.
pub open spec fn resolve_spec(tokens: Seq<(String, String)>, subject: Seq<char>, token: Option<Seq<char>>) -> Seq<char> {
    if subject.len() > 0 {
        subject
    } else {
        match token {
            Some(t) => match pair_lookup(tokens, t) {
                Some(m) => m,
                None => "anonymous"@,
            },
            None => "anonymous"@,
        }
    }
}

/// The subject a request acts as.
pub fn resolve_subject(tokens: &Vec<(String, String)>, subject: &str, token: Option<&str>) -> (r: String)
    ensures
        r@ == resolve_spec(tokens@, subject@, opt_text(token)),
{
    proof {
        reveal_strlit("anonymous");
    }
    let cs = chars_of(subject);
    if cs.len() > 0 {
        return string_from_chars(cs.as_slice());
    }
    if let Some(t) = token {
        let mut i: usize = 0;
        assert(tokens@.subrange(0, tokens@.len() as int) == tokens@);
        while i < tokens.len()
            invariant
                i <= tokens@.len(),
                subject@.len() == 0,
                opt_text(token) == Some(t@),
                pair_lookup(tokens@, t@) == pair_lookup(tokens@.subrange(i as int, tokens@.len() as int), t@),
            decreases tokens.len() - i,
        {
            proof {
                let rest = tokens@.subrange(i as int, tokens@.len() as int);
                assert(rest[0] == tokens@[i as int]);
                assert(rest.drop_first() == tokens@.subrange(i + 1, tokens@.len() as int));
            }
            if str_eq(tokens[i].0.as_str(), t) {
                let m = tokens[i].1.clone();
                proof {
                    let rest = tokens@.subrange(i as int, tokens@.len() as int);
                    assert(rest[0].0@ == t@);
                    assert(pair_lookup(rest, t@) == Some(rest[0].1@));
                    assert(m@ == rest[0].1@);
                }
                return m;
            }
            i = i + 1;
        }
    }
    String::from_str("anonymous")
}

/// The text of a decision: `decision=` and the decision's word, then `reason=` and the
/// reason.
pub open spec fn decision_text(d: SecAuthzDecision, reason: Seq<char>) -> Seq<char> {
    "decision="@ + decision_word(d) + "\nreason="@ + reason
}

/// The frame that answers an authorization request.
pub fn build_decision_frame(decision: SecAuthzDecision, reason: &str) -> (f: SecAuthzFrame)
    ensures
        f.version == 1,
        f.msg_type == SecAuthzMessageType::Decision,
        f.payload@ == encode_utf8(decision_text(decision, reason@)),
{
    let mut text = String::new();
    push_text(&mut text, "decision=");
    push_text(&mut text, decision.as_str());
    push_text(&mut text, "\nreason=");
    push_text(&mut text, reason);
    assert(text@ =~= decision_text(decision, reason@));
    SecAuthzFrame { version: 1, msg_type: SecAuthzMessageType::Decision, payload: utf8_bytes(text.as_str()) }
}

/// The decision the first `decision=` line states: `permit`, or `deny` for any other
/// value; `None` when no line states one.
pub open spec fn decision_of(ls: Seq<Seq<char>>) -> Option<SecAuthzDecision>
    decreases ls.len(),
{
    if ls.len() == 0 {
        None
    } else {
        match split_kv(ls[0]) {
            Some((k, v)) => if k == "decision"@ {
                Some(if v == "permit"@ { SecAuthzDecision::Permit } else { SecAuthzDecision::Deny })
            } else {
                decision_of(ls.drop_first())
            },
            None => decision_of(ls.drop_first()),
        }
    }
}

/// Reads the decision of a response frame; a frame of another kind, or one that states no
/// decision, is an error.
pub fn parse_decision(frame: &SecAuthzFrame) -> (r: ProtoResult<SecAuthzDecision>)
    ensures
        match r {
            Ok(d) => frame.msg_type == SecAuthzMessageType::Decision && decision_of(
                lines_of(lossy_text(frame.payload@)),
            ) == Some(d),
            Err(e) => e is Parse && (frame.msg_type != SecAuthzMessageType::Decision || decision_of(
                lines_of(lossy_text(frame.payload@)),
            ) is None),
        },
{
    if frame.msg_type != SecAuthzMessageType::Decision {
        return Err(ProtoError::Parse("secauthz decision"));
    }
    let text = string_from_utf8_lossy(frame.payload.as_slice());
    let cs = chars_of(text.as_str());
    let ls = lines(cs.as_slice());
    let ghost all = lines_of(lossy_text(frame.payload@));
    proof {
        reveal_strlit("decision");
        reveal_strlit("permit");
        assert(all.subrange(0, all.len() as int) == all);
    }
    let mut i: usize = 0;
    while i < ls.len()
        invariant
            i <= ls@.len(),
            ls@.len() == all.len(),
            frame.msg_type == SecAuthzMessageType::Decision,
            all == lines_of(lossy_text(frame.payload@)),
            forall|j: int| 0 <= j < ls@.len() ==> #[trigger] ls@[j]@ == all[j],
            decision_of(all) == decision_of(all.subrange(i as int, all.len() as int)),
        decreases ls.len() - i,
    {
        proof {
            let rest = all.subrange(i as int, all.len() as int);
            assert(rest[0] == ls@[i as int]@);
            assert(rest.drop_first() == all.subrange(i + 1, all.len() as int));
        }
        if let Some((k, v)) = split_line(ls[i].as_slice()) {
            let key = string_from_chars(k.as_slice());
            if str_eq(key.as_str(), "decision") {
                let value = string_from_chars(v.as_slice());
                proof {
                    let rest = all.subrange(i as int, all.len() as int);
                    assert(split_kv(rest[0]) == Some((key@, value@)));
                }
                return Ok(
                    if str_eq(value.as_str(), "permit") {
                        SecAuthzDecision::Permit
                    } else {
                        SecAuthzDecision::Deny
                    },
                );
            }
        }
        i = i + 1;
    }
    Err(ProtoError::Parse("secauthz decision missing"))
}

/// The frame a client opens a connection with.
pub fn hello_frame() -> (f: SecAuthzFrame)
    ensures
        f.version == 1,
        f.msg_type == SecAuthzMessageType::Hello,
        f.payload@ == encode_utf8("client"@),
{
    SecAuthzFrame { version: 1, msg_type: SecAuthzMessageType::Hello, payload: utf8_bytes("client") }
}

/// The frame that asks for a decision.
pub fn authorize_frame(subject: &str, action: &str, resource: &str, token: Option<&str>) -> (f: SecAuthzFrame)
    ensures
        f.version == 1,
        f.msg_type == SecAuthzMessageType::Authorize,
        f.payload@ == encode_utf8(authorize_text(subject@, action@, resource@, opt_text(token))),
{
    SecAuthzFrame {
        version: 1,
        msg_type: SecAuthzMessageType::Authorize,
        payload: build_authorize_payload(subject, action, resource, token),
    }
}

/// The server's answer to a frame after the opening one: an authorization request gets
/// the decision of the configured policies for the subject it acts as; a ping gets an
/// empty pong; anything else gets an `unsupported` error frame.
pub open spec fn serve_spec(config: SecAuthzServerConfig, t: SecAuthzMessageType, payload: Seq<u8>) -> (SecAuthzMessageType, Seq<u8>) {
    match t {
        SecAuthzMessageType::Authorize => {
            let f = fields_of(lines_of(lossy_text(payload)));
            let who = resolve_spec(config.tokens@, f.0, f.3);
            (
                SecAuthzMessageType::Decision,
                encode_utf8(decision_text(policy_decide(config.policies@, who, f.1, f.2), "ok"@)),
            )
        },
        SecAuthzMessageType::Ping => (SecAuthzMessageType::Pong, Seq::empty()),
        _ => (SecAuthzMessageType::Error, encode_utf8("unsupported"@)),
    }
}

/// Answers a frame.
pub fn handle_frame(config: &SecAuthzServerConfig, frame: &SecAuthzFrame) -> (r: SecAuthzFrame)
    ensures
        r.version == 1,
        (r.msg_type, r.payload@) == serve_spec(*config, frame.msg_type, frame.payload@),
{
    match frame.msg_type {
        SecAuthzMessageType::Authorize => {
            let request = parse_authorize_payload(frame.payload.as_slice());
            let token: Option<&str> = match &request.token {
                Some(t) => Some(t.as_str()),
                None => None,
            };
            let subject = resolve_subject(&config.tokens, request.subject.as_str(), token);
            let mut policies: Vec<SecAuthzPolicy> = Vec::new();
            let mut i: usize = 0;
            while i < config.policies.len()
                invariant
                    i <= config.policies@.len(),
                    policies@.len() == i,
                    forall|j: int| 0 <= j < i ==> policy_eq(#[trigger] policies@[j], config.policies@[j]),
                decreases config.policies.len() - i,
            {
                let p = &config.policies[i];
                policies.push(
                    SecAuthzPolicy {
                        subject: p.subject.clone(),
                        action: p.action.clone(),
                        resource: p.resource.clone(),
                        decision: p.decision,
                    },
                );
                i = i + 1;
            }
            let handler = PolicyHandler::new(policies);
            let decision = handler.decide(subject.as_str(), request.action.as_str(), request.resource.as_str());
            proof {
                lemma_policy_decide_eq(handler.policies@, config.policies@, subject@, request.action@, request.resource@);
            }
            build_decision_frame(decision, "ok")
        },
        SecAuthzMessageType::Ping => {
            let f = SecAuthzFrame { version: 1, msg_type: SecAuthzMessageType::Pong, payload: Vec::new() };
            assert(f.payload@ =~= Seq::<u8>::empty());
            f
        },
        _ => SecAuthzFrame { version: 1, msg_type: SecAuthzMessageType::Error, payload: utf8_bytes("unsupported") },
    }
}

/// Two policies with the same fields.
pub open spec fn policy_eq(a: SecAuthzPolicy, b: SecAuthzPolicy) -> bool {
    a.subject@ == b.subject@ && a.action@ == b.action@ && a.resource@ == b.resource@ && a.decision == b.decision
}

proof fn lemma_policy_decide_eq(a: Seq<SecAuthzPolicy>, b: Seq<SecAuthzPolicy>, s: Seq<char>, x: Seq<char>, r: Seq<char>)
    requires
        a.len() == b.len(),
        forall|j: int| 0 <= j < a.len() ==> policy_eq(#[trigger] a[j], b[j]),
    ensures
        policy_decide(a, s, x, r) == policy_decide(b, s, x, r),
    decreases a.len(),
{
    if a.len() > 0 {
        assert(policy_eq(a[0], b[0]));
        assert forall|j: int| 0 <= j < a.drop_first().len() implies policy_eq(#[trigger] a.drop_first()[j], b.drop_first()[j]) by {
            assert(policy_eq(a[j + 1], b[j + 1]));
        }
        lemma_policy_decide_eq(a.drop_first(), b.drop_first(), s, x, r);
    }
}

} // verus!
