//! MQTT 3.1.1 control packets: their model, their bytes, and the codec between them.
use vstd::prelude::*;
use vstd::utf8::encode_utf8;
use crate::error::{ProtoError, ProtoResult};
use crate::text::{chars_of, lossy_text, string_from_utf8_lossy, utf8_bytes};
use crate::wire::{be16, concat_map, copy_range, get_be16, lemma_concat_map_push, push_be16, push_bytes, read_be16};

verus! {

/// The kinds of control packet, by the code carried in the high nibble of the first byte.
#[derive(Debug, Clone, Copy, PartialEq, Eq)]
pub enum MqttPacketType {
    Connect,
    ConnAck,
    Publish,
    PubAck,
    Subscribe,
    SubAck,
    PingReq,
    PingResp,
    Disconnect,
}

/// The code of each packet kind.
pub open spec fn packet_type_code(t: MqttPacketType) -> u8 {
    match t {
        MqttPacketType::Connect => 1,
        MqttPacketType::ConnAck => 2,
        MqttPacketType::Publish => 3,
        MqttPacketType::PubAck => 4,
        MqttPacketType::Subscribe => 8,
        MqttPacketType::SubAck => 9,
        MqttPacketType::PingReq => 12,
        MqttPacketType::PingResp => 13,
        MqttPacketType::Disconnect => 14,
    }
}

impl MqttPacketType {
    /// The code of this packet kind.
    pub fn code(self) -> (c: u8)
        ensures
            c == packet_type_code(self),
    {
        match self {
            MqttPacketType::Connect => 1,
            MqttPacketType::ConnAck => 2,
            MqttPacketType::Publish => 3,
            MqttPacketType::PubAck => 4,
            MqttPacketType::Subscribe => 8,
            MqttPacketType::SubAck => 9,
            MqttPacketType::PingReq => 12,
            MqttPacketType::PingResp => 13,
            MqttPacketType::Disconnect => 14,
        }
    }
}

/// An MQTT control packet.
#[derive(Debug, Clone)]
pub enum MqttPacket {
    Connect {
        client_id: String,
        keep_alive: u16,
        username: Option<String>,
        password: Option<String>,
        clean_session: bool,
    },
    ConnAck { session_present: bool, return_code: u8 },
    Publish { topic: String, payload: Vec<u8>, qos: u8, retain: bool, packet_id: Option<u16> },
    PubAck { packet_id: u16 },
    Subscribe { packet_id: u16, topics: Vec<(String, u8)> },
    SubAck { packet_id: u16, return_codes: Vec<u8> },
    PingReq,
    PingResp,
    Disconnect,
}

/// The abstract value of a control packet: strings as characters, byte strings as sequences.
pub enum MqttModel {
    Connect {
        client_id: Seq<char>,
        keep_alive: u16,
        username: Option<Seq<char>>,
        password: Option<Seq<char>>,
        clean_session: bool,
    },
    ConnAck { session_present: bool, return_code: u8 },
    Publish { topic: Seq<char>, payload: Seq<u8>, qos: u8, retain: bool, packet_id: Option<u16> },
    PubAck { packet_id: u16 },
    Subscribe { packet_id: u16, topics: Seq<(Seq<char>, u8)> },
    SubAck { packet_id: u16, return_codes: Seq<u8> },
    PingReq,
    PingResp,
    Disconnect,
}

/// The characters of an optional string.
pub open spec fn opt_chars(s: Option<String>) -> Option<Seq<char>> {
    match s {
        Some(t) => Some(t@),
        None => None,
    }
}

/// A topic list with its strings taken as characters.
pub open spec fn topics_view(ts: Seq<(String, u8)>) -> Seq<(Seq<char>, u8)> {
    ts.map_values(|t: (String, u8)| (t.0@, t.1))
}

impl View for MqttPacket {
    type V = MqttModel;

    open spec fn view(&self) -> MqttModel {
        match self {
            MqttPacket::Connect { client_id, keep_alive, username, password, clean_session } => MqttModel::Connect {
                client_id: client_id@,
                keep_alive: *keep_alive,
                username: opt_chars(*username),
                password: opt_chars(*password),
                clean_session: *clean_session,
            },
            MqttPacket::ConnAck { session_present, return_code } => MqttModel::ConnAck {
                session_present: *session_present,
                return_code: *return_code,
            },
            MqttPacket::Publish { topic, payload, qos, retain, packet_id } => MqttModel::Publish {
                topic: topic@,
                payload: payload@,
                qos: *qos,
                retain: *retain,
                packet_id: *packet_id,
            },
            MqttPacket::PubAck { packet_id } => MqttModel::PubAck { packet_id: *packet_id },
            MqttPacket::Subscribe { packet_id, topics } => MqttModel::Subscribe {
                packet_id: *packet_id,
                topics: topics_view(topics@),
            },
            MqttPacket::SubAck { packet_id, return_codes } => MqttModel::SubAck {
                packet_id: *packet_id,
                return_codes: return_codes@,
            },
            MqttPacket::PingReq => MqttModel::PingReq,
            MqttPacket::PingResp => MqttModel::PingResp,
            MqttPacket::Disconnect => MqttModel::Disconnect,
        }
    }
}

// ---------------------------------------------------------------------------
// The bytes of a packet
// ---------------------------------------------------------------------------

/// A string on the wire: its UTF-8 length in 16 bits (cut to 16 bits), then its UTF-8 bytes.
pub open spec fn mqtt_text(s: Seq<char>) -> Seq<u8> {
    be16((encode_utf8(s).len() % 65536) as u16) + encode_utf8(s)
}

/// An optional string on the wire: nothing when absent.
pub open spec fn opt_text(s: Option<Seq<char>>) -> Seq<u8> {
    match s {
        Some(t) => mqtt_text(t),
        None => Seq::empty(),
    }
}

/// The remaining length: seven bits per byte, least significant first, the high bit set on
/// every byte but the last.
pub open spec fn rl_bytes(v: nat) -> Seq<u8>
    decreases v,
{
    if v < 128 {
        seq![v as u8]
    } else {
        seq![(v % 128 + 128) as u8] + rl_bytes(v / 128)
    }
}

/// A packet: its first byte, the length of the rest, the rest.
pub open spec fn mqtt_frame(h: u8, body: Seq<u8>) -> Seq<u8> {
    seq![h] + rl_bytes(body.len()) + body
}

/// One entry of a subscription: the topic filter, then the requested QoS.
pub open spec fn topic_entry(t: (Seq<char>, u8)) -> Seq<u8> {
    mqtt_text(t.0).push(t.1)
}

/// The entries of a subscription, one after the other.
pub open spec fn topics_bytes(ts: Seq<(Seq<char>, u8)>) -> Seq<u8>
    decreases ts.len(),
{
    if ts.len() == 0 {
        Seq::empty()
    } else {
        topics_bytes(ts.drop_last()) + topic_entry(ts.last())
    }
}

/// The connect flags: bit 1 for a clean session, bit 7 for a user name, bit 6 for a password.
pub open spec fn connect_flags(clean: bool, user: bool, pass: bool) -> u8 {
    ((if clean { 2int } else { 0 }) + (if user { 128int } else { 0 }) + (if pass { 64int } else { 0 })) as u8
}

/// The first byte of a packet: its kind in the high nibble, the publish flags in the low one.
pub open spec fn mqtt_header(m: MqttModel) -> u8 {
    match m {
        MqttModel::Connect { .. } => 16,
        MqttModel::ConnAck { .. } => 32,
        MqttModel::Publish { qos, retain, .. } => (48 + (qos % 4) * 2 + (if retain { 1int } else { 0 })) as u8,
        MqttModel::PubAck { .. } => 64,
        MqttModel::Subscribe { .. } => 130,
        MqttModel::SubAck { .. } => 144,
        MqttModel::PingReq => 192,
        MqttModel::PingResp => 208,
        MqttModel::Disconnect => 224,
    }
}

/// The packet identifier of a publish, present on the wire only when the QoS is above 0.
pub open spec fn publish_id_bytes(qos: u8, packet_id: Option<u16>) -> Seq<u8> {
    if qos > 0 {
        match packet_id {
            Some(id) => be16(id),
            None => Seq::empty(),
        }
    } else {
        Seq::empty()
    }
}

/// What follows the remaining length: the variable header and the payload.
pub open spec fn mqtt_body(m: MqttModel) -> Seq<u8> {
    match m {
        MqttModel::Connect { client_id, keep_alive, username, password, clean_session } => seq![
            0u8,
            4,
            77,
            81,
            84,
            84,
            4,
            connect_flags(clean_session, username is Some, password is Some),
        ] + be16(keep_alive) + mqtt_text(client_id) + opt_text(username) + opt_text(password),
        MqttModel::ConnAck { session_present, return_code } => seq![
            if session_present { 1u8 } else { 0u8 },
            return_code,
        ],
        MqttModel::Publish { topic, payload, qos, packet_id, .. } => mqtt_text(topic) + publish_id_bytes(
            qos,
            packet_id,
        ) + payload,
        MqttModel::PubAck { packet_id } => be16(packet_id),
        MqttModel::Subscribe { packet_id, topics } => be16(packet_id) + topics_bytes(topics),
        MqttModel::SubAck { packet_id, return_codes } => be16(packet_id) + return_codes,
        _ => Seq::empty(),
    }
}

/// The bytes of a packet; none for a publish above QoS 0 without a packet identifier.
pub open spec fn mqtt_encode(m: MqttModel) -> Option<Seq<u8>> {
    if m matches MqttModel::Publish { qos, packet_id, .. } && qos > 0 && packet_id is None {
        None
    } else {
        Some(mqtt_frame(mqtt_header(m), mqtt_body(m)))
    }
}

// ---------------------------------------------------------------------------
// Reading a packet
// ---------------------------------------------------------------------------

/// The weight of the `k`-th byte of the remaining length.
pub open spec fn rl_weight(k: nat) -> nat
    decreases k,
{
    if k == 0 {
        1
    } else {
        128 * rl_weight((k - 1) as nat)
    }
}

/// Reads the remaining length from byte `k` of `d` on, `acc` being the value of the bytes
/// before: the value and the number of bytes used. At most five bytes are read.
pub open spec fn rl_read(d: Seq<u8>, k: nat, acc: nat) -> Option<(nat, nat)>
    decreases 5 - k,
{
    if k >= d.len() || k >= 5 {
        None
    } else {
        let v = acc + (d[k as int] % 128) as nat * rl_weight(k);
        if d[k as int] < 128 {
            Some((v, k + 1))
        } else if k >= 4 {
            None
        } else {
            rl_read(d, k + 1, v)
        }
    }
}

/// Reads a string at `i`: its characters and the position after it.
pub open spec fn rd_text(p: Seq<u8>, i: int) -> Option<(Seq<char>, int)> {
    if i + 2 > p.len() {
        None
    } else {
        let n = get_be16(p, i) as int;
        if i + 2 + n > p.len() {
            None
        } else {
            Some((lossy_text(p.subrange(i + 2, i + 2 + n)), i + 2 + n))
        }
    }
}

/// The text of the protocol name.
pub open spec fn mqtt_name() -> Seq<char> {
    seq!['M', 'Q', 'T', 'T']
}

/// Reads an optional string at `i` when `present`.
pub open spec fn rd_opt_text(p: Seq<u8>, i: int, present: bool) -> Option<(Option<Seq<char>>, int)> {
    if present {
        match rd_text(p, i) {
            Some((t, j)) => Some((Some(t), j)),
            None => None,
        }
    } else {
        Some((None, i))
    }
}

/// The body of a CONNECT.
pub open spec fn dec_connect(p: Seq<u8>) -> Option<MqttModel> {
    match rd_text(p, 0) {
        None => None,
        Some((name, i)) => if name != mqtt_name() || i >= p.len() || p[i] != 4 || i + 1 >= p.len() || i + 4
            > p.len() {
            None
        } else {
            let flags = p[i + 1];
            let keep_alive = get_be16(p, i + 2);
            match rd_text(p, i + 4) {
                None => None,
                Some((client_id, j)) => match rd_opt_text(p, j, flags >= 128) {
                    None => None,
                    Some((username, k)) => match rd_opt_text(p, k, (flags / 64) % 2 == 1) {
                        None => None,
                        Some((password, _)) => Some(
                            MqttModel::Connect {
                                client_id,
                                keep_alive,
                                username,
                                password,
                                clean_session: (flags / 2) % 2 == 1,
                            },
                        ),
                    },
                },
            }
        },
    }
}

/// The body of a PUBLISH with the low nibble `flags`.
pub open spec fn dec_publish(p: Seq<u8>, flags: u8) -> Option<MqttModel> {
    let qos = ((flags / 2) % 4) as u8;
    match rd_text(p, 0) {
        None => None,
        Some((topic, i)) => if qos > 0 && i + 2 > p.len() {
            None
        } else {
            let j = if qos > 0 { i + 2 } else { i };
            Some(
                MqttModel::Publish {
                    topic,
                    payload: p.subrange(j, p.len() as int),
                    qos,
                    retain: flags % 2 == 1,
                    packet_id: if qos > 0 { Some(get_be16(p, i)) } else { None },
                },
            )
        },
    }
}

/// The topic filters of a SUBSCRIBE from `i` on, each followed by its QoS.
pub open spec fn dec_topics(p: Seq<u8>, i: int) -> Option<Seq<(Seq<char>, u8)>>
    decreases p.len() - i,
{
    if i >= p.len() || i < 0 {
        Some(Seq::empty())
    } else if i + 2 > p.len() {
        None
    } else {
        let j = i + 2 + get_be16(p, i) as int;
        if j >= p.len() {
            None
        } else {
            match dec_topics(p, j + 1) {
                None => None,
                Some(rest) => Some(seq![(lossy_text(p.subrange(i + 2, j)), p[j])] + rest),
            }
        }
    }
}

/// The body of a packet of kind `ty` with the low nibble `flags`.
pub open spec fn dec_body(ty: u8, flags: u8, p: Seq<u8>) -> Option<MqttModel> {
    if ty == 1 {
        dec_connect(p)
    } else if ty == 2 {
        if p.len() != 2 {
            None
        } else {
            Some(MqttModel::ConnAck { session_present: p[0] % 2 == 1, return_code: p[1] })
        }
    } else if ty == 3 {
        dec_publish(p, flags)
    } else if ty == 4 {
        if p.len() != 2 {
            None
        } else {
            Some(MqttModel::PubAck { packet_id: get_be16(p, 0) })
        }
    } else if ty == 8 {
        if p.len() < 2 {
            None
        } else {
            match dec_topics(p, 2) {
                None => None,
                Some(topics) => Some(MqttModel::Subscribe { packet_id: get_be16(p, 0), topics }),
            }
        }
    } else if ty == 9 {
        if p.len() < 3 {
            None
        } else {
            Some(MqttModel::SubAck { packet_id: get_be16(p, 0), return_codes: p.subrange(2, p.len() as int) })
        }
    } else if ty == 12 {
        Some(MqttModel::PingReq)
    } else if ty == 13 {
        Some(MqttModel::PingResp)
    } else if ty == 14 {
        Some(MqttModel::Disconnect)
    } else {
        None
    }
}

/// The packet that `d` starts with; bytes after it are ignored.
pub open spec fn mqtt_decode(d: Seq<u8>) -> Option<MqttModel> {
    if d.len() == 0 {
        None
    } else {
        match rl_read(d.subrange(1, d.len() as int), 0, 0) {
            None => None,
            Some((rem, used)) => if d.len() - 1 - used < rem {
                None
            } else {
                dec_body(d[0] / 16, d[0] % 16, d.subrange(1 + used as int, (1 + used + rem) as int))
            },
        }
    }
}

// ---------------------------------------------------------------------------
// Writing, executable
// ---------------------------------------------------------------------------

fn push_text(out: &mut Vec<u8>, s: &str)
    ensures
        final(out)@ == old(out)@ + mqtt_text(s@),
{
    let bytes = utf8_bytes(s);
    push_be16(out, (bytes.len() % 65536) as u16);
    push_bytes(out, bytes.as_slice());
}

fn push_opt_text(out: &mut Vec<u8>, s: &Option<String>)
    ensures
        final(out)@ == old(out)@ + opt_text(opt_chars(*s)),
{
    match s {
        Some(t) => push_text(out, t.as_str()),
        None => {
            assert(old(out)@ + Seq::<u8>::empty() == old(out)@);
        },
    }
}

fn push_remaining_length(out: &mut Vec<u8>, value: usize)
    ensures
        final(out)@ == old(out)@ + rl_bytes(value as nat),
    decreases value,
{
    if value < 128 {
        out.push(value as u8);
    } else {
        let ghost start = out@;
        out.push((value % 128 + 128) as u8);
        push_remaining_length(out, value / 128);
        assert(out@ == start + rl_bytes(value as nat));
    }
}

fn frame(h: u8, body: &Vec<u8>) -> (out: Vec<u8>)
    ensures
        out@ == mqtt_frame(h, body@),
{
    let mut out: Vec<u8> = Vec::new();
    out.push(h);
    push_remaining_length(&mut out, body.len());
    push_bytes(&mut out, body.as_slice());
    out
}

fn push_topic_entries(out: &mut Vec<u8>, topics: &Vec<(String, u8)>)
    ensures
        final(out)@ == old(out)@ + topics_bytes(topics_view(topics@)),
{
    let ghost start = out@;
    let mut i: usize = 0;
    while i < topics.len()
        invariant
            i <= topics.len(),
            out@ == start + topics_bytes(topics_view(topics@.subrange(0, i as int))),
        decreases topics.len() - i,
    {
        let (t, q) = &topics[i];
        push_text(out, t.as_str());
        out.push(*q);
        proof {
            let vs = topics_view(topics@.subrange(0, i as int));
            assert(topics_view(topics@.subrange(0, i + 1)) =~= vs.push((t@, *q)));
            assert(vs.push((t@, *q)).drop_last() =~= vs);
        }
        i = i + 1;
    }
    assert(topics@.subrange(0, topics.len() as int) =~= topics@);
}

impl MqttPacket {
    /// The bytes of the packet; a publish above QoS 0 without a packet identifier is refused.
    pub fn encode(&self) -> (r: ProtoResult<Vec<u8>>)
        ensures
            r is Ok <==> mqtt_encode(self@) is Some,
            r matches Ok(b) ==> mqtt_encode(self@) == Some(b@),
    {
        match self {
            MqttPacket::Connect { client_id, keep_alive, username, password, clean_session } => {
                let mut body: Vec<u8> = vec![0u8, 4, 77, 81, 84, 84, 4];
                let mut flags: u8 = 0;
                if *clean_session {
                    flags = flags + 2;
                }
                if username.is_some() {
                    flags = flags + 128;
                }
                if password.is_some() {
                    flags = flags + 64;
                }
                body.push(flags);
                push_be16(&mut body, *keep_alive);
                push_text(&mut body, client_id.as_str());
                push_opt_text(&mut body, username);
                push_opt_text(&mut body, password);
                let out = frame(16, &body);
                assert(body@ == mqtt_body(self@));
                Ok(out)
            },
            MqttPacket::ConnAck { session_present, return_code } => {
                let body: Vec<u8> = vec![if *session_present { 1u8 } else { 0u8 }, *return_code];
                let out = frame(32, &body);
                assert(body@ == mqtt_body(self@));
                Ok(out)
            },
            MqttPacket::Publish { topic, payload, qos, retain, packet_id } => {
                let mut body: Vec<u8> = Vec::new();
                push_text(&mut body, topic.as_str());
                if *qos > 0 {
                    match packet_id {
                        Some(id) => push_be16(&mut body, *id),
                        None => {
                            return Err(ProtoError::Parse("mqtt missing packet id"));
                        },
                    }
                }
                push_bytes(&mut body, payload.as_slice());
                let h: u8 = 48 + (*qos % 4) * 2 + if *retain { 1u8 } else { 0u8 };
                let out = frame(h, &body);
                assert(body@ == mqtt_body(self@));
                Ok(out)
            },
            MqttPacket::PubAck { packet_id } => {
                let mut body: Vec<u8> = Vec::new();
                push_be16(&mut body, *packet_id);
                let out = frame(64, &body);
                assert(body@ == mqtt_body(self@));
                Ok(out)
            },
            MqttPacket::Subscribe { packet_id, topics } => {
                let mut body: Vec<u8> = Vec::new();
                push_be16(&mut body, *packet_id);
                push_topic_entries(&mut body, topics);
                let out = frame(130, &body);
                assert(body@ == mqtt_body(self@));
                Ok(out)
            },
            MqttPacket::SubAck { packet_id, return_codes } => {
                let mut body: Vec<u8> = Vec::new();
                push_be16(&mut body, *packet_id);
                push_bytes(&mut body, return_codes.as_slice());
                let out = frame(144, &body);
                assert(body@ == mqtt_body(self@));
                Ok(out)
            },
            MqttPacket::PingReq => {
                let body: Vec<u8> = Vec::new();
                Ok(frame(192, &body))
            },
            MqttPacket::PingResp => {
                let body: Vec<u8> = Vec::new();
                Ok(frame(208, &body))
            },
            MqttPacket::Disconnect => {
                let body: Vec<u8> = Vec::new();
                Ok(frame(224, &body))
            },
        }
    }
}


// ---------------------------------------------------------------------------
// Reading, executable
// ---------------------------------------------------------------------------

proof fn lemma_rl_weight_bounds(k: nat)
    requires
        k <= 4,
    ensures
        1 <= rl_weight(k) <= 268435456,
        k <= 3 ==> rl_weight(k) <= 2097152,
        rl_weight(k + 1) == 128 * rl_weight(k),
{
    reveal_with_fuel(rl_weight, 6);
}

/// Reads the remaining length that starts at byte 1 of `data`.
fn read_remaining_length(data: &[u8]) -> (r: Option<(u64, usize)>)
    requires
        data.len() >= 1,
    ensures
        r is None <==> rl_read(data@.subrange(1, data@.len() as int), 0, 0) is None,
        r matches Some((v, u)) ==> rl_read(data@.subrange(1, data@.len() as int), 0, 0) == Some(
            (v as nat, u as nat),
        ) && 1 <= u <= data.len() - 1,
{
    let ghost d = data@.subrange(1, data@.len() as int);
    let mut k: usize = 0;
    let mut acc: u64 = 0;
    let mut weight: u64 = 1;
    loop
        invariant
            data.len() >= 1,
            d == data@.subrange(1, data@.len() as int),
            k <= 4,
            weight == rl_weight(k as nat),
            acc < weight,
            rl_read(d, 0, 0) == rl_read(d, k as nat, acc as nat),
        decreases 5 - k,
    {
        proof {
            lemma_rl_weight_bounds(k as nat);
        }
        if 1 + k >= data.len() {
            return None;
        }
        let b = data[1 + k];
        assert(d[k as int] == b);
        let low = (b % 128) as u64;
        assert(low * weight <= 127 * weight) by (nonlinear_arith)
            requires
                low <= 127,
                weight >= 1,
        ;
        let v = acc + low * weight;
        if b < 128 {
            return Some((v, k + 1));
        }
        if k >= 4 {
            return None;
        }
        acc = v;
        weight = weight * 128;
        k = k + 1;
    }
}

/// Reads a string at `i` of `p`.
fn read_text(p: &[u8], i: usize) -> (r: ProtoResult<(String, usize)>)
    ensures
        r is Ok <==> rd_text(p@, i as int) is Some,
        r matches Ok((t, j)) ==> rd_text(p@, i as int) == Some((t@, j as int)),
{
    if i > p.len() || p.len() - i < 2 {
        return Err(ProtoError::Parse("mqtt string len missing"));
    }
    let n = read_be16(p, i) as usize;
    if p.len() - i - 2 < n {
        return Err(ProtoError::Parse("mqtt string length invalid"));
    }
    let raw = copy_range(p, i + 2, n);
    let t = string_from_utf8_lossy(raw.as_slice());
    Ok((t, i + 2 + n))
}

fn read_opt_text(p: &[u8], i: usize, present: bool) -> (r: ProtoResult<(Option<String>, usize)>)
    ensures
        r is Ok <==> rd_opt_text(p@, i as int, present) is Some,
        r matches Ok((t, j)) ==> rd_opt_text(p@, i as int, present) == Some((opt_chars(t), j as int)),
{
    if present {
        let (t, j) = read_text(p, i)?;
        Ok((Some(t), j))
    } else {
        Ok((None, i))
    }
}

fn decode_connect(p: &[u8]) -> (r: ProtoResult<MqttPacket>)
    ensures
        r is Ok <==> dec_connect(p@) is Some,
        r matches Ok(m) ==> dec_connect(p@) == Some(m@),
{
    let (name, i) = read_text(p, 0)?;
    let cs = chars_of(name.as_str());
    if !(cs.len() == 4 && cs[0] == 'M' && cs[1] == 'Q' && cs[2] == 'T' && cs[3] == 'T') {
        return Err(ProtoError::Parse("mqtt protocol name invalid"));
    }
    assert(name@ =~= mqtt_name());
    if i >= p.len() {
        return Err(ProtoError::Parse("mqtt protocol level missing"));
    }
    if p[i] != 4 {
        return Err(ProtoError::Parse("mqtt protocol level unsupported"));
    }
    if i + 1 >= p.len() {
        return Err(ProtoError::Parse("mqtt flags missing"));
    }
    let flags = p[i + 1];
    if p.len() - i < 4 {
        return Err(ProtoError::Parse("mqtt keepalive missing"));
    }
    let keep_alive = read_be16(p, i + 2);
    let (client_id, j) = read_text(p, i + 4)?;
    let (username, k) = read_opt_text(p, j, flags >= 128)?;
    let (password, _) = read_opt_text(p, k, (flags / 64) % 2 == 1)?;
    Ok(
        MqttPacket::Connect {
            client_id,
            keep_alive,
            username,
            password,
            clean_session: (flags / 2) % 2 == 1,
        },
    )
}

fn decode_publish(p: &[u8], flags: u8) -> (r: ProtoResult<MqttPacket>)
    ensures
        r is Ok <==> dec_publish(p@, flags) is Some,
        r matches Ok(m) ==> dec_publish(p@, flags) == Some(m@),
{
    let qos: u8 = (flags / 2) % 4;
    let (topic, i) = read_text(p, 0)?;
    let mut j = i;
    let mut packet_id: Option<u16> = None;
    if qos > 0 {
        if p.len() - i < 2 {
            return Err(ProtoError::Parse("mqtt publish missing packet id"));
        }
        packet_id = Some(read_be16(p, i));
        j = i + 2;
    }
    let payload = copy_range(p, j, p.len() - j);
    Ok(MqttPacket::Publish { topic, payload, qos, retain: flags % 2 == 1, packet_id })
}

/// `rest` with `done` in front of it, when there is a rest.
pub open spec fn after_topics(done: Seq<(Seq<char>, u8)>, rest: Option<Seq<(Seq<char>, u8)>>) -> Option<
    Seq<(Seq<char>, u8)>,
> {
    match rest {
        Some(r) => Some(done + r),
        None => None,
    }
}

fn decode_subscribe(p: &[u8]) -> (r: ProtoResult<MqttPacket>)
    requires
        p.len() >= 2,
    ensures
        r is Ok <==> dec_topics(p@, 2) is Some,
        r matches Ok(m) ==> m@ == (MqttModel::Subscribe {
            packet_id: get_be16(p@, 0),
            topics: dec_topics(p@, 2)->0,
        }),
{
    let packet_id = read_be16(p, 0);
    let mut idx: usize = 2;
    let mut topics: Vec<(String, u8)> = Vec::new();
    assert(topics_view(topics@) + dec_topics(p@, 2)->0 =~= dec_topics(p@, 2)->0);
    while idx < p.len()
        invariant
            2 <= idx <= p.len(),
            dec_topics(p@, 2) == after_topics(topics_view(topics@), dec_topics(p@, idx as int)),
        decreases p.len() - idx,
    {
        let (topic, j) = match read_text(p, idx) {
            Ok(x) => x,
            Err(e) => {
                return Err(e);
            },
        };
        if j >= p.len() {
            return Err(ProtoError::Parse("mqtt subscribe missing qos"));
        }
        let qos = p[j];
        let ghost before = topics_view(topics@);
        topics.push((topic, qos));
        proof {
            assert(topics_view(topics@) =~= before.push((topic@, qos)));
            match dec_topics(p@, j + 1) {
                Some(rest) => {
                    assert(before + (seq![(topic@, qos)] + rest) =~= before.push((topic@, qos)) + rest);
                },
                None => {},
            }
        }
        idx = j + 1;
    }
    assert(dec_topics(p@, idx as int) == Some(Seq::<(Seq<char>, u8)>::empty()));
    assert(topics_view(topics@) + Seq::<(Seq<char>, u8)>::empty() =~= topics_view(topics@));
    Ok(MqttPacket::Subscribe { packet_id, topics })
}

fn decode_body(ty: u8, flags: u8, p: &[u8]) -> (r: ProtoResult<MqttPacket>)
    ensures
        r is Ok <==> dec_body(ty, flags, p@) is Some,
        r matches Ok(m) ==> dec_body(ty, flags, p@) == Some(m@),
{
    if ty == 1 {
        decode_connect(p)
    } else if ty == 2 {
        if p.len() != 2 {
            return Err(ProtoError::Parse("mqtt connack len"));
        }
        Ok(MqttPacket::ConnAck { session_present: p[0] % 2 == 1, return_code: p[1] })
    } else if ty == 3 {
        decode_publish(p, flags)
    } else if ty == 4 {
        if p.len() != 2 {
            return Err(ProtoError::Parse("mqtt puback len"));
        }
        Ok(MqttPacket::PubAck { packet_id: read_be16(p, 0) })
    } else if ty == 8 {
        if p.len() < 2 {
            return Err(ProtoError::Parse("mqtt subscribe too short"));
        }
        decode_subscribe(p)
    } else if ty == 9 {
        if p.len() < 3 {
            return Err(ProtoError::Parse("mqtt suback too short"));
        }
        let return_codes = copy_range(p, 2, p.len() - 2);
        Ok(MqttPacket::SubAck { packet_id: read_be16(p, 0), return_codes })
    } else if ty == 12 {
        Ok(MqttPacket::PingReq)
    } else if ty == 13 {
        Ok(MqttPacket::PingResp)
    } else if ty == 14 {
        Ok(MqttPacket::Disconnect)
    } else {
        Err(ProtoError::Parse("mqtt packet type unsupported"))
    }
}

impl MqttPacket {
    /// The packet that `data` starts with; bytes after it are ignored.
    pub fn decode(data: &[u8]) -> (r: ProtoResult<MqttPacket>)
        ensures
            r is Ok <==> mqtt_decode(data@) is Some,
            r matches Ok(m) ==> mqtt_decode(data@) == Some(m@),
    {
        if data.len() == 0 {
            return Err(ProtoError::Parse("mqtt empty packet"));
        }
        let header = data[0];
        let (rem, used) = match read_remaining_length(data) {
            Some(x) => x,
            None => {
                return Err(ProtoError::Parse("mqtt remaining length missing"));
            },
        };
        let avail = data.len() - 1 - used;
        if (avail as u64) < rem {
            return Err(ProtoError::Parse("mqtt packet length mismatch"));
        }
        let p = copy_range(data, 1 + used, rem as usize);
        decode_body(header / 16, header % 16, p.as_slice())
    }
}

} // verus!
