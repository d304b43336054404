//! Reading back what the codec writes.
use vstd::prelude::*;
use vstd::utf8::{encode_utf8, encode_scalar};
use crate::mqtt::codec::{MqttModel, connect_flags, dec_body, dec_connect, dec_topics, mqtt_body, mqtt_decode, mqtt_encode, mqtt_header, mqtt_name, mqtt_text, opt_text, publish_id_bytes, rd_opt_text, rd_text, rl_bytes, rl_read, rl_weight, topic_entry, topics_bytes};
use crate::text::{lemma_lossy_of_utf8, lossy_text};
use crate::wire::{be16, get_be16, lemma_read_at};

verus! {

/// A string whose UTF-8 image has a length that fits the 16-bit length field.
pub open spec fn text_fits(s: Seq<char>) -> bool {
    encode_utf8(s).len() <= 65535
}

/// The packets that the codec reads back as they were written: strings within the 16-bit
/// length, the whole body within five bytes of remaining length, a publish QoS of at most 3
/// with a packet identifier exactly when the QoS is above 0, and at least one return code in
/// a SUBACK.
pub open spec fn mqtt_wf(m: MqttModel) -> bool {
    &&& mqtt_body(m).len() < 34359738368
    &&& match m {
        MqttModel::Connect { client_id, username, password, .. } => {
            &&& text_fits(client_id)
            &&& (username matches Some(u) ==> text_fits(u))
            &&& (password matches Some(w) ==> text_fits(w))
        },
        MqttModel::Publish { topic, qos, packet_id, .. } => {
            &&& text_fits(topic)
            &&& qos <= 3
            &&& (qos > 0 <==> packet_id is Some)
        },
        MqttModel::Subscribe { topics, .. } => forall|i: int| 0 <= i < topics.len() ==> text_fits(#[trigger] topics[i].0),
        MqttModel::SubAck { return_codes, .. } => return_codes.len() >= 1,
        _ => true,
    }
}

proof fn lemma_rl_weight_step(k: nat)
    ensures
        rl_weight(k + 1) == 128 * rl_weight(k),
        rl_weight(k) >= 1,
    decreases k,
{
    if k > 0 {
        lemma_rl_weight_step((k - 1) as nat);
    }
}

proof fn lemma_rl_len(v: nat)
    ensures
        rl_bytes(v).len() >= 1,
    decreases v,
{
    if v >= 128 {
        lemma_rl_len(v / 128);
    }
}

proof fn lemma_rl_at(d: Seq<u8>, k: nat, acc: nat, v: nat)
    requires
        k <= 4,
        v < rl_weight((5 - k) as nat),
        acc < rl_weight(k),
        k + rl_bytes(v).len() <= d.len(),
        d.subrange(k as int, (k + rl_bytes(v).len()) as int) == rl_bytes(v),
    ensures
        rl_read(d, k, acc) == Some((acc + v * rl_weight(k), k + rl_bytes(v).len())),
    decreases v,
{
    let w = rl_weight(k);
    lemma_rl_weight_step(k);
    assert(d[k as int] == rl_bytes(v)[0]);
    if v < 128 {
        assert(d[k as int] == v);
    } else {
        let r = (5 - k) as nat;
        if r <= 1 {
            reveal_with_fuel(rl_weight, 3);
            assert(false);
        }
        lemma_rl_weight_step((r - 1) as nat);
        assert(rl_weight(r) == 128 * rl_weight((4 - k) as nat));
        let q = v / 128;
        let lo = v % 128;
        assert(v == 128 * q + lo);
        assert(q < rl_weight((4 - k) as nat));
        assert(d[k as int] == lo + 128);
        assert((lo + 128) % 128 == lo);
        lemma_rl_len(q);
        assert(d.subrange(k + 1int, (k + 1 + rl_bytes(q).len()) as int) =~= rl_bytes(q)) by {
            assert(rl_bytes(v) =~= seq![(lo + 128) as u8] + rl_bytes(q));
            assert forall|j: int| 0 <= j < rl_bytes(q).len() implies d.subrange(k + 1int, (k + 1 + rl_bytes(q).len()) as int)[j]
                == rl_bytes(q)[j] by {
                assert(d.subrange(k as int, (k + rl_bytes(v).len()) as int)[j + 1] == rl_bytes(v)[j + 1]);
            }
        }
        assert(lo * w <= 127 * w) by (nonlinear_arith)
            requires
                lo <= 127,
                w >= 1,
        ;
        let acc2 = acc + lo * w;
        assert(acc2 < rl_weight(k + 1));
        lemma_rl_at(d, k + 1, acc2, q);
        assert(acc2 + q * rl_weight(k + 1) == acc + v * w) by (nonlinear_arith)
            requires
                acc2 == acc + lo * w,
                rl_weight(k + 1) == 128 * w,
                v == 128 * q + lo,
        ;
    }
}

proof fn lemma_mqtt_name_image()
    ensures
        encode_utf8(mqtt_name()) == seq![77u8, 81, 84, 84],
{
    let s = mqtt_name();
    assert forall|c: u32| c <= 0x7f implies #[trigger] encode_scalar(c) == seq![c as u8] by {
        assert(c & 0x7f == c) by (bit_vector)
            requires
                c <= 0x7f,
        ;
    }
    assert(s.drop_first() =~= seq!['Q', 'T', 'T']);
    assert(s.drop_first().drop_first() =~= seq!['T', 'T']);
    assert(s.drop_first().drop_first().drop_first() =~= seq!['T']);
    assert(s.drop_first().drop_first().drop_first().drop_first() =~= Seq::<char>::empty());
    reveal_with_fuel(encode_utf8, 5);
    assert(encode_utf8(s) =~= seq![77u8, 81, 84, 84]);
}

proof fn lemma_text_at(p: Seq<u8>, i: int, s: Seq<char>)
    requires
        0 <= i,
        text_fits(s),
        i + mqtt_text(s).len() <= p.len(),
        p.subrange(i, i + mqtt_text(s).len()) == mqtt_text(s),
    ensures
        rd_text(p, i) == Some((s, i + mqtt_text(s).len())),
{
    let e = encode_utf8(s);
    let n = e.len();
    lemma_read_at(p, i);
    assert(p.subrange(i, i + 2) =~= mqtt_text(s).subrange(0, 2));
    assert(mqtt_text(s).subrange(0, 2) =~= be16(n as u16));
    assert(get_be16(p, i) == n);
    assert(p.subrange(i + 2, i + 2 + n) =~= e) by {
        assert forall|j: int| 0 <= j < n implies p.subrange(i + 2, i + 2 + n)[j] == e[j] by {
            assert(p.subrange(i, i + mqtt_text(s).len())[j + 2] == mqtt_text(s)[j + 2]);
        }
    }
    lemma_lossy_of_utf8(s);
}

proof fn lemma_opt_text_at(p: Seq<u8>, i: int, s: Option<Seq<char>>)
    requires
        0 <= i,
        s matches Some(t) ==> text_fits(t),
        i + opt_text(s).len() <= p.len(),
        p.subrange(i, i + opt_text(s).len()) == opt_text(s),
    ensures
        rd_opt_text(p, i, s is Some) == Some((s, i + opt_text(s).len())),
{
    if let Some(t) = s {
        lemma_text_at(p, i, t);
    }
}

proof fn lemma_topics_front(ts: Seq<(Seq<char>, u8)>)
    requires
        ts.len() > 0,
    ensures
        topics_bytes(ts) == topic_entry(ts[0]) + topics_bytes(ts.drop_first()),
    decreases ts.len(),
{
    if ts.len() == 1 {
        assert(ts.drop_last().len() == 0);
        assert(ts.drop_first().len() == 0);
        assert(topics_bytes(ts.drop_first()) == Seq::<u8>::empty());
        assert(topics_bytes(ts.drop_last()) == Seq::<u8>::empty());
        assert(topics_bytes(ts) =~= topic_entry(ts[0]) + topics_bytes(ts.drop_first()));
    } else {
        lemma_topics_front(ts.drop_last());
        assert(ts.drop_last().drop_first() =~= ts.drop_first().drop_last());
        assert(ts.drop_first().last() == ts.last());
        assert(ts.drop_last()[0] == ts[0]);
        assert(topics_bytes(ts) =~= topic_entry(ts[0]) + topics_bytes(ts.drop_first()));
    }
}

proof fn lemma_topics_at(p: Seq<u8>, i: int, ts: Seq<(Seq<char>, u8)>)
    requires
        0 <= i,
        forall|k: int| 0 <= k < ts.len() ==> text_fits(#[trigger] ts[k].0),
        i + topics_bytes(ts).len() == p.len(),
        p.subrange(i, p.len() as int) == topics_bytes(ts),
    ensures
        dec_topics(p, i) == Some(ts),
    decreases ts.len(),
{
    if ts.len() == 0 {
        assert(dec_topics(p, i) == Some(Seq::<(Seq<char>, u8)>::empty()));
        assert(ts =~= Seq::<(Seq<char>, u8)>::empty());
    } else {
        lemma_topics_front(ts);
        let t = ts[0];
        let e = topic_entry(t);
        let tl = mqtt_text(t.0);
        assert(text_fits(t.0));
        assert(p.subrange(i, i + tl.len()) =~= tl) by {
            assert forall|j: int| 0 <= j < tl.len() implies p.subrange(i, i + tl.len())[j] == tl[j] by {
                assert(p.subrange(i, p.len() as int)[j] == topics_bytes(ts)[j]);
            }
        }
        lemma_text_at(p, i, t.0);
        let j = i + tl.len();
        assert(p[j] == t.1) by {
            assert(p.subrange(i, p.len() as int)[tl.len() as int] == topics_bytes(ts)[tl.len() as int]);
        }
        assert(p.subrange(j + 1, p.len() as int) =~= topics_bytes(ts.drop_first())) by {
            assert forall|k: int| 0 <= k < topics_bytes(ts.drop_first()).len() implies p.subrange(
                j + 1,
                p.len() as int,
            )[k] == topics_bytes(ts.drop_first())[k] by {
                assert(p.subrange(i, p.len() as int)[e.len() + k] == topics_bytes(ts)[e.len() + k]);
            }
        }
        lemma_read_at(p, i);
        assert(get_be16(p, i) == encode_utf8(t.0).len()) by {
            assert(p.subrange(i, i + 2) =~= be16((encode_utf8(t.0).len() % 65536) as u16)) by {
                assert(p.subrange(i, i + 2) =~= tl.subrange(0, 2));
            }
        }
        lemma_topics_at(p, j + 1, ts.drop_first());
        assert(seq![(lossy_text(p.subrange(i + 2, j)), p[j])] + ts.drop_first() =~= ts);
    }
}

#[verifier::rlimit(30)]
proof fn lemma_connect_body(
    b: Seq<u8>,
    flags: u8,
    keep_alive: u16,
    client_id: Seq<char>,
    username: Option<Seq<char>>,
    password: Option<Seq<char>>,
    clean_session: bool,
)
    requires
        b == seq![0u8, 4, 77, 81, 84, 84, 4, flags] + be16(keep_alive) + mqtt_text(client_id) + opt_text(username)
            + opt_text(password),
        text_fits(client_id),
        username matches Some(t) ==> text_fits(t),
        password matches Some(t) ==> text_fits(t),
        flags >= 128 <==> username is Some,
        ((flags / 64) % 2 == 1) <==> password is Some,
        ((flags / 2) % 2 == 1) <==> clean_session,
    ensures
        dec_connect(b) == Some(MqttModel::Connect { client_id, keep_alive, username, password, clean_session }),
{
    let c = mqtt_text(client_id);
    let u = opt_text(username);
    let w = opt_text(password);
    let head = seq![0u8, 4, 77, 81, 84, 84, 4, flags] + be16(keep_alive);
    assert(rd_text(b, 0) == Some((mqtt_name(), 6int))) by {
        lemma_mqtt_name_image();
        assert(mqtt_text(mqtt_name()) =~= seq![0u8, 4, 77, 81, 84, 84]);
        assert(b.subrange(0, 6) =~= mqtt_text(mqtt_name()));
        lemma_text_at(b, 0, mqtt_name());
    }
    assert(b[6] == 4 && b[7] == flags && b.len() >= 10);
    assert(get_be16(b, 8) == keep_alive) by {
        lemma_read_at(b, 8);
        assert(b.subrange(8, 10) =~= be16(keep_alive));
    }
    let j = 10 + c.len() as int;
    let k = j + u.len() as int;
    assert(rd_text(b, 10) == Some((client_id, j))) by {
        assert(b.subrange(10, j) =~= c);
        lemma_text_at(b, 10, client_id);
    }
    assert(rd_opt_text(b, j, flags >= 128) == Some((username, k))) by {
        assert(b.subrange(j, k) =~= u);
        lemma_opt_text_at(b, j, username);
    }
    assert(rd_opt_text(b, k, (flags / 64) % 2 == 1) == Some((password, k + w.len()))) by {
        assert(b.subrange(k, k + w.len() as int) =~= w);
        lemma_opt_text_at(b, k, password);
    }
}

proof fn lemma_connect_decodes(m: MqttModel)
    requires
        mqtt_wf(m),
        m is Connect,
    ensures
        dec_body(mqtt_header(m) / 16, mqtt_header(m) % 16, mqtt_body(m)) == Some(m),
{
    match m {
        MqttModel::Connect { client_id, keep_alive, username, password, clean_session } => {
            let flags = connect_flags(clean_session, username is Some, password is Some);
            lemma_connect_body(mqtt_body(m), flags, keep_alive, client_id, username, password, clean_session);
        },
        _ => {},
    }
}

proof fn lemma_publish_decodes(m: MqttModel)
    requires
        mqtt_wf(m),
        m is Publish,
    ensures
        dec_body(mqtt_header(m) / 16, mqtt_header(m) % 16, mqtt_body(m)) == Some(m),
{
    let b = mqtt_body(m);
    match m {
        MqttModel::Publish { topic, payload, qos, retain, packet_id } => {
            let t = mqtt_text(topic);
            let idb = publish_id_bytes(qos, packet_id);
            assert(b.subrange(0, t.len() as int) =~= t);
            lemma_text_at(b, 0, topic);
            let h = mqtt_header(m);
            assert(h / 16 == 3);
            assert(h % 16 == qos * 2 + (if retain { 1int } else { 0 }));
            assert(((h % 16) / 2) % 4 == qos);
            assert(((h % 16) % 2 == 1) <==> retain);
            if qos > 0 {
                lemma_read_at(b, t.len() as int);
                assert(b.subrange(t.len() as int, t.len() + 2int) =~= idb);
                assert(b.subrange(t.len() + 2int, b.len() as int) =~= payload);
            } else {
                assert(b.subrange(t.len() as int, b.len() as int) =~= payload);
            }
        },
        _ => {},
    }
}

proof fn lemma_body_decodes(m: MqttModel)
    requires
        mqtt_wf(m),
    ensures
        dec_body(mqtt_header(m) / 16, mqtt_header(m) % 16, mqtt_body(m)) == Some(m),
{
    let b = mqtt_body(m);
    match m {
        MqttModel::Connect { .. } => {
            lemma_connect_decodes(m);
        },
        MqttModel::ConnAck { session_present, return_code } => {},
        MqttModel::Publish { .. } => {
            lemma_publish_decodes(m);
        },
        MqttModel::PubAck { packet_id } => {
            lemma_read_at(b, 0);
            assert(b.subrange(0, 2) =~= be16(packet_id));
        },
        MqttModel::Subscribe { packet_id, topics } => {
            lemma_read_at(b, 0);
            assert(b.subrange(0, 2) =~= be16(packet_id));
            assert(b.subrange(2, b.len() as int) =~= topics_bytes(topics));
            lemma_topics_at(b, 2, topics);
        },
        MqttModel::SubAck { packet_id, return_codes } => {
            lemma_read_at(b, 0);
            assert(b.subrange(0, 2) =~= be16(packet_id));
            assert(b.subrange(2, b.len() as int) =~= return_codes);
        },
        _ => {},
    }
}

/// Every well-formed packet is written, and reading its bytes gives the packet back.
#[verifier::spinoff_prover]
pub proof fn lemma_mqtt_roundtrip(m: MqttModel)
    requires
        mqtt_wf(m),
    ensures
        mqtt_encode(m) is Some,
        mqtt_decode(mqtt_encode(m)->0) == Some(m),
{
    let body = mqtt_body(m);
    let h = mqtt_header(m);
    let l = body.len();
    let r = rl_bytes(l);
    let d = seq![h] + r + body;
    assert(mqtt_encode(m) == Some(d));
    let t = d.subrange(1, d.len() as int);
    assert(t =~= r + body);
    assert(t.subrange(0, r.len() as int) =~= r);
    reveal_with_fuel(rl_weight, 6);
    lemma_rl_len(l);
    lemma_rl_at(t, 0, 0, l);
    assert(rl_weight(0) == 1);
    assert(0 + l * rl_weight(0) == l);
    assert(rl_read(t, 0, 0) == Some((l, r.len())));
    assert(d.subrange(1 + r.len() as int, 1 + r.len() as int + l) =~= body);
    lemma_body_decodes(m);
}

} // verus!
