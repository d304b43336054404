//! Topic matching, the broker's sessions and subscriptions, and the decisions that the
//! server takes for each packet of a client.
use vstd::prelude::*;
use crate::error::{ProtoError, ProtoResult};
use crate::mqtt::codec::{MqttModel, MqttPacket, topics_view};
use crate::credentials::{user_password, UserTable};
use crate::text::{chars_eq, chars_of, decimal, push_decimal, split_chars, split_on, str_eq};

verus! {

// ---------------------------------------------------------------------------
// Topic filters
// ---------------------------------------------------------------------------

/// Whether the levels of a filter from `i` on match those of a topic: `#` matches all
/// that is left, `+` any one level, any other level only itself.
pub open spec fn levels_match(fp: Seq<Seq<char>>, tp: Seq<Seq<char>>, i: int) -> bool
    decreases fp.len() - i,
{
    if i < 0 || i >= fp.len() {
        i == tp.len()
    } else if fp[i] == seq!['#'] {
        true
    } else if i >= tp.len() {
        false
    } else if fp[i] != seq!['+'] && fp[i] != tp[i] {
        false
    } else {
        levels_match(fp, tp, i + 1)
    }
}

/// Whether the topic filter `filter` matches the topic name `topic`, level by level.
pub open spec fn topic_matches_spec(filter: Seq<char>, topic: Seq<char>) -> bool {
    levels_match(split_on(filter, '/'), split_on(topic, '/'), 0)
}

/// Whether the topic filter `filter` matches the topic name `topic`.
pub fn topic_matches(filter: &str, topic: &str) -> (r: bool)
    ensures
        r == topic_matches_spec(filter@, topic@),
{
    let fc = chars_of(filter);
    let tc = chars_of(topic);
    let fp = split_chars(fc.as_slice(), '/');
    let tp = split_chars(tc.as_slice(), '/');
    let ghost fs = fp@.map_values(|p: Vec<char>| p@);
    let ghost ts = tp@.map_values(|p: Vec<char>| p@);
    assert(fs == split_on(filter@, '/'));
    assert(ts == split_on(topic@, '/'));
    let hash: Vec<char> = vec!['#'];
    let plus: Vec<char> = vec!['+'];
    assert(hash@ =~= seq!['#']);
    assert(plus@ =~= seq!['+']);
    let mut i: usize = 0;
    while i < fp.len()
        invariant
            i <= fp.len(),
            fs == fp@.map_values(|p: Vec<char>| p@),
            ts == tp@.map_values(|p: Vec<char>| p@),
            fs.len() == fp@.len(),
            ts.len() == tp@.len(),
            hash@ == seq!['#'],
            plus@ == seq!['+'],
            levels_match(fs, ts, 0) == levels_match(fs, ts, i as int),
            fs == split_on(filter@, '/'),
            ts == split_on(topic@, '/'),
        decreases fp.len() - i,
    {
        assert(fs[i as int] == fp@[i as int]@);
        if chars_eq(fp[i].as_slice(), hash.as_slice()) {
            return true;
        }
        if i >= tp.len() {
            return false;
        }
        assert(ts[i as int] == tp@[i as int]@);
        if !chars_eq(fp[i].as_slice(), plus.as_slice()) && !chars_eq(fp[i].as_slice(), tp[i].as_slice()) {
            return false;
        }
        i = i + 1;
    }
    i == tp.len()
}

// ---------------------------------------------------------------------------
// The broker
// ---------------------------------------------------------------------------

/// A connected client: its identifier and its subscriptions, in the order they were made.
pub struct MqttSession {
    pub client_id: String,
    pub subscriptions: Vec<(String, u8)>,
}

/// The sessions of the connected clients; no client identifier has two.
pub struct MqttBroker {
    sessions: Vec<MqttSession>,
}

/// A session as a value: the client identifier and its subscriptions.
pub type SessionModel = (Seq<char>, Seq<(Seq<char>, u8)>);

impl View for MqttSession {
    type V = SessionModel;

    open spec fn view(&self) -> SessionModel {
        (self.client_id@, topics_view(self.subscriptions@))
    }
}

impl View for MqttBroker {
    type V = Seq<SessionModel>;

    closed spec fn view(&self) -> Seq<SessionModel> {
        self.sessions@.map_values(|s: MqttSession| s@)
    }
}

/// No two sessions have the same client identifier.
pub open spec fn sessions_wf(s: Seq<SessionModel>) -> bool {
    forall|i: int, j: int| 0 <= i < j < s.len() ==> (#[trigger] s[i]).0 != (#[trigger] s[j]).0
}

/// The position of the session of `id`, looking from `i` on.
pub open spec fn session_index_from(s: Seq<SessionModel>, id: Seq<char>, i: int) -> Option<int>
    decreases s.len() - i,
{
    if i < 0 || i >= s.len() {
        None
    } else if s[i].0 == id {
        Some(i)
    } else {
        session_index_from(s, id, i + 1)
    }
}

/// The position of the session of `id`.
pub open spec fn session_index(s: Seq<SessionModel>, id: Seq<char>) -> Option<int> {
    session_index_from(s, id, 0)
}

/// After registering `id`: its session starts again with no subscription, in its place if it
/// had one, else at the end.
pub open spec fn register_spec(s: Seq<SessionModel>, id: Seq<char>) -> Seq<SessionModel> {
    match session_index(s, id) {
        Some(i) => s.update(i, (id, Seq::empty())),
        None => s.push((id, Seq::empty())),
    }
}

/// After unregistering `id`: its session is gone.
pub open spec fn unregister_spec(s: Seq<SessionModel>, id: Seq<char>) -> Seq<SessionModel> {
    match session_index(s, id) {
        Some(i) => s.remove(i),
        None => s,
    }
}

/// After `id` subscribes to `filter` with `qos`: the subscription is added last to its
/// session; nothing changes for a client without a session.
pub open spec fn subscribe_spec(s: Seq<SessionModel>, id: Seq<char>, filter: Seq<char>, qos: u8) -> Seq<
    SessionModel,
> {
    match session_index(s, id) {
        Some(i) => s.update(i, (s[i].0, s[i].1.push((filter, qos)))),
        None => s,
    }
}

/// After `id` subscribes to each entry of `ts`, in order.
pub open spec fn subscribe_all_spec(s: Seq<SessionModel>, id: Seq<char>, ts: Seq<(Seq<char>, u8)>) -> Seq<
    SessionModel,
>
    decreases ts.len(),
{
    if ts.len() == 0 {
        s
    } else {
        let p = subscribe_all_spec(s, id, ts.drop_last());
        subscribe_spec(p, id, ts.last().0, ts.last().1)
    }
}

/// The QoS of the first subscription from `i` on whose filter matches `topic`.
pub open spec fn first_match_from(subs: Seq<(Seq<char>, u8)>, topic: Seq<char>, i: int) -> Option<u8>
    decreases subs.len() - i,
{
    if i < 0 || i >= subs.len() {
        None
    } else if topic_matches_spec(subs[i].0, topic) {
        Some(subs[i].1)
    } else {
        first_match_from(subs, topic, i + 1)
    }
}

/// The packet that carries a publication to a subscriber that asked for `sub_qos`: the
/// lower of the two QoS levels, and packet identifier 1 above QoS 0.
pub open spec fn delivery_packet(topic: Seq<char>, payload: Seq<u8>, qos: u8, sub_qos: u8) -> MqttModel {
    let q = if qos <= sub_qos { qos } else { sub_qos };
    MqttModel::Publish {
        topic,
        payload,
        qos: q,
        retain: false,
        packet_id: if q > 0 { Some(1u16) } else { None },
    }
}

/// The deliveries of a publication: one for each session, in order, whose subscriptions
/// match the topic, by the first that matches.
pub open spec fn deliveries_spec(s: Seq<SessionModel>, topic: Seq<char>, payload: Seq<u8>, qos: u8) -> Seq<
    (Seq<char>, MqttModel),
>
    decreases s.len(),
{
    if s.len() == 0 {
        Seq::empty()
    } else {
        let before = deliveries_spec(s.drop_last(), topic, payload, qos);
        match first_match_from(s.last().1, topic, 0) {
            Some(sq) => before.push((s.last().0, delivery_packet(topic, payload, qos, sq))),
            None => before,
        }
    }
}

/// A delivery as a value: the client it goes to and the packet.
pub open spec fn delivery_view(d: (String, MqttPacket)) -> (Seq<char>, MqttModel) {
    (d.0@, d.1@)
}

proof fn lemma_session_index(s: Seq<SessionModel>, id: Seq<char>, i: int)
    requires
        0 <= i,
    ensures
        session_index_from(s, id, i) matches Some(j) ==> i <= j < s.len() && s[j].0 == id,
        session_index_from(s, id, i) is None ==> forall|j: int| i <= j < s.len() ==> s[j].0 != id,
    decreases s.len() - i,
{
    if i < s.len() && s[i].0 != id {
        lemma_session_index(s, id, i + 1);
    }
}

proof fn lemma_register_wf(s: Seq<SessionModel>, id: Seq<char>)
    requires
        sessions_wf(s),
    ensures
        sessions_wf(register_spec(s, id)),
        sessions_wf(unregister_spec(s, id)),
        forall|f: Seq<char>, q: u8| sessions_wf(#[trigger] subscribe_spec(s, id, f, q)),
{
    lemma_session_index(s, id, 0);
    let r = register_spec(s, id);
    assert forall|i: int, j: int| 0 <= i < j < r.len() implies (#[trigger] r[i]).0 != (#[trigger] r[j]).0 by {
        match session_index(s, id) {
            Some(k) => {
                if i == k {
                    assert(s[j].0 == r[j].0);
                } else if j == k {
                    assert(s[i].0 == r[i].0);
                } else {
                    assert(s[i].0 != s[j].0);
                }
            },
            None => {
                if j == s.len() {
                    assert(r[i] == s[i]);
                } else {
                    assert(s[i].0 != s[j].0);
                }
            },
        }
    }
    let u = unregister_spec(s, id);
    assert forall|i: int, j: int| 0 <= i < j < u.len() implies (#[trigger] u[i]).0 != (#[trigger] u[j]).0 by {
        if let Some(k) = session_index(s, id) {
            let a = if i < k { i } else { i + 1 };
            let b = if j < k { j } else { j + 1 };
            assert(u[i] == s[a] && u[j] == s[b]);
            assert(s[a].0 != s[b].0);
        }
    }
    assert forall|f: Seq<char>, q: u8| sessions_wf(#[trigger] subscribe_spec(s, id, f, q)) by {
        let t = subscribe_spec(s, id, f, q);
        assert forall|i: int, j: int| 0 <= i < j < t.len() implies (#[trigger] t[i]).0 != (#[trigger] t[j]).0 by {
            assert(t[i].0 == s[i].0 && t[j].0 == s[j].0);
        }
    }
}

impl MqttBroker {
    #[verifier::type_invariant]
    spec fn ids_unique(self) -> bool {
        sessions_wf(self@)
    }

    /// A broker with no session.
    pub fn new() -> (b: MqttBroker)
        ensures
            b@ == Seq::<SessionModel>::empty(),
    {
        let b = MqttBroker { sessions: Vec::new() };
        assert(b@ =~= Seq::<SessionModel>::empty());
        b
    }

    fn find(&self, client_id: &str) -> (r: Option<usize>)
        ensures
            r matches Some(i) ==> session_index(self@, client_id@) == Some(i as int) && i < self@.len(),
            r is None ==> session_index(self@, client_id@) is None,
    {
        let ghost s = self@;
        proof {
            lemma_session_index(s, client_id@, 0);
        }
        let mut i: usize = 0;
        while i < self.sessions.len()
            invariant
                i <= self.sessions.len(),
                s == self@,
                session_index(s, client_id@) == session_index_from(s, client_id@, i as int),
            decreases self.sessions.len() - i,
        {
            assert(s[i as int] == self.sessions@[i as int]@);
            if str_eq(self.sessions[i].client_id.as_str(), client_id) {
                return Some(i);
            }
            i = i + 1;
        }
        None
    }

    /// Registers a client: a session with no subscription, replacing any session it had.
    pub fn register(&mut self, client_id: String)
        ensures
            final(self)@ == register_spec(old(self)@, client_id@),
            sessions_wf(final(self)@),
    {
        proof {
            use_type_invariant(&*self);
            lemma_register_wf(self@, client_id@);
        }
        let ghost id = client_id@;
        let ghost none: Seq<(String, u8)> = Seq::empty();
        assert(topics_view(none) =~= Seq::<(Seq<char>, u8)>::empty());
        let ghost before = self@;
        let found = self.find(client_id.as_str());
        let mut sessions: Vec<MqttSession> = Vec::new();
        std::mem::swap(&mut sessions, &mut self.sessions);
        assert(before =~= sessions@.map_values(|s: MqttSession| s@));
        match found {
            Some(i) => {
                sessions.set(i, MqttSession { client_id, subscriptions: Vec::new() });
                assert(sessions@.map_values(|s: MqttSession| s@) =~= before.update(i as int, (id, Seq::empty())));
            },
            None => {
                sessions.push(MqttSession { client_id, subscriptions: Vec::new() });
                assert(sessions@.map_values(|s: MqttSession| s@) =~= before.push((id, Seq::empty())));
            },
        }
        self.sessions = sessions;
    }

    /// Removes the session of a client, if it has one.
    pub fn unregister(&mut self, client_id: &str)
        ensures
            final(self)@ == unregister_spec(old(self)@, client_id@),
            sessions_wf(final(self)@),
    {
        proof {
            use_type_invariant(&*self);
            lemma_register_wf(self@, client_id@);
        }
        match self.find(client_id) {
            Some(i) => {
                let ghost before = self@;
                let mut sessions: Vec<MqttSession> = Vec::new();
                std::mem::swap(&mut sessions, &mut self.sessions);
                assert(before =~= sessions@.map_values(|s: MqttSession| s@));
                sessions.remove(i);
                assert(sessions@.map_values(|s: MqttSession| s@) =~= before.remove(i as int));
                self.sessions = sessions;
            },
            None => {},
        }
    }

    /// Adds a subscription to the session of a client, if it has one.
    pub fn add_subscription(&mut self, client_id: &str, topic: String, qos: u8)
        ensures
            final(self)@ == subscribe_spec(old(self)@, client_id@, topic@, qos),
            sessions_wf(final(self)@),
    {
        proof {
            use_type_invariant(&*self);
            lemma_register_wf(self@, client_id@);
        }
        match self.find(client_id) {
            Some(i) => {
                let ghost before = self@;
                let ghost t = topic@;
                let mut sessions: Vec<MqttSession> = Vec::new();
                std::mem::swap(&mut sessions, &mut self.sessions);
                assert(before =~= sessions@.map_values(|s: MqttSession| s@));
                let mut session = sessions.remove(i);
                let ghost subs = session.subscriptions@;
                session.subscriptions.push((topic, qos));
                assert(topics_view(session.subscriptions@) =~= topics_view(subs).push((t, qos)));
                sessions.insert(i, session);
                assert(sessions@.map_values(|s: MqttSession| s@) =~= before.update(
                    i as int,
                    (before[i as int].0, before[i as int].1.push((t, qos))),
                ));
                self.sessions = sessions;
            },
            None => {},
        }
    }

    /// The deliveries of a publication on `topic`: for each session, in order, whose
    /// subscriptions match it, the publish packet that goes to that client.
    pub fn publish(&self, topic: &str, payload: &[u8], qos: u8) -> (out: Vec<(String, MqttPacket)>)
        ensures
            out@.map_values(|d: (String, MqttPacket)| delivery_view(d)) == deliveries_spec(
                self@,
                topic@,
                payload@,
                qos,
            ),
    {
        let ghost s = self@;
        let mut out: Vec<(String, MqttPacket)> = Vec::new();
        let mut i: usize = 0;
        while i < self.sessions.len()
            invariant
                i <= self.sessions.len(),
                s == self@,
                out@.map_values(|d: (String, MqttPacket)| delivery_view(d)) == deliveries_spec(
                    s.subrange(0, i as int),
                    topic@,
                    payload@,
                    qos,
                ),
            decreases self.sessions.len() - i,
        {
            let session = &self.sessions[i];
            let ghost subs = topics_view(session.subscriptions@);
            assert(s[i as int] == session@);
            let mut found: Option<u8> = None;
            let mut j: usize = 0;
            while j < session.subscriptions.len()
                invariant_except_break
                    found is None,
                invariant
                    j <= session.subscriptions.len(),
                    subs == topics_view(session.subscriptions@),
                    first_match_from(subs, topic@, 0) == first_match_from(subs, topic@, j as int),
                ensures
                    found matches Some(q) ==> first_match_from(subs, topic@, 0) == Some(q),
                    found is None ==> first_match_from(subs, topic@, 0) is None,
                decreases session.subscriptions.len() - j,
            {
                let (filter, sub_qos) = &session.subscriptions[j];
                assert(subs[j as int] == (filter@, *sub_qos));
                if topic_matches(filter.as_str(), topic) {
                    found = Some(*sub_qos);
                    break;
                }
                j = j + 1;
            }
            let ghost prev = out@.map_values(|d: (String, MqttPacket)| delivery_view(d));
            proof {
                assert(s.subrange(0, i + 1).drop_last() =~= s.subrange(0, i as int));
                assert(s.subrange(0, i + 1).last() == s[i as int]);
            }
            match found {
                Some(sq) => {
                    let q = if qos <= sq { qos } else { sq };
                    let payload_copy = crate::wire::copy_range(payload, 0, payload.len());
                    assert(payload@.subrange(0, payload@.len() as int) =~= payload@);
                    let packet = MqttPacket::Publish {
                        topic: String::from_str(topic),
                        payload: payload_copy,
                        qos: q,
                        retain: false,
                        packet_id: if q > 0 { Some(1u16) } else { None },
                    };
                    let ghost dv = (session.client_id@, packet@);
                    out.push((session.client_id.clone(), packet));
                    assert(out@.map_values(|d: (String, MqttPacket)| delivery_view(d)) =~= prev.push(dv));
                },
                None => {},
            }
            i = i + 1;
        }
        assert(s.subrange(0, i as int) =~= s);
        out
    }
}

// ---------------------------------------------------------------------------
// The server's decisions
// ---------------------------------------------------------------------------

/// The server's settings.
pub struct MqttServerConfig {
    pub poll_interval_ms: u64,
    pub allow_anonymous: bool,
    pub users: UserTable,
    pub max_clients: usize,
}

impl Default for MqttServerConfig {
    fn default() -> (c: Self)
        ensures
            c.poll_interval_ms == 200,
            c.allow_anonymous,
            c.users.entries().len() == 0,
            c.max_clients == 1000,
    {
        MqttServerConfig { poll_interval_ms: 200, allow_anonymous: true, users: UserTable::new(), max_clients: 1000 }
    }
}

/// Whether a CONNECT may proceed: always when anonymous clients are allowed, else only
/// with a user name and the password recorded for it.
pub open spec fn credentials_ok(config_anonymous: bool, users: Seq<(String, String)>, username: Option<
    Seq<char>,
>, password: Option<Seq<char>>) -> bool {
    config_anonymous || match (username, password) {
        (Some(u), Some(p)) => user_password(users, u) == Some(p),
        _ => false,
    }
}

/// The identifier given to a client that connects with an empty one.
pub open spec fn generated_client_id(seed: u64) -> Seq<char> {
    seq!['m', 'o', 'o', 'n', 'l', 'i', 'g', 'h', 't', '-'] + decimal(seed as nat)
}

/// A client identifier made from `seed`.
pub fn client_id_from_seed(seed: u64) -> (s: String)
    ensures
        s@ == generated_client_id(seed),
{
    let mut s = String::from_str("moonlight-");
    proof {
        reveal_strlit("moonlight-");
    }
    assert(s@ =~= seq!['m', 'o', 'o', 'n', 'l', 'i', 'g', 'h', 't', '-']);
    push_decimal(&mut s, seed);
    s
}

/// What the server does with the first packet of a client.
pub enum MqttAdmission {
    /// The credentials were refused: send this CONNACK and close.
    Refused(MqttPacket),
    /// The client is registered under `client_id`: send `ack` and serve it.
    Accepted { client_id: String, ack: MqttPacket },
}

/// What the server does with one packet of a connected client.
pub struct MqttStep {
    /// Packets to send back to the client, in order.
    pub replies: Vec<MqttPacket>,
    /// Publications to pass on to other sessions, each with the client it goes to.
    pub deliveries: Vec<(String, MqttPacket)>,
    /// Whether the client asked to disconnect.
    pub disconnect: bool,
}

impl MqttBroker {
    /// Admits a client by its first packet: anything but CONNECT is an error; bad
    /// credentials get CONNACK code 4 and leave the broker as it was; otherwise the client
    /// is registered (under an identifier made from `seed` when its own is empty) and gets
    /// CONNACK code 0.
    pub fn accept_client(&mut self, config: &MqttServerConfig, packet: MqttPacket, seed: u64) -> (r: ProtoResult<
        MqttAdmission,
    >)
        ensures
            sessions_wf(final(self)@),
            !(packet@ is Connect) ==> r == Err::<MqttAdmission, ProtoError>(
                ProtoError::Parse("mqtt expected connect"),
            ) && final(self)@ == old(self)@,
            packet@ matches MqttModel::Connect { client_id, username, password, .. } ==> {
                if !credentials_ok(config.allow_anonymous, config.users.entries(), username, password) {
                    &&& r matches Ok(MqttAdmission::Refused(p))
                    &&& p@ == (MqttModel::ConnAck { session_present: false, return_code: 4 })
                    &&& final(self)@ == old(self)@
                } else {
                    let id = if client_id.len() == 0 { generated_client_id(seed) } else { client_id };
                    &&& r matches Ok(MqttAdmission::Accepted { client_id: cid, ack })
                    &&& cid@ == id
                    &&& ack@ == (MqttModel::ConnAck { session_present: false, return_code: 0 })
                    &&& final(self)@ == register_spec(old(self)@, id)
                }
            },
    {
        proof {
            use_type_invariant(&*self);
        }
        match packet {
            MqttPacket::Connect { client_id, username, password, .. } => {
                if !config.allow_anonymous {
                    let valid = match (&username, &password) {
                        (Some(u), Some(p)) => config.users.check(u.as_str(), p.as_str()),
                        _ => false,
                    };
                    if !valid {
                        return Ok(MqttAdmission::Refused(MqttPacket::ConnAck { session_present: false, return_code: 4 }));
                    }
                }
                let id = if client_id.as_str().is_empty() {
                    client_id_from_seed(seed)
                } else {
                    client_id
                };
                self.register(id.clone());
                Ok(
                    MqttAdmission::Accepted {
                        client_id: id,
                        ack: MqttPacket::ConnAck { session_present: false, return_code: 0 },
                    },
                )
            },
            _ => Err(ProtoError::Parse("mqtt expected connect")),
        }
    }

    /// Serves one packet of the connected client `client_id`: a publish is acknowledged at
    /// QoS 1 and passed on to the matching sessions; a subscribe adds each filter to the
    /// client's session and is answered with the granted QoS levels; a ping is answered;
    /// a disconnect ends the session; anything else is ignored.
    pub fn handle_packet(&mut self, client_id: &str, packet: MqttPacket) -> (step: MqttStep)
        ensures
            sessions_wf(final(self)@),
            step.disconnect == (packet@ is Disconnect),
            match packet@ {
                MqttModel::Publish { topic, payload, qos, packet_id, .. } => {
                    &&& final(self)@ == old(self)@
                    &&& step.replies@.map_values(|p: MqttPacket| p@) == (if qos == 1 && packet_id is Some {
                        seq![MqttModel::PubAck { packet_id: packet_id->0 }]
                    } else {
                        Seq::empty()
                    })
                    &&& step.deliveries@.map_values(|d: (String, MqttPacket)| delivery_view(d))
                        == deliveries_spec(old(self)@, topic, payload, qos)
                },
                MqttModel::Subscribe { packet_id, topics } => {
                    &&& final(self)@ == subscribe_all_spec(old(self)@, client_id@, topics)
                    &&& step.replies@.map_values(|p: MqttPacket| p@) == seq![
                        MqttModel::SubAck { packet_id, return_codes: topics.map_values(|t: (Seq<char>, u8)| t.1) },
                    ]
                    &&& step.deliveries@.len() == 0
                },
                MqttModel::PingReq => {
                    &&& final(self)@ == old(self)@
                    &&& step.replies@.map_values(|p: MqttPacket| p@) == seq![MqttModel::PingResp]
                    &&& step.deliveries@.len() == 0
                },
                _ => {
                    &&& final(self)@ == old(self)@
                    &&& step.replies@.len() == 0
                    &&& step.deliveries@.len() == 0
                },
            },
    {
        proof {
            use_type_invariant(&*self);
        }
        let mut replies: Vec<MqttPacket> = Vec::new();
        match packet {
            MqttPacket::Publish { topic, payload, qos, packet_id, .. } => {
                if qos == 1 {
                    match packet_id {
                        Some(id) => {
                            replies.push(MqttPacket::PubAck { packet_id: id });
                            assert(replies@.map_values(|p: MqttPacket| p@) =~= seq![
                                MqttModel::PubAck { packet_id: id },
                            ]);
                        },
                        None => {},
                    }
                }
                let deliveries = self.publish(topic.as_str(), payload.as_slice(), qos);
                assert(qos == 1 && packet_id is Some || replies@.map_values(|p: MqttPacket| p@) =~= Seq::<
                    MqttModel,
                >::empty());
                MqttStep { replies, deliveries, disconnect: false }
            },
            MqttPacket::Subscribe { packet_id, topics } => {
                let ghost start = self@;
                let ghost tv = topics_view(topics@);
                let mut codes: Vec<u8> = Vec::new();
                let mut i: usize = 0;
                while i < topics.len()
                    invariant
                        i <= topics.len(),
                        tv == topics_view(topics@),
                        sessions_wf(self@),
                        self@ == subscribe_all_spec(start, client_id@, tv.subrange(0, i as int)),
                        codes@ == tv.subrange(0, i as int).map_values(|t: (Seq<char>, u8)| t.1),
                    decreases topics.len() - i,
                {
                    let (t, q) = &topics[i];
                    assert(tv[i as int] == (t@, *q));
                    self.add_subscription(client_id, t.clone(), *q);
                    codes.push(*q);
                    proof {
                        assert(tv.subrange(0, i + 1).drop_last() =~= tv.subrange(0, i as int));
                        assert(tv.subrange(0, i + 1).last() == (t@, *q));
                        assert(codes@ =~= tv.subrange(0, i + 1).map_values(|t: (Seq<char>, u8)| t.1));
                    }
                    i = i + 1;
                }
                assert(tv.subrange(0, i as int) =~= tv);
                let reply = MqttPacket::SubAck { packet_id, return_codes: codes };
                let ghost rv = reply@;
                replies.push(reply);
                assert(replies@.map_values(|p: MqttPacket| p@) =~= seq![rv]);
                MqttStep { replies, deliveries: Vec::new(), disconnect: false }
            },
            MqttPacket::PingReq => {
                replies.push(MqttPacket::PingResp);
                assert(replies@.map_values(|p: MqttPacket| p@) =~= seq![MqttModel::PingResp]);
                MqttStep { replies, deliveries: Vec::new(), disconnect: false }
            },
            MqttPacket::Disconnect => MqttStep { replies, deliveries: Vec::new(), disconnect: true },
            _ => MqttStep { replies, deliveries: Vec::new(), disconnect: false },
        }
    }
}

} // verus!
