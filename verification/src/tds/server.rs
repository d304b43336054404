//! The server side of a TDS session: login, and the answers to the queries it knows.
use vstd::prelude::*;
use vstd::utf8::encode_utf8;
use crate::credentials::{user_password, UserTable};
use crate::error::{ProtoError, ProtoResult};
use crate::tds::codec::{Login7, PreloginInfo, TdsMessageType, TdsPacket, TdsResponse, TdsToken, TokenModel, make_packet, login_read, outgoing_header, prelogin_read, tokens_bytes, tokens_view};
use crate::text::{chars_of, contains_chars, find_char, find_from, lossy_text, seq_contains, seq_starts_with, slice_chars, starts_with_chars, string_from_chars, string_from_utf8_lossy, to_lowercase, trim, trim_chars, unicode_lowercase, utf8_bytes};
use crate::wire::be32;

verus! {

/// The server's settings: the accepted users (none means any) and the database a session
/// starts in.
pub struct TdsServerConfig {
    pub users: UserTable,
    pub default_database: String,
}

impl Default for TdsServerConfig {
    fn default() -> (c: Self)
        ensures
            c.users.entries().len() == 0,
            c.default_database@ == "master"@,
    {
        TdsServerConfig { users: UserTable::new(), default_database: String::from_str("master") }
    }
}

/// A client's settings: the login it sends.
pub struct TdsClientConfig {
    pub username: String,
    pub password: String,
    pub database: String,
}

impl Default for TdsClientConfig {
    fn default() -> (c: Self)
        ensures
            c.username@ == "sa"@,
            c.password@ == "moonlight"@,
            c.database@ == "master"@,
    {
        TdsClientConfig {
            username: String::from_str("sa"),
            password: String::from_str("moonlight"),
            database: String::from_str("master"),
        }
    }
}

/// The state of a server session: whether the client has logged in, and its database.
pub struct TdsState {
    pub authenticated: bool,
    pub database: String,
}

/// The tokens of a one-column, one-row result.
pub open spec fn simple_row_spec(column: Seq<char>, value: Seq<u8>) -> Seq<TokenModel> {
    seq![TokenModel::ColumnMetadata(seq![column]), TokenModel::Row(seq![Some(value)]), TokenModel::Done(1)]
}

/// The version text that `SELECT @@VERSION` answers.
pub open spec fn server_version_text() -> Seq<u8> {
    seq![77u8, 111, 111, 110, 108, 105, 103, 104, 116, 32, 84, 68, 83, 32, 48, 46, 49]
}

/// The text between the first two quotes of `sql`, if it has two.
pub open spec fn quoted_value(sql: Seq<char>) -> Option<Seq<char>> {
    match find_from(sql, '\'', 0) {
        None => None,
        Some(a) => match find_from(sql, '\'', a + 1) {
            None => None,
            Some(b) => Some(sql.subrange(a + 1, b)),
        },
    }
}

/// The answer to a query, judged on its lower case: a `select` of `@@version`, of anything
/// with a `1`, of a quoted value or else of the current database; a `use` of a database;
/// anything else is unsupported.
pub open spec fn query_spec(sql: Seq<char>, database: Seq<char>) -> Seq<TokenModel> {
    let lower = unicode_lowercase(sql);
    if seq_starts_with(lower, "select"@) {
        if seq_contains(lower, "@@version"@) {
            simple_row_spec("version"@, server_version_text())
        } else if seq_contains(lower, "1"@) {
            simple_row_spec("1"@, seq![49u8])
        } else {
            match quoted_value(sql) {
                Some(v) => simple_row_spec("value"@, encode_utf8(v)),
                None => simple_row_spec("database"@, encode_utf8(database)),
            }
        }
    } else if seq_starts_with(lower, "use "@) {
        let skip = if sql.len() < 4 { sql.len() as int } else { 4 };
        seq![TokenModel::Done(0), TokenModel::Row(seq![Some(encode_utf8(trim(sql.subrange(skip, sql.len() as int))))])]
    } else {
        seq![TokenModel::Error("unsupported query"@)]
    }
}

fn simple_row(column: String, value: Vec<u8>) -> (r: TdsResponse)
    ensures
        tokens_view(r.tokens@) == simple_row_spec(column@, value@),
{
    let mut columns: Vec<String> = Vec::new();
    columns.push(column);
    let mut values: Vec<Option<Vec<u8>>> = Vec::new();
    values.push(Some(value));
    let r = TdsResponse {
        tokens: vec![TdsToken::ColumnMetadata(columns), TdsToken::Row(values), TdsToken::Done { row_count: 1 }],
    };
    assert(tokens_view(r.tokens@) =~= simple_row_spec(column@, value@)) by {
        assert(crate::tds::codec::names_view(columns@) =~= seq![column@]);
        assert(crate::tds::codec::values_view(values@) =~= seq![Some(value@)]);
    }
    r
}

/// The answer to a query in the session's current database.
pub fn execute_query(sql: &str, state: &TdsState) -> (r: TdsResponse)
    ensures
        tokens_view(r.tokens@) == query_spec(sql@, state.database@),
{
    let lower_s = to_lowercase(sql);
    let lower = chars_of(lower_s.as_str());
    let cs = chars_of(sql);
    if starts_with_chars(lower.as_slice(), chars_of("select").as_slice()) {
        if contains_chars(lower.as_slice(), chars_of("@@version").as_slice()) {
            let v: Vec<u8> = vec![77u8, 111, 111, 110, 108, 105, 103, 104, 116, 32, 84, 68, 83, 32, 48, 46, 49];
            return simple_row(String::from_str("version"), v);
        }
        if contains_chars(lower.as_slice(), chars_of("1").as_slice()) {
            let one: Vec<u8> = vec![49u8];
            assert(one@ =~= seq![49u8]);
            return simple_row(String::from_str("1"), one);
        }
        if let Some(start) = find_char(cs.as_slice(), '\'', 0) {
            proof {
                crate::text::lemma_find_from(cs@, '\'', 0);
            }
            if let Some(end) = find_char(cs.as_slice(), '\'', start + 1) {
                proof {
                    crate::text::lemma_find_from(cs@, '\'', start + 1);
                }
                let value = slice_chars(cs.as_slice(), start + 1, end);
                let text = string_from_chars(value.as_slice());
                assert(quoted_value(sql@) == Some(text@));
                return simple_row(String::from_str("value"), utf8_bytes(text.as_str()));
            }
        }
        assert(quoted_value(sql@) is None);
        return simple_row(String::from_str("database"), utf8_bytes(state.database.as_str()));
    }
    if starts_with_chars(lower.as_slice(), chars_of("use ").as_slice()) {
        let skip = if cs.len() < 4 { cs.len() } else { 4 };
        let rest = slice_chars(cs.as_slice(), skip, cs.len());
        let db = trim_chars(rest.as_slice());
        let text = string_from_chars(db.as_slice());
        let mut values: Vec<Option<Vec<u8>>> = Vec::new();
        values.push(Some(utf8_bytes(text.as_str())));
        let ghost vv = crate::tds::codec::values_view(values@);
        assert(vv =~= seq![Some(encode_utf8(trim(sql@.subrange(skip as int, sql@.len() as int))))]);
        let r = TdsResponse { tokens: vec![TdsToken::Done { row_count: 0 }, TdsToken::Row(values)] };
        assert(tokens_view(r.tokens@) =~= query_spec(sql@, state.database@));
        return r;
    }
    let r = TdsResponse { tokens: vec![TdsToken::Error(String::from_str("unsupported query"))] };
    assert(tokens_view(r.tokens@) =~= query_spec(sql@, state.database@));
    r
}

/// What the server does with a packet.
pub enum TdsAction {
    /// Send this packet and go on.
    Reply(TdsPacket),
    /// Send this packet and close the connection.
    ReplyAndClose(TdsPacket),
    /// Nothing.
    Ignore,
}

/// The version of the pre-login message that `payload` starts with.
pub open spec fn prelogin_version(payload: Seq<u8>) -> u32 {
    match prelogin_read(payload) {
        Some((v, _)) => v,
        None => 0,
    }
}

/// The response packet that carries `payload` back, with the request's packet number.
pub open spec fn reply_matches(p: TdsPacket, payload: Seq<u8>, packet_id: u8) -> bool {
    &&& p.header == outgoing_header(TdsMessageType::Response, payload.len(), packet_id)
    &&& p.payload@ == payload
}

fn reply_tokens(tokens: Vec<TdsToken>, packet_id: u8) -> (p: TdsPacket)
    ensures
        reply_matches(p, tokens_bytes(tokens_view(tokens@)), packet_id),
{
    let resp = TdsResponse { tokens };
    make_packet(TdsMessageType::Response, resp.encode(), packet_id)
}

impl TdsState {
    /// A session that has not logged in, in the configured default database.
    pub fn new(config: &TdsServerConfig) -> (s: TdsState)
        ensures
            !s.authenticated,
            s.database@ == config.default_database@,
    {
        TdsState { authenticated: false, database: config.default_database.clone() }
    }

    /// Serves one packet: a pre-login is echoed with encryption off; a login is checked
    /// against the configured users when there are any, a refusal closing the session; a
    /// query is answered once logged in; anything else is ignored. A message that does not
    /// decode is an error and changes nothing.
    pub fn handle_packet(&mut self, config: &TdsServerConfig, packet: &TdsPacket) -> (r: ProtoResult<TdsAction>)
        ensures
            ({
                let pid = packet.header.packet_id;
                let payload = packet.payload@;
                match packet.header.msg_type {
                    TdsMessageType::Prelogin => {
                        &&& *final(self) == *old(self)
                        &&& (r is Ok <==> prelogin_read(payload) is Some)
                        &&& (r matches Ok(a) ==> (a matches TdsAction::Reply(p) && reply_matches(
                            p,
                            be32(prelogin_version(payload)).push(0),
                            pid,
                        )))
                    },
                    TdsMessageType::Login7 => {
                        &&& (r is Ok <==> login_read(payload) is Some)
                        &&& (r is Err ==> *final(self) == *old(self))
                        &&& (r is Ok ==> {
                            let (u, w, db) = login_read(payload)->0;
                            if config.users.entries().len() > 0 && user_password(config.users.entries(), u) != Some(w) {
                                &&& *final(self) == *old(self)
                                &&& r matches Ok(TdsAction::ReplyAndClose(p))
                                &&& reply_matches(
                                    p,
                                    tokens_bytes(seq![TokenModel::Error("login failed"@)]),
                                    pid,
                                )
                            } else {
                                &&& final(self).authenticated
                                &&& final(self).database@ == db
                                &&& r matches Ok(TdsAction::Reply(p))
                                &&& reply_matches(p, tokens_bytes(seq![TokenModel::Done(0)]), pid)
                            }
                        })
                    },
                    TdsMessageType::SqlBatch => {
                        &&& *final(self) == *old(self)
                        &&& r matches Ok(TdsAction::Reply(p))
                        &&& reply_matches(
                            p,
                            tokens_bytes(
                                if old(self).authenticated {
                                    query_spec(trim(lossy_text(payload)), old(self).database@)
                                } else {
                                    seq![TokenModel::Error("not authenticated"@)]
                                },
                            ),
                            pid,
                        )
                    },
                    TdsMessageType::Response => {
                        &&& *final(self) == *old(self)
                        &&& r matches Ok(TdsAction::Ignore)
                    },
                }
            }),
    {
        let pid = packet.header.packet_id;
        match packet.header.msg_type {
            TdsMessageType::Prelogin => {
                let prelogin = PreloginInfo::decode(packet.payload.as_slice())?;
                let resp = PreloginInfo { version: prelogin.version, encryption: 0 };
                Ok(TdsAction::Reply(make_packet(TdsMessageType::Response, resp.encode(), pid)))
            },
            TdsMessageType::Login7 => {
                let login = Login7::decode(packet.payload.as_slice())?;
                if config.users.len() > 0 {
                    if !config.users.check(login.username.as_str(), login.password.as_str()) {
                        let tokens = vec![TdsToken::Error(String::from_str("login failed"))];
                        assert(tokens_view(tokens@) =~= seq![TokenModel::Error("login failed"@)]);
                        return Ok(TdsAction::ReplyAndClose(reply_tokens(tokens, pid)));
                    }
                }
                self.authenticated = true;
                self.database = login.database;
                let tokens = vec![TdsToken::Done { row_count: 0 }];
                assert(tokens_view(tokens@) =~= seq![TokenModel::Done(0)]);
                Ok(TdsAction::Reply(reply_tokens(tokens, pid)))
            },
            TdsMessageType::SqlBatch => {
                if !self.authenticated {
                    let tokens = vec![TdsToken::Error(String::from_str("not authenticated"))];
                    assert(tokens_view(tokens@) =~= seq![TokenModel::Error("not authenticated"@)]);
                    return Ok(TdsAction::Reply(reply_tokens(tokens, pid)));
                }
                let text = string_from_utf8_lossy(packet.payload.as_slice());
                let cs = chars_of(text.as_str());
                let trimmed = trim_chars(cs.as_slice());
                let sql = string_from_chars(trimmed.as_slice());
                let resp = execute_query(sql.as_str(), self);
                Ok(TdsAction::Reply(reply_tokens(resp.tokens, pid)))
            },
            TdsMessageType::Response => Ok(TdsAction::Ignore),
        }
    }
}

} // verus!
