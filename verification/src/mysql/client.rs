//! The decisions of a MySQL client: the login it sends, what it accepts in reply, and the
//! reading of a query's result packet by packet.
use vstd::prelude::*;
use vstd::utf8::encode_utf8;
use crate::error::{ProtoError, ProtoResult};
use crate::mysql::handshake::{CLIENT_CONNECT_WITH_DB, MysqlHandshake, encode_handshake_response, handshake_read, mysql_native_password_token, native_token, response_bytes};
use crate::mysql::session::{COM_PING, COM_QUERY, base_capabilities, server_capabilities};
use crate::mysql::wire::{MysqlErrPacket, MysqlOkPacket, build_command_packet, column_name_read, decode_lenenc_int, err_read, err_text, is_eof_packet, is_eof_spec, is_err_packet, is_err_spec, is_ok_packet, is_ok_spec, lenenc_read, lenenc_strs_read, ok_read, parse_column_definition, parse_err_packet, parse_ok_packet, parse_row, row_view};
use crate::text::utf8_bytes;

verus! {

/// A client's settings.
pub struct MysqlClientConfig {
    pub username: String,
    pub password: String,
    pub database: Option<String>,
    pub character_set: u8,
}

impl Default for MysqlClientConfig {
    fn default() -> (c: Self)
        ensures
            c.username@ == "root"@,
            c.password@ == "moonlight"@,
            c.database is None,
            c.character_set == 0x21,
    {
        MysqlClientConfig {
            username: String::from_str("root"),
            password: String::from_str("moonlight"),
            database: None,
            character_set: 0x21,
        }
    }
}

/// Why a client operation failed: the bytes did not follow the protocol, or the server
/// answered with an error, whose text is given.
pub enum MysqlClientError {
    Protocol(ProtoError),
    Server(String),
}

/// A logged-in client: what the handshake settled.
pub struct MysqlClient {
    pub capability_flags: u32,
    pub status_flags: u16,
    pub server_version: String,
    pub connection_id: u32,
}

/// The capabilities a client asks for: the base ones, and CONNECT_WITH_DB when it names a
/// database.
pub open spec fn client_capabilities(with_db: bool) -> u32 {
    if with_db {
        (base_capabilities() + CLIENT_CONNECT_WITH_DB) as u32
    } else {
        base_capabilities()
    }
}

/// The characters of an optional string.
pub open spec fn opt_chars(s: Option<String>) -> Option<Seq<char>> {
    match s {
        Some(t) => Some(t@),
        None => None,
    }
}

/// The login a client sends for a greeting.
pub struct MysqlLoginRequest {
    /// The greeting it answers.
    pub handshake: MysqlHandshake,
    /// The capabilities it asks for.
    pub capabilities: u32,
    /// The payload of the reply, sent as packet 1.
    pub payload: Vec<u8>,
}

impl MysqlClient {
    /// The reply to the server's greeting: the capabilities, the character set, the user, the
    /// native password token for the greeting's scramble, the database when there is one and
    /// the greeting's plugin name. A greeting that does not decode is an error.
    pub fn login_request(config: &MysqlClientConfig, greeting: &[u8]) -> (r: ProtoResult<MysqlLoginRequest>)
        ensures
            r is Ok <==> handshake_read(greeting@) is Some,
            r matches Ok(req) ==> {
                &&& handshake_read(greeting@) == Some(req.handshake@)
                &&& req.capabilities == client_capabilities(config.database is Some)
                &&& req.payload@ == response_bytes(
                    req.capabilities,
                    config.character_set,
                    config.username@,
                    native_token(config.password@, req.handshake.auth_plugin_data@),
                    opt_chars(config.database),
                    req.handshake.auth_plugin_name@,
                )
            },
    {
        let handshake = MysqlHandshake::decode(greeting)?;
        let base = server_capabilities();
        let capabilities = if config.database.is_some() {
            base + CLIENT_CONNECT_WITH_DB
        } else {
            base
        };
        let auth = mysql_native_password_token(config.password.as_str(), &handshake.auth_plugin_data);
        let payload = match &config.database {
            Some(db) => encode_handshake_response(
                capabilities,
                config.character_set,
                config.username.as_str(),
                auth.as_slice(),
                Some(db.as_str()),
                handshake.auth_plugin_name.as_str(),
            ),
            None => encode_handshake_response(
                capabilities,
                config.character_set,
                config.username.as_str(),
                auth.as_slice(),
                None,
                handshake.auth_plugin_name.as_str(),
            ),
        };
        Ok(MysqlLoginRequest { handshake, capabilities, payload })
    }

    /// The session that the server's answer to the login opens: ERR is a server error with
    /// the packet's text; otherwise the answer must be an OK packet, whose status is kept.
    pub fn from_login_reply(request: MysqlLoginRequest, reply: &[u8]) -> (r: Result<MysqlClient, MysqlClientError>)
        ensures
            is_err_spec(reply@) ==> match err_read(reply@) {
                Some((code, state, message)) => r matches Err(MysqlClientError::Server(t)) && t@ == err_text(
                    code,
                    state,
                    message,
                ),
                None => r matches Err(MysqlClientError::Protocol(_)),
            },
            !is_err_spec(reply@) ==> match ok_read(reply@) {
                Some(ok) => r matches Ok(c) && c.capability_flags == request.capabilities && c.status_flags
                    == ok.status_flags && c.server_version@ == request.handshake.server_version@ && c.connection_id
                    == request.handshake.connection_id,
                None => r matches Err(MysqlClientError::Protocol(_)),
            },
    {
        if is_err_packet(reply) {
            return match parse_err_packet(reply) {
                Ok(err) => Err(MysqlClientError::Server(err.format())),
                Err(e) => Err(MysqlClientError::Protocol(e)),
            };
        }
        match parse_ok_packet(reply) {
            Ok(ok) => Ok(
                MysqlClient {
                    capability_flags: request.capabilities,
                    status_flags: ok.status_flags,
                    server_version: request.handshake.server_version,
                    connection_id: request.handshake.connection_id,
                },
            ),
            Err(e) => Err(MysqlClientError::Protocol(e)),
        }
    }

    /// The server's version text.
    pub fn server_version(&self) -> (s: &str)
        ensures
            s@ == self.server_version@,
    {
        self.server_version.as_str()
    }

    /// The connection id the server gave.
    pub fn connection_id(&self) -> (c: u32)
        ensures
            c == self.connection_id,
    {
        self.connection_id
    }

    /// The capabilities the client asked for.
    pub fn capability_flags(&self) -> (c: u32)
        ensures
            c == self.capability_flags,
    {
        self.capability_flags
    }

    /// The server status last reported.
    pub fn status_flags(&self) -> (s: u16)
        ensures
            s == self.status_flags,
    {
        self.status_flags
    }

    /// The payload of a query command, sent as packet 0.
    pub fn query_request(sql: &str) -> (p: Vec<u8>)
        ensures
            p@ == seq![COM_QUERY] + encode_utf8(sql@),
    {
        let b = utf8_bytes(sql);
        build_command_packet(COM_QUERY, b.as_slice())
    }

    /// The payload of a ping command, sent as packet 0.
    pub fn ping_request() -> (p: Vec<u8>)
        ensures
            p@ == seq![COM_PING],
    {
        let e: Vec<u8> = Vec::new();
        let p = build_command_packet(COM_PING, e.as_slice());
        assert(p@ =~= seq![COM_PING]);
        p
    }

    /// Takes the answer to a ping: ERR is a server error with the packet's text; an OK
    /// packet updates the status.
    pub fn ping_reply(&mut self, reply: &[u8]) -> (r: Result<(), MysqlClientError>)
        ensures
            is_err_spec(reply@) ==> r is Err && final(self).status_flags == old(self).status_flags,
            !is_err_spec(reply@) ==> match ok_read(reply@) {
                Some(ok) => r is Ok && final(self).status_flags == ok.status_flags,
                None => r is Err && final(self).status_flags == old(self).status_flags,
            },
            final(self).capability_flags == old(self).capability_flags,
            final(self).connection_id == old(self).connection_id,
            final(self).server_version == old(self).server_version,
    {
        if is_err_packet(reply) {
            return match parse_err_packet(reply) {
                Ok(err) => Err(MysqlClientError::Server(err.format())),
                Err(e) => Err(MysqlClientError::Protocol(e)),
            };
        }
        match parse_ok_packet(reply) {
            Ok(ok) => {
                self.status_flags = ok.status_flags;
                Ok(())
            },
            Err(e) => Err(MysqlClientError::Protocol(e)),
        }
    }
}

// ---------------------------------------------------------------------------
// Reading a query's result
// ---------------------------------------------------------------------------

/// The result of a query: columns and rows for a result set, counts and status for OK.
pub struct MysqlQueryResult {
    pub columns: Vec<String>,
    pub rows: Vec<Vec<Option<Vec<u8>>>>,
    pub affected_rows: u64,
    pub last_insert_id: u64,
    pub status_flags: u16,
    pub warnings: u16,
}

impl Default for MysqlQueryResult {
    fn default() -> (r: Self)
        ensures
            r.columns@.len() == 0,
            r.rows@.len() == 0,
            r.affected_rows == 0,
            r.last_insert_id == 0,
            r.status_flags == 0,
            r.warnings == 0,
    {
        MysqlQueryResult {
            columns: Vec::new(),
            rows: Vec::new(),
            affected_rows: 0,
            last_insert_id: 0,
            status_flags: 0,
            warnings: 0,
        }
    }
}

/// Where the reading of a result stands.
pub enum QueryReadState {
    /// Waiting for the first packet.
    Start,
    /// Reading column definitions: `count` are expected.
    Columns { count: usize, columns: Vec<String> },
    /// Waiting for the EOF after the column definitions.
    AwaitEof { count: usize, columns: Vec<String> },
    /// Reading rows of `count` values each.
    Rows { count: usize, columns: Vec<String>, rows: Vec<Vec<Option<Vec<u8>>>> },
}

/// What one packet of a result leads to.
pub enum QueryStep {
    /// More packets are needed.
    More(QueryReadState),
    /// The result is complete.
    Done(MysqlQueryResult),
}

/// The column names of a list, as characters.
pub open spec fn names(cs: Seq<String>) -> Seq<Seq<char>> {
    cs.map_values(|c: String| c@)
}

/// The rows of a list, as values.
pub open spec fn rows_view(rs: Seq<Vec<Option<Vec<u8>>>>) -> Seq<Seq<Option<Seq<u8>>>> {
    rs.map_values(|r: Vec<Option<Vec<u8>>>| row_view(r@))
}

/// Takes one packet of a query's result. The first packet is ERR (a server error with the
/// packet's message), OK (the result is its counts and status) or the column count; then
/// come that many column definitions, an EOF (or OK), the rows, and an EOF (or OK) that ends
/// the result.
pub fn query_read_step(state: QueryReadState, payload: &[u8]) -> (r: Result<QueryStep, MysqlClientError>)
    ensures
        match state {
            QueryReadState::Start => if is_err_spec(payload@) {
                match err_read(payload@) {
                    Some((_, _, message)) => r matches Err(MysqlClientError::Server(t)) && t@ == message,
                    None => r matches Err(MysqlClientError::Protocol(_)),
                }
            } else if is_ok_spec(payload@) {
                match ok_read(payload@) {
                    Some(ok) => r matches Ok(QueryStep::Done(res)) && res.columns@.len() == 0 && res.rows@.len() == 0
                        && res.affected_rows == ok.affected_rows && res.last_insert_id == ok.last_insert_id
                        && res.status_flags == ok.status_flags && res.warnings == ok.warnings,
                    None => r matches Err(MysqlClientError::Protocol(_)),
                }
            } else {
                match lenenc_read(payload@, 0) {
                    Some((n, _)) => if n as usize == 0 {
                        r matches Ok(QueryStep::More(QueryReadState::AwaitEof { count, columns })) && count == 0
                            && columns@.len() == 0
                    } else {
                        r matches Ok(QueryStep::More(QueryReadState::Columns { count, columns })) && count == n as usize
                            && columns@.len() == 0
                    },
                    None => r matches Err(MysqlClientError::Protocol(_)),
                }
            },
            QueryReadState::Columns { count, columns } => match column_name_read(payload@) {
                Some(name) => if columns@.len() + 1 >= count {
                    r matches Ok(QueryStep::More(QueryReadState::AwaitEof { count: c2, columns: cs2 })) && c2 == count
                        && names(cs2@) == names(columns@).push(name)
                } else {
                    r matches Ok(QueryStep::More(QueryReadState::Columns { count: c2, columns: cs2 })) && c2 == count
                        && names(cs2@) == names(columns@).push(name)
                },
                None => r matches Err(MysqlClientError::Protocol(_)),
            },
            QueryReadState::AwaitEof { count, columns } => if is_eof_spec(payload@) || is_ok_spec(payload@) {
                r matches Ok(QueryStep::More(QueryReadState::Rows { count: c2, columns: cs2, rows })) && c2 == count
                    && names(cs2@) == names(columns@) && rows@.len() == 0
            } else {
                r matches Err(MysqlClientError::Protocol(ProtoError::Parse(_)))
            },
            QueryReadState::Rows { count, columns, rows } => if is_eof_spec(payload@) || is_ok_spec(payload@) {
                r matches Ok(QueryStep::Done(res)) && names(res.columns@) == names(columns@) && rows_view(res.rows@)
                    == rows_view(rows@) && res.affected_rows == 0 && res.last_insert_id == 0 && res.status_flags == 0
                    && res.warnings == 0
            } else {
                match lenenc_strs_read(payload@, 0, count as nat) {
                    Some((vals, _)) => r matches Ok(QueryStep::More(QueryReadState::Rows { count: c2, columns: cs2, rows: rs2 }))
                        && c2 == count && names(cs2@) == names(columns@) && rows_view(rs2@) == rows_view(rows@).push(vals),
                    None => r matches Err(MysqlClientError::Protocol(_)),
                }
            },
        },
{
    match state {
        QueryReadState::Start => {
            if is_err_packet(payload) {
                return match parse_err_packet(payload) {
                    Ok(err) => Err(MysqlClientError::Server(err.message)),
                    Err(e) => Err(MysqlClientError::Protocol(e)),
                };
            }
            if is_ok_packet(payload) {
                return match parse_ok_packet(payload) {
                    Ok(ok) => Ok(
                        QueryStep::Done(
                            MysqlQueryResult {
                                columns: Vec::new(),
                                rows: Vec::new(),
                                affected_rows: ok.affected_rows,
                                last_insert_id: ok.last_insert_id,
                                status_flags: ok.status_flags,
                                warnings: ok.warnings,
                            },
                        ),
                    ),
                    Err(e) => Err(MysqlClientError::Protocol(e)),
                };
            }
            let mut idx: usize = 0;
            match decode_lenenc_int(payload, &mut idx) {
                Ok(n) => {
                    let count = n as usize;
                    if count == 0 {
                        Ok(QueryStep::More(QueryReadState::AwaitEof { count, columns: Vec::new() }))
                    } else {
                        Ok(QueryStep::More(QueryReadState::Columns { count, columns: Vec::new() }))
                    }
                },
                Err(e) => Err(MysqlClientError::Protocol(e)),
            }
        },
        QueryReadState::Columns { count, columns } => {
            let mut columns = columns;
            match parse_column_definition(payload) {
                Ok(name) => {
                    let ghost before = names(columns@);
                    let ghost nv = name@;
                    columns.push(name);
                    assert(names(columns@) =~= before.push(nv));
                    if columns.len() >= count {
                        Ok(QueryStep::More(QueryReadState::AwaitEof { count, columns }))
                    } else {
                        Ok(QueryStep::More(QueryReadState::Columns { count, columns }))
                    }
                },
                Err(e) => Err(MysqlClientError::Protocol(e)),
            }
        },
        QueryReadState::AwaitEof { count, columns } => {
            if !is_eof_packet(payload) && !is_ok_packet(payload) {
                return Err(MysqlClientError::Protocol(ProtoError::Parse("mysql expected eof")));
            }
            Ok(QueryStep::More(QueryReadState::Rows { count, columns, rows: Vec::new() }))
        },
        QueryReadState::Rows { count, columns, rows } => {
            if is_eof_packet(payload) || is_ok_packet(payload) {
                return Ok(
                    QueryStep::Done(
                        MysqlQueryResult {
                            columns,
                            rows,
                            affected_rows: 0,
                            last_insert_id: 0,
                            status_flags: 0,
                            warnings: 0,
                        },
                    ),
                );
            }
            match parse_row(payload, count) {
                Ok(vals) => {
                    let mut rows = rows;
                    let ghost before = rows_view(rows@);
                    let ghost vv = row_view(vals@);
                    rows.push(vals);
                    assert(rows_view(rows@) =~= before.push(vv));
                    Ok(QueryStep::More(QueryReadState::Rows { count, columns, rows }))
                },
                Err(e) => Err(MysqlClientError::Protocol(e)),
            }
        },
    }
}

} // verus!
