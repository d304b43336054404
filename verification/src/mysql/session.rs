//! The decisions of a MySQL server session and of a client.
use vstd::prelude::*;
use vstd::utf8::encode_utf8;
use crate::credentials::{user_password, UserTable};
use crate::error::{ProtoError, ProtoResult};
use crate::mysql::handshake::{CLIENT_CONNECT_WITH_DB, CLIENT_LONG_FLAG, CLIENT_LONG_PASSWORD, CLIENT_PLUGIN_AUTH, CLIENT_PROTOCOL_41, CLIENT_SECURE_CONNECTION, MysqlHandshake, MysqlHandshakeResponse, SERVER_STATUS_AUTOCOMMIT, encode_handshake_response, has_cap, mysql_native_password_token, native_plugin_name, native_token, opt_text, response_bytes};
use crate::mysql::wire::{MysqlErrPacket, build_column_definition, build_command_packet, build_eof_packet, build_err_packet, build_ok_packet, build_row_packet, column_def_bytes, column_name_read, decode_lenenc_int, encode_lenenc_int, eof_bytes, err_bytes, err_read, err_text, is_eof_spec, is_err_spec, is_ok_spec, is_eof_packet, is_err_packet, is_ok_packet, lenenc_bytes, lenenc_read, lenenc_strs_read, ok_bytes, ok_read, parse_column_definition, parse_err_packet, parse_ok_packet, parse_row, row_bytes, row_view};
use crate::text::{chars_of, lossy_text, seq_contains, seq_starts_with, slice_chars, starts_with_chars, contains_chars, str_eq, string_from_chars, string_from_utf8_lossy, to_lowercase, trim, trim_chars, unicode_lowercase, utf8_bytes};

verus! {

/// Command code: close the session.
pub const COM_QUIT: u8 = 0x01;
/// Command code: change the database.
pub const COM_INIT_DB: u8 = 0x02;
/// Command code: run a query.
pub const COM_QUERY: u8 = 0x03;
/// Command code: ping.
pub const COM_PING: u8 = 0x0e;

/// The capabilities the server announces and a client asks for.
pub open spec fn base_capabilities() -> u32 {
    (CLIENT_LONG_PASSWORD + CLIENT_LONG_FLAG + CLIENT_PROTOCOL_41 + CLIENT_SECURE_CONNECTION + CLIENT_PLUGIN_AUTH) as u32
}

/// The capabilities the server announces.
pub fn server_capabilities() -> (c: u32)
    ensures
        c == base_capabilities(),
{
    CLIENT_LONG_PASSWORD + CLIENT_LONG_FLAG + CLIENT_PROTOCOL_41 + CLIENT_SECURE_CONNECTION + CLIENT_PLUGIN_AUTH
}

/// The server's settings.
pub struct MysqlServerConfig {
    pub users: UserTable,
    pub default_database: String,
    pub server_version: String,
    pub character_set: u8,
    pub status_flags: u16,
}

impl Default for MysqlServerConfig {
    fn default() -> (c: Self)
        ensures
            c.users.entries().len() == 0,
            c.default_database@ == "mysql"@,
            c.server_version@ == "5.7.0-moonlight"@,
            c.character_set == 0x21,
            c.status_flags == SERVER_STATUS_AUTOCOMMIT,
    {
        MysqlServerConfig {
            users: UserTable::new(),
            default_database: String::from_str("mysql"),
            server_version: String::from_str("5.7.0-moonlight"),
            character_set: 0x21,
            status_flags: SERVER_STATUS_AUTOCOMMIT,
        }
    }
}

/// The greeting a server sends on connection `connection_id` with scramble `scramble`.
pub fn server_greeting(config: &MysqlServerConfig, connection_id: u32, scramble: [u8; 20]) -> (h: MysqlHandshake)
    ensures
        h.server_version@ == config.server_version@,
        h.connection_id == connection_id,
        h.auth_plugin_data == scramble,
        h.capability_flags == base_capabilities(),
        h.character_set == config.character_set,
        h.status_flags == config.status_flags,
        h.auth_plugin_name@ == native_plugin_name(),
{
    MysqlHandshake {
        server_version: config.server_version.clone(),
        connection_id,
        auth_plugin_data: scramble,
        capability_flags: server_capabilities(),
        character_set: config.character_set,
        status_flags: config.status_flags,
        auth_plugin_name: String::from_str("mysql_native_password"),
    }
}

/// Whether a client's reply logs it in: it must speak the 4.1 protocol and, if it names a
/// plugin, the native one; with no users configured anyone may log in, else the token must
/// be that of the user's recorded password.
pub open spec fn authenticate_spec(
    users: Seq<(String, String)>,
    r: crate::mysql::handshake::ResponseModel,
    scramble: Seq<u8>,
) -> bool {
    &&& has_cap(r.capability_flags, CLIENT_PROTOCOL_41)
    &&& (r.auth_plugin_name matches Some(n) ==> n == native_plugin_name())
    &&& (users.len() == 0 || match user_password(users, r.username) {
        Some(p) => native_token(p, scramble) == r.auth_response,
        None => false,
    })
}

fn bytes_equal(a: &Vec<u8>, b: &Vec<u8>) -> (r: bool)
    ensures
        r == (a@ == b@),
{
    crate::wire::bytes_eq(a.as_slice(), b.as_slice())
}

/// Whether a client's reply logs it in.
pub fn authenticate_user(config: &MysqlServerConfig, response: &MysqlHandshakeResponse, scramble: &[u8; 20]) -> (r: bool)
    ensures
        r == authenticate_spec(config.users.entries(), response@, scramble@),
{
    if (response.capability_flags / CLIENT_PROTOCOL_41) % 2 != 1 {
        return false;
    }
    if let Some(name) = &response.auth_plugin_name {
        let native = String::from_str("mysql_native_password");
        if !str_eq(name.as_str(), native.as_str()) {
            return false;
        }
    }
    if config.users.len() == 0 {
        return true;
    }
    match config.users.password_of(response.username.as_str()) {
        None => false,
        Some(password) => {
            let token = mysql_native_password_token(password.as_str(), scramble);
            bytes_equal(&token, &response.auth_response)
        },
    }
}

/// The state of a server session: whether the client is logged in, and its database.
pub struct MysqlState {
    pub authenticated: bool,
    pub database: String,
}

/// A packet to send: its sequence number and payload.
pub type MysqlOut = (u8, Vec<u8>);

/// The packets as values.
pub open spec fn outs_view(v: Seq<MysqlOut>) -> Seq<(u8, Seq<u8>)> {
    v.map_values(|o: MysqlOut| (o.0, o.1@))
}

/// What the server does after the client's reply to the greeting.
pub enum MysqlLogin {
    /// Logged in: send the packets and serve the session.
    Accepted(MysqlState, Vec<MysqlOut>),
    /// Refused: send the packets and close.
    Refused(Vec<MysqlOut>),
}

/// The database a logged-in session starts in: the one the client named, else the default.
pub open spec fn start_database(r: crate::mysql::handshake::ResponseModel, default: Seq<char>) -> Seq<char> {
    match r.database {
        Some(d) => d,
        None => default,
    }
}

/// Decides on the client's reply to the greeting: a reply that does not decode is an
/// error; a refused login gets ERR 1045 `28000` as packet 2; an accepted one gets OK as
/// packet 2 and starts in the database it named, else the default one.
pub fn accept_login(config: &MysqlServerConfig, payload: &[u8], scramble: &[u8; 20]) -> (r: ProtoResult<MysqlLogin>)
    ensures
        r is Ok <==> crate::mysql::handshake::response_read(payload@) is Some,
        r matches Ok(l) ==> {
            let resp = crate::mysql::handshake::response_read(payload@)->0;
            if authenticate_spec(config.users.entries(), resp, scramble@) {
                l matches MysqlLogin::Accepted(st, outs) && st.authenticated && st.database@ == start_database(
                    resp,
                    config.default_database@,
                ) && outs_view(outs@) == seq![(2u8, ok_bytes(0, 0, config.status_flags, 0))]
            } else {
                l matches MysqlLogin::Refused(outs) && outs_view(outs@) == seq![
                    (2u8, err_bytes(1045, "28000"@, "access denied"@)),
                ]
            }
        },
{
    let response = MysqlHandshakeResponse::decode(payload)?;
    if !authenticate_user(config, &response, scramble) {
        let err = build_err_packet(1045, "28000", "access denied");
        let outs: Vec<MysqlOut> = vec![(2u8, err)];
        assert(outs_view(outs@) =~= seq![(2u8, err_bytes(1045, "28000"@, "access denied"@))]);
        return Ok(MysqlLogin::Refused(outs));
    }
    let ok = build_ok_packet(0, 0, config.status_flags, 0);
    let outs: Vec<MysqlOut> = vec![(2u8, ok)];
    assert(outs_view(outs@) =~= seq![(2u8, ok_bytes(0, 0, config.status_flags, 0))]);
    let database = match response.database {
        Some(d) => d,
        None => config.default_database.clone(),
    };
    Ok(MysqlLogin::Accepted(MysqlState { authenticated: true, database }, outs))
}

// ---------------------------------------------------------------------------
// Result sets
// ---------------------------------------------------------------------------

/// The packets of a result set, numbered from 1: the column count, one definition per
/// column, EOF, one packet per row, EOF.
pub open spec fn result_set_spec(columns: Seq<Seq<char>>, rows: Seq<Seq<Option<Seq<u8>>>>) -> Seq<(u8, Seq<u8>)> {
    let nc = columns.len();
    let nr = rows.len();
    Seq::new(
        nc + nr + 3,
        |k: int|
            (
                ((k + 1) % 256) as u8,
                if k == 0 {
                    lenenc_bytes(nc as u64)
                } else if k <= nc {
                    column_def_bytes(columns[k - 1], "def"@, "table"@, "table"@)
                } else if k == nc + 1 {
                    eof_bytes()
                } else if k <= nc + 1 + nr {
                    row_bytes(rows[k - nc - 2])
                } else {
                    eof_bytes()
                },
            ),
    )
}

/// The packets of a result set with the given column names and rows.
#[verifier::spinoff_prover]
#[verifier::rlimit(40)]
pub fn result_set(columns: &Vec<String>, rows: &Vec<Vec<Option<Vec<u8>>>>) -> (out: Vec<MysqlOut>)
    requires
        columns@.len() + rows@.len() + 3 <= usize::MAX,
    ensures
        outs_view(out@) == result_set_spec(
            columns@.map_values(|c: String| c@),
            rows@.map_values(|r: Vec<Option<Vec<u8>>>| row_view(r@)),
        ),
{
    let ghost cs = columns@.map_values(|c: String| c@);
    let ghost rs = rows@.map_values(|r: Vec<Option<Vec<u8>>>| row_view(r@));
    let ghost target = result_set_spec(cs, rs);
    let mut out: Vec<MysqlOut> = Vec::new();
    let mut seq: u8 = 1;
    let mut count: Vec<u8> = Vec::new();
    encode_lenenc_int(&mut count, columns.len() as u64);
    assert(count@ =~= lenenc_bytes(columns.len() as u64));
    let ghost c0 = count@;
    out.push((seq, count));
    assert(outs_view(out@) =~= seq![(1u8, c0)]);
    assert(target[0] == (1u8, lenenc_bytes(cs.len() as u64)));
    seq = if seq == 255 { 0 } else { seq + 1 };
    assert(outs_view(out@) =~= target.subrange(0, 1));
    let mut i: usize = 0;
    while i < columns.len()
        invariant
            i <= columns.len(),
            cs == columns@.map_values(|c: String| c@),
            rs == rows@.map_values(|r: Vec<Option<Vec<u8>>>| row_view(r@)),
            target == result_set_spec(cs, rs),
            columns@.len() + rows@.len() + 3 <= usize::MAX,
            seq == ((i + 2) % 256) as u8,
            outs_view(out@) == target.subrange(0, i + 1),
        decreases columns.len() - i,
    {
        let payload = build_column_definition(columns[i].as_str(), "def", "table", "table");
        let ghost before = outs_view(out@);
        let ghost pv = payload@;
        out.push((seq, payload));
        proof {
            assert(outs_view(out@) =~= before.push((seq, pv)));
            assert(cs[i as int] == columns@[i as int]@);
            assert(target[i + 1] == (seq, pv));
            assert(target.subrange(0, i + 2) =~= target.subrange(0, i + 1).push(target[i + 1]));
        }
        seq = if seq == 255 { 0 } else { seq + 1 };
        i = i + 1;
    }
    let eof = build_eof_packet();
    let ghost before = outs_view(out@);
    out.push((seq, eof));
    proof {
        assert(outs_view(out@) =~= before.push((seq, eof_bytes())));
        assert(target[columns.len() + 1] == (seq, eof_bytes()));
        assert(target.subrange(0, columns.len() + 2) =~= target.subrange(0, columns.len() + 1).push(
            target[columns.len() + 1],
        ));
    }
    seq = if seq == 255 { 0 } else { seq + 1 };
    let mut j: usize = 0;
    while j < rows.len()
        invariant
            j <= rows.len(),
            cs == columns@.map_values(|c: String| c@),
            rs == rows@.map_values(|r: Vec<Option<Vec<u8>>>| row_view(r@)),
            target == result_set_spec(cs, rs),
            columns@.len() + rows@.len() + 3 <= usize::MAX,
            seq == ((columns.len() + j + 3) % 256) as u8,
            outs_view(out@) == target.subrange(0, columns.len() + j + 2),
        decreases rows.len() - j,
    {
        let payload = build_row_packet(&rows[j]);
        let ghost before = outs_view(out@);
        let ghost pv = payload@;
        out.push((seq, payload));
        proof {
            assert(outs_view(out@) =~= before.push((seq, pv)));
            assert(rs[j as int] == row_view(rows@[j as int]@));
            assert(target[columns.len() + j + 2] == (seq, pv));
            assert(target.subrange(0, columns.len() + j + 3) =~= target.subrange(0, columns.len() + j + 2).push(
                target[columns.len() + j + 2],
            ));
        }
        seq = if seq == 255 { 0 } else { seq + 1 };
        j = j + 1;
    }
    let eof2 = build_eof_packet();
    let ghost before = outs_view(out@);
    out.push((seq, eof2));
    proof {
        assert(outs_view(out@) =~= before.push((seq, eof_bytes())));
        assert(target[columns.len() + rows.len() + 2] == (seq, eof_bytes()));
        assert(target.subrange(0, columns.len() + rows.len() + 2) =~= before);
        assert(target =~= before.push(target[columns.len() + rows.len() + 2]));
    }
    out
}

// ---------------------------------------------------------------------------
// Serving commands
// ---------------------------------------------------------------------------

/// The version text that `SELECT @@VERSION` answers.
pub open spec fn mysql_version_text() -> Seq<u8> {
    seq![77u8, 111, 111, 110, 108, 105, 103, 104, 116, 32, 77, 121, 83, 81, 76, 32, 48, 46, 49]
}

/// The text `information_schema`.
pub open spec fn information_schema() -> Seq<u8> {
    seq![105u8, 110, 102, 111, 114, 109, 97, 116, 105, 111, 110, 95, 115, 99, 104, 101, 109, 97]
}

/// A single-column result set.
pub open spec fn one_column(name: Seq<char>, values: Seq<Seq<u8>>) -> Seq<(u8, Seq<u8>)> {
    result_set_spec(seq![name], values.map_values(|v: Seq<u8>| seq![Some(v)]))
}

/// What a query gets and what the database becomes, judged on the lower case of the
/// trimmed query: `use` changes the database; a `select` of `@@version`, of anything with a
/// `1`, or else of the current database answers one row; `show databases` lists the current
/// database and `information_schema`; anything else gets OK.
pub open spec fn query_reply(sql: Seq<char>, database: Seq<char>, status: u16) -> (Seq<(u8, Seq<u8>)>, Seq<char>) {
    let t = trim(sql);
    let lower = unicode_lowercase(t);
    let ok = seq![(1u8, ok_bytes(0, 0, status, 0))];
    if seq_starts_with(lower, "use "@) {
        let skip = if t.len() < 4 { t.len() as int } else { 4 };
        (ok, trim(t.subrange(skip, t.len() as int)))
    } else if seq_starts_with(lower, "select"@) {
        if seq_contains(lower, "@@version"@) {
            (one_column("@@version"@, seq![mysql_version_text()]), database)
        } else if seq_contains(lower, "1"@) {
            (one_column("1"@, seq![seq![49u8]]), database)
        } else {
            (one_column("database"@, seq![encode_utf8(database)]), database)
        }
    } else if seq_starts_with(lower, "show databases"@) {
        (one_column("Database"@, seq![encode_utf8(database), information_schema()]), database)
    } else {
        (ok, database)
    }
}

fn one_column_set(name: &str, values: Vec<Vec<u8>>) -> (out: Vec<MysqlOut>)
    requires
        values@.len() <= 2,
    ensures
        outs_view(out@) == one_column(name@, values@.map_values(|v: Vec<u8>| v@)),
{
    let mut columns: Vec<String> = Vec::new();
    columns.push(String::from_str(name));
    let mut rows: Vec<Vec<Option<Vec<u8>>>> = Vec::new();
    let ghost vs = values@.map_values(|v: Vec<u8>| v@);
    let mut i: usize = 0;
    let mut values = values;
    let ghost orig = values@;
    while values.len() > 0
        invariant
            vs == orig.map_values(|v: Vec<u8>| v@),
            orig.len() <= 2,
            i + values@.len() == orig.len(),
            values@ == orig.subrange(i as int, orig.len() as int),
            rows@.map_values(|r: Vec<Option<Vec<u8>>>| row_view(r@)) == vs.subrange(0, i as int).map_values(
                |v: Seq<u8>| seq![Some(v)],
            ),
        decreases values.len(),
    {
        assert(values@[0] == orig[i as int]);
        let v = values.remove(0);
        let ghost vv = v@;
        let mut row: Vec<Option<Vec<u8>>> = Vec::new();
        row.push(Some(v));
        assert(row_view(row@) =~= seq![Some(vv)]);
        let ghost before = rows@.map_values(|r: Vec<Option<Vec<u8>>>| row_view(r@));
        let ghost rv = row_view(row@);
        rows.push(row);
        assert(rows@.map_values(|r: Vec<Option<Vec<u8>>>| row_view(r@)) =~= before.push(rv));
        assert(vv == vs[i as int]);
        assert(vs.subrange(0, i + 1).map_values(|v: Seq<u8>| seq![Some(v)]) =~= vs.subrange(0, i as int).map_values(
            |v: Seq<u8>| seq![Some(v)],
        ).push(seq![Some(vv)]));
        assert(rows@.map_values(|r: Vec<Option<Vec<u8>>>| row_view(r@)) =~= vs.subrange(0, i + 1).map_values(
            |v: Seq<u8>| seq![Some(v)],
        ));
        i = i + 1;
        assert(values@ =~= orig.subrange(i as int, orig.len() as int));
    }
    assert(vs.subrange(0, i as int) =~= vs);
    assert(columns@.map_values(|c: String| c@) =~= seq![name@]);
    result_set(&columns, &rows)
}

/// The answer to a query, and the database after it.
pub fn respond_to_query(config: &MysqlServerConfig, state: &mut MysqlState, sql: &str) -> (out: Vec<MysqlOut>)
    ensures
        final(state).authenticated == old(state).authenticated,
        !old(state).authenticated ==> outs_view(out@) == seq![
            (1u8, err_bytes(1045, "28000"@, "not authenticated"@)),
        ] && final(state).database == old(state).database,
        old(state).authenticated ==> (outs_view(out@), final(state).database@) == query_reply(
            sql@,
            old(state).database@,
            config.status_flags,
        ),
{
    if !state.authenticated {
        let err = build_err_packet(1045, "28000", "not authenticated");
        let out: Vec<MysqlOut> = vec![(1u8, err)];
        assert(outs_view(out@) =~= seq![(1u8, err_bytes(1045, "28000"@, "not authenticated"@))]);
        return out;
    }
    let cs = chars_of(sql);
    let t = trim_chars(cs.as_slice());
    let ts = string_from_chars(t.as_slice());
    let lower_s = to_lowercase(ts.as_str());
    let lower = chars_of(lower_s.as_str());
    if starts_with_chars(lower.as_slice(), chars_of("use ").as_slice()) {
        let skip = if t.len() < 4 { t.len() } else { 4 };
        let rest = slice_chars(t.as_slice(), skip, t.len());
        let db = trim_chars(rest.as_slice());
        state.database = string_from_chars(db.as_slice());
        let ok = build_ok_packet(0, 0, config.status_flags, 0);
        let out: Vec<MysqlOut> = vec![(1u8, ok)];
        assert(outs_view(out@) =~= seq![(1u8, ok_bytes(0, 0, config.status_flags, 0))]);
        return out;
    }
    if starts_with_chars(lower.as_slice(), chars_of("select").as_slice()) {
        if contains_chars(lower.as_slice(), chars_of("@@version").as_slice()) {
            let v: Vec<u8> = vec![77u8, 111, 111, 110, 108, 105, 103, 104, 116, 32, 77, 121, 83, 81, 76, 32, 48, 46, 49];
            assert(v@ =~= mysql_version_text());
            let values: Vec<Vec<u8>> = vec![v];
            assert(values@.map_values(|v: Vec<u8>| v@) =~= seq![mysql_version_text()]);
            return one_column_set("@@version", values);
        }
        if contains_chars(lower.as_slice(), chars_of("1").as_slice()) {
            let v: Vec<u8> = vec![49u8];
            assert(v@ =~= seq![49u8]);
            let values: Vec<Vec<u8>> = vec![v];
            assert(values@.map_values(|v: Vec<u8>| v@) =~= seq![seq![49u8]]);
            return one_column_set("1", values);
        }
        let d = utf8_bytes(state.database.as_str());
        let ghost dv = d@;
        let values: Vec<Vec<u8>> = vec![d];
        assert(values@.map_values(|v: Vec<u8>| v@) =~= seq![dv]);
        return one_column_set("database", values);
    }
    if starts_with_chars(lower.as_slice(), chars_of("show databases").as_slice()) {
        let is: Vec<u8> = vec![105u8, 110, 102, 111, 114, 109, 97, 116, 105, 111, 110, 95, 115, 99, 104, 101, 109, 97];
        let d = utf8_bytes(state.database.as_str());
        let ghost dv = d@;
        assert(is@ =~= information_schema());
        let values: Vec<Vec<u8>> = vec![d, is];
        assert(values@.map_values(|v: Vec<u8>| v@) =~= seq![dv, information_schema()]);
        return one_column_set("Database", values);
    }
    let ok = build_ok_packet(0, 0, config.status_flags, 0);
    let out: Vec<MysqlOut> = vec![(1u8, ok)];
    assert(outs_view(out@) =~= seq![(1u8, ok_bytes(0, 0, config.status_flags, 0))]);
    out
}

/// What the server does with one command of a logged-in session.
pub struct MysqlCommandOutcome {
    /// Packets to send, in order.
    pub packets: Vec<MysqlOut>,
    /// Whether the client asked to quit.
    pub quit: bool,
}

impl MysqlState {
    /// Serves one command: an empty payload is skipped; QUIT ends the session; PING gets OK;
    /// INIT_DB changes the database and gets OK; QUERY is answered as `respond_to_query`
    /// says; any other command gets ERR 1064 `42000`.
    pub fn handle_command(&mut self, config: &MysqlServerConfig, payload: &[u8]) -> (r: MysqlCommandOutcome)
        ensures
            r.quit == (payload@.len() > 0 && payload@[0] == COM_QUIT),
            payload@.len() == 0 || payload@[0] == COM_QUIT ==> r.packets@.len() == 0 && final(self).database
                == old(self).database && final(self).authenticated == old(self).authenticated,
            payload@.len() > 0 && payload@[0] == COM_PING ==> outs_view(r.packets@) == seq![
                (1u8, ok_bytes(0, 0, config.status_flags, 0)),
            ] && final(self).database == old(self).database && final(self).authenticated == old(
                self,
            ).authenticated,
            payload@.len() > 0 && payload@[0] == COM_INIT_DB ==> outs_view(r.packets@) == seq![
                (1u8, ok_bytes(0, 0, config.status_flags, 0)),
            ] && final(self).database@ == lossy_text(payload@.subrange(1, payload@.len() as int))
                && final(self).authenticated == old(self).authenticated,
            payload@.len() > 0 && payload@[0] == COM_QUERY ==> {
                let sql = lossy_text(payload@.subrange(1, payload@.len() as int));
                &&& final(self).authenticated == old(self).authenticated
                &&& (!old(self).authenticated ==> outs_view(r.packets@) == seq![
                    (1u8, err_bytes(1045, "28000"@, "not authenticated"@)),
                ] && final(self).database == old(self).database)
                &&& (old(self).authenticated ==> (outs_view(r.packets@), final(self).database@) == query_reply(
                    sql,
                    old(self).database@,
                    config.status_flags,
                ))
            },
            payload@.len() > 0 && payload@[0] != COM_QUIT && payload@[0] != COM_PING && payload@[0] != COM_INIT_DB
                && payload@[0] != COM_QUERY ==> outs_view(r.packets@) == seq![
                (1u8, err_bytes(1064, "42000"@, "unsupported command"@)),
            ] && final(self).database == old(self).database && final(self).authenticated == old(
                self,
            ).authenticated,
    {
        if payload.len() == 0 {
            return MysqlCommandOutcome { packets: Vec::new(), quit: false };
        }
        let command = payload[0];
        if command == COM_QUIT {
            return MysqlCommandOutcome { packets: Vec::new(), quit: true };
        }
        if command == COM_PING {
            let ok = build_ok_packet(0, 0, config.status_flags, 0);
            let packets: Vec<MysqlOut> = vec![(1u8, ok)];
            assert(outs_view(packets@) =~= seq![(1u8, ok_bytes(0, 0, config.status_flags, 0))]);
            return MysqlCommandOutcome { packets, quit: false };
        }
        if command == COM_INIT_DB {
            let raw = crate::wire::copy_range(payload, 1, payload.len() - 1);
            self.database = string_from_utf8_lossy(raw.as_slice());
            let ok = build_ok_packet(0, 0, config.status_flags, 0);
            let packets: Vec<MysqlOut> = vec![(1u8, ok)];
            assert(outs_view(packets@) =~= seq![(1u8, ok_bytes(0, 0, config.status_flags, 0))]);
            return MysqlCommandOutcome { packets, quit: false };
        }
        if command == COM_QUERY {
            let raw = crate::wire::copy_range(payload, 1, payload.len() - 1);
            let sql = string_from_utf8_lossy(raw.as_slice());
            let packets = respond_to_query(config, self, sql.as_str());
            return MysqlCommandOutcome { packets, quit: false };
        }
        let err = build_err_packet(1064, "42000", "unsupported command");
        let packets: Vec<MysqlOut> = vec![(1u8, err)];
        assert(outs_view(packets@) =~= seq![(1u8, err_bytes(1064, "42000"@, "unsupported command"@))]);
        MysqlCommandOutcome { packets, quit: false }
    }
}

} // verus!
