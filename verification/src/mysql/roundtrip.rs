//! Reading back what the MySQL codecs write.
use vstd::prelude::*;
use vstd::utf8::encode_utf8;
use crate::mysql::handshake::{CLIENT_CONNECT_WITH_DB, CLIENT_PLUGIN_AUTH, CLIENT_PLUGIN_AUTH_LENENC_CLIENT_DATA, HandshakeModel, PROTOCOL_VERSION, ResponseModel, auth_read, handshake_bytes, handshake_read, has_cap, native_plugin_name, response_bytes, response_read, zeros};
use crate::mysql::wire::{MysqlOkPacket, find_nul, lenenc_bytes, lenenc_read, nt_read, ok_bytes, ok_read};
use crate::text::lemma_lossy_of_utf8;
use crate::wire::{at, get_le16, get_le32, get_le64, le16, le32, le64, lemma_at_split, lemma_read_at};

verus! {

/// A string whose UTF-8 image holds no NUL byte, so that it can be NUL-terminated.
pub open spec fn nul_free(s: Seq<char>) -> bool {
    forall|k: int| 0 <= k < encode_utf8(s).len() ==> #[trigger] encode_utf8(s)[k] != 0
}

proof fn lemma_at_byte(d: Seq<u8>, i: int, b: u8)
    requires
        at(d, i, seq![b]),
    ensures
        0 <= i < d.len(),
        d[i] == b,
{
    assert(d.subrange(i, i + 1)[0] == d[i]);
}

proof fn lemma_find_nul_at(d: Seq<u8>, i: int, e: Seq<u8>)
    requires
        at(d, i, e.push(0)),
        forall|k: int| 0 <= k < e.len() ==> #[trigger] e[k] != 0,
    ensures
        find_nul(d, i) == Some(i + e.len()),
    decreases e.len(),
{
    assert(d[i + e.len()] == 0) by {
        assert(d.subrange(i, i + e.len() + 1)[e.len() as int] == e.push(0)[e.len() as int]);
    }
    if e.len() > 0 {
        assert(d[i] == e[0]) by {
            assert(d.subrange(i, i + e.len() + 1)[0] == e.push(0)[0]);
        }
        let t = e.drop_first();
        assert(at(d, i + 1, t.push(0))) by {
            assert forall|k: int| 0 <= k < t.len() + 1 implies d.subrange(i + 1, i + 1 + t.len() + 1)[k] == t.push(0)[k] by {
                assert(d.subrange(i, i + e.len() + 1)[k + 1] == e.push(0)[k + 1]);
            }
            assert(d.subrange(i + 1, i + 1 + t.len() + 1) =~= t.push(0));
        }
        lemma_find_nul_at(d, i + 1, t);
    }
}

/// Reading a NUL-terminated string where one was written gives it back.
pub proof fn lemma_nt_at(d: Seq<u8>, i: int, s: Seq<char>)
    requires
        at(d, i, encode_utf8(s).push(0)),
        nul_free(s),
    ensures
        nt_read(d, i) == Some((s, i + encode_utf8(s).len() + 1)),
{
    let e = encode_utf8(s);
    lemma_find_nul_at(d, i, e);
    assert(d.subrange(i, i + e.len()) =~= e) by {
        assert forall|k: int| 0 <= k < e.len() implies d.subrange(i, i + e.len())[k] == e[k] by {
            assert(d.subrange(i, i + e.len() + 1)[k] == e.push(0)[k]);
        }
    }
    lemma_lossy_of_utf8(s);
}

/// Reading a length-encoded integer where one was written gives it back.
pub proof fn lemma_lenenc_at(d: Seq<u8>, i: int, v: u64)
    requires
        at(d, i, lenenc_bytes(v)),
    ensures
        lenenc_read(d, i) == Some((v, i + lenenc_bytes(v).len())),
{
    let b = lenenc_bytes(v);
    assert(d[i] == b[0]) by {
        assert(d.subrange(i, i + b.len())[0] == b[0]);
    }
    if v < 0xfb {
    } else if v <= 0xffff {
        lemma_at_split(d, i, seq![0xfcu8], le16(v as u16));
        lemma_read_at(d, i + 1);
    } else if v <= 0xffffff {
        assert(d[i + 1] == b[1] && d[i + 2] == b[2] && d[i + 3] == b[3]) by {
            assert(d.subrange(i, i + b.len())[1] == b[1]);
            assert(d.subrange(i, i + b.len())[2] == b[2]);
            assert(d.subrange(i, i + b.len())[3] == b[3]);
        }
        assert((v % 256) + 256 * ((v / 256) % 256) + 65536 * ((v / 65536) % 256) == v) by (nonlinear_arith)
            requires
                v <= 0xffffff,
        ;
    } else {
        lemma_at_split(d, i, seq![0xfeu8], le64(v));
        lemma_read_at(d, i + 1);
    }
}

/// Reading the bytes of a length-encoded integer gives it back.
pub proof fn lemma_lenenc_roundtrip(v: u64)
    ensures
        lenenc_read(lenenc_bytes(v), 0) == Some((v, lenenc_bytes(v).len() as int)),
{
    let b = lenenc_bytes(v);
    assert(b.subrange(0, b.len() as int) =~= b);
    lemma_lenenc_at(b, 0, v);
}

/// Reading the bytes of an OK packet gives its fields back.
pub proof fn lemma_ok_roundtrip(affected_rows: u64, last_insert_id: u64, status_flags: u16, warnings: u16)
    ensures
        ok_read(ok_bytes(affected_rows, last_insert_id, status_flags, warnings)) == Some(
            MysqlOkPacket { affected_rows, last_insert_id, status_flags, warnings },
        ),
{
    let a = lenenc_bytes(affected_rows);
    let b = lenenc_bytes(last_insert_id);
    let p = ok_bytes(affected_rows, last_insert_id, status_flags, warnings);
    assert(p.subrange(0, p.len() as int) =~= p);
    assert(at(p, 0, p));
    lemma_at_split(p, 0, seq![0u8] + a + b + le16(status_flags), le16(warnings));
    lemma_at_split(p, 0, seq![0u8] + a + b, le16(status_flags));
    lemma_at_split(p, 0, seq![0u8] + a, b);
    lemma_at_split(p, 0, seq![0u8], a);
    lemma_lenenc_at(p, 1, affected_rows);
    lemma_lenenc_at(p, 1 + a.len() as int, last_insert_id);
    let j: int = 1 + a.len() as int + b.len() as int;
    lemma_read_at(p, j);
    lemma_read_at(p, j + 2);
}

/// The greetings that read back as written: a 20-byte scramble and NUL-free texts.
pub open spec fn handshake_wf(h: HandshakeModel) -> bool {
    &&& h.auth_plugin_data.len() == 20
    &&& nul_free(h.server_version)
    &&& nul_free(h.auth_plugin_name)
}

/// Where each part of a greeting stands in its bytes.
proof fn lemma_handshake_layout(h: HandshakeModel)
    requires
        handshake_wf(h),
    ensures
        ({
            let p = handshake_bytes(h);
            let ev = encode_utf8(h.server_version);
            let en = encode_utf8(h.auth_plugin_name);
            let apd = h.auth_plugin_data;
            let i = 2 + ev.len() as int;
            &&& p.len() == i + 45 + en.len()
            &&& at(p, 0, seq![PROTOCOL_VERSION])
            &&& at(p, 1, ev.push(0))
            &&& at(p, i, le32(h.connection_id))
            &&& at(p, i + 4, apd.subrange(0, 8))
            &&& at(p, i + 13, le16((h.capability_flags % 65536) as u16))
            &&& at(p, i + 15, seq![h.character_set])
            &&& at(p, i + 16, le16(h.status_flags))
            &&& at(p, i + 18, le16((h.capability_flags / 65536) as u16))
            &&& at(p, i + 20, seq![21u8])
            &&& at(p, i + 31, apd.subrange(8, 20))
            &&& at(p, i + 44, en.push(0))
        }),
{
    let ev = encode_utf8(h.server_version);
    let en = encode_utf8(h.auth_plugin_name);
    let apd = h.auth_plugin_data;
    let cl = (h.capability_flags % 65536) as u16;
    let ch = (h.capability_flags / 65536) as u16;
    let p = handshake_bytes(h);
    assert(p.subrange(0, p.len() as int) =~= p);
    let q2 = seq![PROTOCOL_VERSION] + ev.push(0);
    let q3 = q2 + le32(h.connection_id);
    let q4 = q3 + apd.subrange(0, 8);
    let q5 = q4 + seq![0u8];
    let q6 = q5 + le16(cl);
    let q7 = q6 + seq![h.character_set];
    let q8 = q7 + le16(h.status_flags);
    let q9 = q8 + le16(ch);
    let q10 = q9 + seq![21u8];
    let q11 = q10 + zeros(10);
    let q12 = q11 + apd.subrange(8, 20);
    let q13 = q12 + seq![0u8];
    assert(p == q13 + en.push(0));
    lemma_at_split(p, 0, q13, en.push(0));
    lemma_at_split(p, 0, q12, seq![0u8]);
    lemma_at_split(p, 0, q11, apd.subrange(8, 20));
    lemma_at_split(p, 0, q10, zeros(10));
    lemma_at_split(p, 0, q9, seq![21u8]);
    lemma_at_split(p, 0, q8, le16(ch));
    lemma_at_split(p, 0, q7, le16(h.status_flags));
    lemma_at_split(p, 0, q6, seq![h.character_set]);
    lemma_at_split(p, 0, q5, le16(cl));
    lemma_at_split(p, 0, q4, seq![0u8]);
    lemma_at_split(p, 0, q3, apd.subrange(0, 8));
    lemma_at_split(p, 0, q2, le32(h.connection_id));
    lemma_at_split(p, 0, seq![PROTOCOL_VERSION], ev.push(0));
}

#[verifier::rlimit(30)]
proof fn lemma_handshake_fields(p: Seq<u8>, h: HandshakeModel)
    requires
        handshake_wf(h),
        ({
            let ev = encode_utf8(h.server_version);
            let en = encode_utf8(h.auth_plugin_name);
            let apd = h.auth_plugin_data;
            let i = 2 + ev.len() as int;
            &&& p.len() == i + 45 + en.len()
            &&& at(p, 0, seq![PROTOCOL_VERSION])
            &&& at(p, 1, ev.push(0))
            &&& at(p, i, le32(h.connection_id))
            &&& at(p, i + 4, apd.subrange(0, 8))
            &&& at(p, i + 13, le16((h.capability_flags % 65536) as u16))
            &&& at(p, i + 15, seq![h.character_set])
            &&& at(p, i + 16, le16(h.status_flags))
            &&& at(p, i + 18, le16((h.capability_flags / 65536) as u16))
            &&& at(p, i + 20, seq![21u8])
            &&& at(p, i + 31, apd.subrange(8, 20))
            &&& at(p, i + 44, en.push(0))
        }),
    ensures
        handshake_read(p) == Some(h),
{
    let ev = encode_utf8(h.server_version);
    let en = encode_utf8(h.auth_plugin_name);
    let apd = h.auth_plugin_data;
    let i: int = 2 + ev.len() as int;
    lemma_at_byte(p, 0, PROTOCOL_VERSION);
    lemma_nt_at(p, 1, h.server_version);
    lemma_read_at(p, i);
    lemma_read_at(p, i + 13);
    lemma_read_at(p, i + 16);
    lemma_read_at(p, i + 18);
    lemma_at_byte(p, i + 15, h.character_set);
    lemma_at_byte(p, i + 20, 21u8);
    let i7 = i + 31;
    lemma_nt_at(p, i7 + 13, h.auth_plugin_name);
    assert(apd.subrange(0, 8) + apd.subrange(8, 20) + zeros(0) =~= apd);
    let cl = (h.capability_flags % 65536) as u16;
    let ch = (h.capability_flags / 65536) as u16;
    assert(cl + 65536 * ch == h.capability_flags);
}

/// Reading the bytes of a well-formed greeting gives it back.
pub proof fn lemma_handshake_roundtrip(h: HandshakeModel)
    requires
        handshake_wf(h),
    ensures
        handshake_read(handshake_bytes(h)) == Some(h),
{
    lemma_handshake_layout(h);
    lemma_handshake_fields(handshake_bytes(h), h);
}

/// The database part of a reply.
pub open spec fn db_part(db: Option<Seq<char>>) -> Seq<u8> {
    match db {
        Some(d) => encode_utf8(d).push(0),
        None => Seq::empty(),
    }
}

/// The replies that read back as written: NUL-free texts, an authentication response of at
/// most 255 bytes after a one-byte length, CONNECT_WITH_DB exactly when a database is named,
/// the plugin capability, and at least 36 bytes in all.
pub open spec fn response_wf(
    caps: u32,
    character_set: u8,
    username: Seq<char>,
    auth: Seq<u8>,
    database: Option<Seq<char>>,
    plugin: Seq<char>,
) -> bool {
    &&& nul_free(username)
    &&& nul_free(plugin)
    &&& (database matches Some(d) ==> nul_free(d))
    &&& auth.len() <= 255
    &&& !has_cap(caps, CLIENT_PLUGIN_AUTH_LENENC_CLIENT_DATA)
    &&& (has_cap(caps, CLIENT_CONNECT_WITH_DB) <==> database is Some)
    &&& has_cap(caps, CLIENT_PLUGIN_AUTH)
    &&& response_bytes(caps, character_set, username, auth, database, plugin).len() >= 36
}

proof fn lemma_response_layout(
    caps: u32,
    cs: u8,
    username: Seq<char>,
    auth: Seq<u8>,
    database: Option<Seq<char>>,
    plugin: Seq<char>,
)
    ensures
        ({
            let p = response_bytes(caps, cs, username, auth, database, plugin);
            let eu = encode_utf8(username);
            let i1 = 33 + eu.len() as int;
            let i2 = i1 + 1 + auth.len() as int;
            let i3 = i2 + db_part(database).len() as int;
            &&& p.len() == i3 + encode_utf8(plugin).len() + 1
            &&& at(p, 0, le32(caps))
            &&& at(p, 4, le32(0x0100_0000))
            &&& at(p, 8, seq![cs])
            &&& at(p, 32, eu.push(0))
            &&& at(p, i1, seq![(auth.len() % 256) as u8])
            &&& at(p, i1 + 1, auth)
            &&& at(p, i2, db_part(database))
            &&& at(p, i3, encode_utf8(plugin).push(0))
        }),
{
    let p = response_bytes(caps, cs, username, auth, database, plugin);
    let eu = encode_utf8(username);
    assert(p.subrange(0, p.len() as int) =~= p);
    let r2 = le32(caps) + le32(0x0100_0000);
    let r3 = r2 + seq![cs];
    let r4 = r3 + zeros(23);
    let r5 = r4 + eu.push(0);
    let r6 = r5 + seq![(auth.len() % 256) as u8];
    let r7 = r6 + auth;
    let r8 = r7 + db_part(database);
    assert(p == r8 + encode_utf8(plugin).push(0));
    lemma_at_split(p, 0, r8, encode_utf8(plugin).push(0));
    lemma_at_split(p, 0, r7, db_part(database));
    lemma_at_split(p, 0, r6, auth);
    lemma_at_split(p, 0, r5, seq![(auth.len() % 256) as u8]);
    lemma_at_split(p, 0, r4, eu.push(0));
    lemma_at_split(p, 0, r3, zeros(23));
    lemma_at_split(p, 0, r2, seq![cs]);
    lemma_at_split(p, 0, le32(caps), le32(0x0100_0000));
}

#[verifier::rlimit(40)]
proof fn lemma_response_fields(
    p: Seq<u8>,
    caps: u32,
    cs: u8,
    username: Seq<char>,
    auth: Seq<u8>,
    database: Option<Seq<char>>,
    plugin: Seq<char>,
)
    requires
        nul_free(username),
        nul_free(plugin),
        database matches Some(d) ==> nul_free(d),
        auth.len() <= 255,
        !has_cap(caps, CLIENT_PLUGIN_AUTH_LENENC_CLIENT_DATA),
        has_cap(caps, CLIENT_CONNECT_WITH_DB) <==> database is Some,
        has_cap(caps, CLIENT_PLUGIN_AUTH),
        p.len() >= 36,
        ({
            let eu = encode_utf8(username);
            let i1 = 33 + eu.len() as int;
            let i2 = i1 + 1 + auth.len() as int;
            let i3 = i2 + db_part(database).len() as int;
            &&& p.len() == i3 + encode_utf8(plugin).len() + 1
            &&& at(p, 0, le32(caps))
            &&& at(p, 4, le32(0x0100_0000))
            &&& at(p, 8, seq![cs])
            &&& at(p, 32, eu.push(0))
            &&& at(p, i1, seq![(auth.len() % 256) as u8])
            &&& at(p, i1 + 1, auth)
            &&& at(p, i2, db_part(database))
            &&& at(p, i3, encode_utf8(plugin).push(0))
        }),
    ensures
        response_read(p) == Some(
            ResponseModel {
                capability_flags: caps,
                max_packet_size: 0x0100_0000,
                character_set: cs,
                username,
                auth_response: auth,
                database,
                auth_plugin_name: Some(plugin),
            },
        ),
{
    let eu = encode_utf8(username);
    let i1: int = 33 + eu.len() as int;
    let i2: int = i1 + 1 + auth.len() as int;
    let i3: int = i2 + db_part(database).len() as int;
    lemma_read_at(p, 0);
    lemma_read_at(p, 4);
    assert(get_le32(p, 0) == caps);
    assert(get_le32(p, 4) == 0x0100_0000);
    lemma_at_byte(p, 8, cs);
    lemma_nt_at(p, 32, username);
    assert(nt_read(p, 32) == Some((username, i1)));
    lemma_at_byte(p, i1, (auth.len() % 256) as u8);
    assert(p.subrange(i1 + 1, i2) == auth);
    assert(auth_read(p, i1, caps) == Some((auth, i2)));
    if let Some(d) = database {
        lemma_nt_at(p, i2, d);
        assert(nt_read(p, i2) == Some((d, i3)));
    } else {
        assert(i3 == i2);
    }
    lemma_nt_at(p, i3, plugin);
    assert(i3 < p.len());
}

/// The server reads a client's well-formed reply as the client wrote it.
pub proof fn lemma_response_roundtrip(
    caps: u32,
    cs: u8,
    username: Seq<char>,
    auth: Seq<u8>,
    database: Option<Seq<char>>,
    plugin: Seq<char>,
)
    requires
        response_wf(caps, cs, username, auth, database, plugin),
    ensures
        response_read(response_bytes(caps, cs, username, auth, database, plugin)) == Some(
            ResponseModel {
                capability_flags: caps,
                max_packet_size: 0x0100_0000,
                character_set: cs,
                username,
                auth_response: auth,
                database,
                auth_plugin_name: Some(plugin),
            },
        ),
{
    lemma_response_layout(caps, cs, username, auth, database, plugin);
    lemma_response_fields(response_bytes(caps, cs, username, auth, database, plugin), caps, cs, username, auth, database, plugin);
}

} // verus!
