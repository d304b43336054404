//! The MySQL wire format: packet framing, length-encoded integers and strings,
//! NUL-terminated strings, and the OK, ERR, EOF, column and row packets.
use vstd::prelude::*;
use vstd::utf8::encode_utf8;
use crate::error::{ProtoError, ProtoResult};
use crate::text::{lossy_text, push_decimal, decimal, string_from_utf8_lossy, utf8_bytes};
use crate::wire::{copy_range, get_le16, get_le64, le16, le32, le64, push_bytes, push_le16, push_le32, push_le64, read_le16, read_le64};

verus! {

// ---------------------------------------------------------------------------
// Framing
// ---------------------------------------------------------------------------

/// A packet on the wire: the payload length in three bytes, little-endian (cut to 24
/// bits), the sequence number, then the payload.
pub open spec fn frame_bytes(seq: u8, payload: Seq<u8>) -> Seq<u8> {
    let n = payload.len() % 16777216;
    seq![(n % 256) as u8, ((n / 256) % 256) as u8, ((n / 65536) % 256) as u8, seq] + payload
}

/// The bytes of a packet with sequence number `seq`.
pub fn frame_packet(seq: u8, payload: &[u8]) -> (r: Vec<u8>)
    ensures
        r@ == frame_bytes(seq, payload@),
{
    let n = payload.len() % 16777216;
    let mut out: Vec<u8> = vec![(n % 256) as u8, ((n / 256) % 256) as u8, ((n / 65536) % 256) as u8, seq];
    push_bytes(&mut out, payload);
    out
}

/// The payload length and sequence number of a four-byte packet header.
pub fn parse_header(h: [u8; 4]) -> (r: (usize, u8))
    ensures
        r.0 == h[0] + 256 * h[1] + 65536 * h[2],
        r.1 == h[3],
{
    (h[0] as usize + 256 * (h[1] as usize) + 65536 * (h[2] as usize), h[3])
}

// ---------------------------------------------------------------------------
// Length-encoded integers and strings
// ---------------------------------------------------------------------------

/// A length-encoded integer: one byte below 0xFB, else a marker and two, three or eight
/// bytes little-endian.
pub open spec fn lenenc_bytes(v: u64) -> Seq<u8> {
    if v < 0xfb {
        seq![v as u8]
    } else if v <= 0xffff {
        seq![0xfcu8] + le16(v as u16)
    } else if v <= 0xffffff {
        seq![0xfdu8, (v % 256) as u8, ((v / 256) % 256) as u8, ((v / 65536) % 256) as u8]
    } else {
        seq![0xfeu8] + le64(v)
    }
}

/// Reads a length-encoded integer at `i`; the NULL marker 0xFB reads as 0 and 0xFF as 255.
pub open spec fn lenenc_read(d: Seq<u8>, i: int) -> Option<(u64, int)> {
    if i < 0 || i >= d.len() {
        None
    } else {
        let f = d[i];
        let j = i + 1;
        if f == 0xfb {
            Some((0, j))
        } else if f == 0xfc {
            if j + 2 > d.len() {
                None
            } else {
                Some((get_le16(d, j) as u64, j + 2))
            }
        } else if f == 0xfd {
            if j + 3 > d.len() {
                None
            } else {
                Some(((d[j] + 256 * d[j + 1] + 65536 * d[j + 2]) as u64, j + 3))
            }
        } else if f == 0xfe {
            if j + 8 > d.len() {
                None
            } else {
                Some((get_le64(d, j), j + 8))
            }
        } else {
            Some((f as u64, j))
        }
    }
}

/// A length-encoded string: its length, then its bytes; NULL is the marker 0xFB.
pub open spec fn lenenc_str_bytes(v: Option<Seq<u8>>) -> Seq<u8> {
    match v {
        Some(b) => lenenc_bytes(b.len() as u64) + b,
        None => seq![0xfbu8],
    }
}

/// Reads a length-encoded string at `i`.
pub open spec fn lenenc_str_read(d: Seq<u8>, i: int) -> Option<(Option<Seq<u8>>, int)> {
    if i < 0 || i >= d.len() {
        None
    } else if d[i] == 0xfb {
        Some((None, i + 1))
    } else {
        match lenenc_read(d, i) {
            None => None,
            Some((n, j)) => if j + n > d.len() {
                None
            } else {
                Some((Some(d.subrange(j, j + n)), j + n))
            },
        }
    }
}

/// Appends a length-encoded integer.
pub fn encode_lenenc_int(out: &mut Vec<u8>, value: u64)
    ensures
        final(out)@ == old(out)@ + lenenc_bytes(value),
{
    if value < 0xfb {
        out.push(value as u8);
    } else if value <= 0xffff {
        out.push(0xfc);
        push_le16(out, value as u16);
    } else if value <= 0xffffff {
        out.push(0xfd);
        out.push((value % 256) as u8);
        out.push(((value / 256) % 256) as u8);
        out.push(((value / 65536) % 256) as u8);
    } else {
        out.push(0xfe);
        push_le64(out, value);
    }
}

/// Reads a length-encoded integer at `*idx` and moves past it.
pub fn decode_lenenc_int(data: &[u8], idx: &mut usize) -> (r: ProtoResult<u64>)
    ensures
        r is Ok <==> lenenc_read(data@, *old(idx) as int) is Some,
        r matches Ok(v) ==> lenenc_read(data@, *old(idx) as int) == Some((v, *final(idx) as int)),
{
    if *idx >= data.len() {
        return Err(ProtoError::Parse("mysql lenenc int eof"));
    }
    let first = data[*idx];
    let j = *idx + 1;
    if first == 0xfb {
        *idx = j;
        Ok(0)
    } else if first == 0xfc {
        if data.len() - j < 2 {
            return Err(ProtoError::Parse("mysql lenenc int"));
        }
        *idx = j + 2;
        Ok(read_le16(data, j) as u64)
    } else if first == 0xfd {
        if data.len() - j < 3 {
            return Err(ProtoError::Parse("mysql lenenc int"));
        }
        let v = data[j] as u64 + 256 * (data[j + 1] as u64) + 65536 * (data[j + 2] as u64);
        *idx = j + 3;
        Ok(v)
    } else if first == 0xfe {
        if data.len() - j < 8 {
            return Err(ProtoError::Parse("mysql lenenc int"));
        }
        *idx = j + 8;
        Ok(read_le64(data, j))
    } else {
        *idx = j;
        Ok(first as u64)
    }
}

/// Appends a length-encoded string.
pub fn encode_lenenc_string(out: &mut Vec<u8>, value: Option<&[u8]>)
    ensures
        final(out)@ == old(out)@ + lenenc_str_bytes(
            match value {
                Some(b) => Some(b@),
                None => None,
            },
        ),
{
    match value {
        Some(bytes) => {
            encode_lenenc_int(out, bytes.len() as u64);
            push_bytes(out, bytes);
        },
        None => out.push(0xfb),
    }
}

/// Reads a length-encoded string at `*idx` and moves past it.
pub fn decode_lenenc_string(data: &[u8], idx: &mut usize) -> (r: ProtoResult<Option<Vec<u8>>>)
    ensures
        r is Ok <==> lenenc_str_read(data@, *old(idx) as int) is Some,
        r matches Ok(v) ==> lenenc_str_read(data@, *old(idx) as int) == Some(
            (
                match v {
                    Some(b) => Some(b@),
                    None => None,
                },
                *final(idx) as int,
            ),
        ),
{
    if *idx >= data.len() {
        return Err(ProtoError::Parse("mysql lenenc string eof"));
    }
    if data[*idx] == 0xfb {
        *idx = *idx + 1;
        return Ok(None);
    }
    let len = decode_lenenc_int(data, idx)?;
    if (data.len() - *idx) as u64 <= len && (data.len() - *idx) as u64 != len {
        return Err(ProtoError::Parse("mysql lenenc string"));
    }
    let n = len as usize;
    let value = copy_range(data, *idx, n);
    *idx = *idx + n;
    Ok(Some(value))
}

/// The position of the first NUL byte at or after `i`.
pub open spec fn find_nul(d: Seq<u8>, i: int) -> Option<int>
    decreases d.len() - i,
{
    if i < 0 || i >= d.len() {
        None
    } else if d[i] == 0 {
        Some(i)
    } else {
        find_nul(d, i + 1)
    }
}

/// Reads a NUL-terminated string at `i`: its text and the position after the NUL.
pub open spec fn nt_read(d: Seq<u8>, i: int) -> Option<(Seq<char>, int)> {
    match find_nul(d, i) {
        Some(k) => Some((lossy_text(d.subrange(i, k)), k + 1)),
        None => None,
    }
}

/// A NUL-terminated string on the wire.
pub open spec fn nt_bytes(s: Seq<char>) -> Seq<u8> {
    encode_utf8(s).push(0)
}

proof fn lemma_find_nul(d: Seq<u8>, i: int)
    requires
        0 <= i,
    ensures
        find_nul(d, i) matches Some(k) ==> i <= k < d.len() && d[k] == 0,
    decreases d.len() - i,
{
    if i < d.len() && d[i] != 0 {
        lemma_find_nul(d, i + 1);
    }
}

/// Reads a NUL-terminated string at `*idx` and moves past its NUL.
pub fn read_null_terminated(data: &[u8], idx: &mut usize) -> (r: ProtoResult<String>)
    ensures
        r is Ok <==> nt_read(data@, *old(idx) as int) is Some,
        r matches Ok(s) ==> nt_read(data@, *old(idx) as int) == Some((s@, *final(idx) as int)),
{
    let start = *idx;
    let mut k = start;
    while k < data.len()
        invariant
            start <= k,
            start == *old(idx),
            find_nul(data@, start as int) == find_nul(data@, k as int),
        decreases data.len() - k,
    {
        if data[k] == 0 {
            let raw = copy_range(data, start, k - start);
            let value = string_from_utf8_lossy(raw.as_slice());
            *idx = k + 1;
            return Ok(value);
        }
        k = k + 1;
    }
    Err(ProtoError::Parse("mysql null terminated"))
}

// ---------------------------------------------------------------------------
// OK, ERR and EOF packets
// ---------------------------------------------------------------------------

/// The fields of an OK packet.
#[derive(Debug, Clone, Copy, PartialEq, Eq)]
pub struct MysqlOkPacket {
    pub affected_rows: u64,
    pub last_insert_id: u64,
    pub status_flags: u16,
    pub warnings: u16,
}

/// The bytes of an OK packet.
pub open spec fn ok_bytes(affected_rows: u64, last_insert_id: u64, status_flags: u16, warnings: u16) -> Seq<u8> {
    seq![0u8] + lenenc_bytes(affected_rows) + lenenc_bytes(last_insert_id) + le16(status_flags) + le16(warnings)
}

/// The OK packet that `p` holds.
pub open spec fn ok_read(p: Seq<u8>) -> Option<MysqlOkPacket> {
    if p.len() == 0 || p[0] != 0 {
        None
    } else {
        match lenenc_read(p, 1) {
            None => None,
            Some((a, i)) => match lenenc_read(p, i) {
                None => None,
                Some((b, j)) => if j + 4 > p.len() {
                    None
                } else {
                    Some(
                        MysqlOkPacket {
                            affected_rows: a,
                            last_insert_id: b,
                            status_flags: get_le16(p, j),
                            warnings: get_le16(p, j + 2),
                        },
                    )
                },
            },
        }
    }
}

/// The payload of an OK packet.
pub fn build_ok_packet(affected_rows: u64, last_insert_id: u64, status_flags: u16, warnings: u16) -> (r: Vec<u8>)
    ensures
        r@ == ok_bytes(affected_rows, last_insert_id, status_flags, warnings),
{
    let mut out: Vec<u8> = vec![0u8];
    encode_lenenc_int(&mut out, affected_rows);
    encode_lenenc_int(&mut out, last_insert_id);
    push_le16(&mut out, status_flags);
    push_le16(&mut out, warnings);
    out
}

/// The OK packet that `payload` holds.
pub fn parse_ok_packet(payload: &[u8]) -> (r: ProtoResult<MysqlOkPacket>)
    ensures
        r is Ok <==> ok_read(payload@) is Some,
        r matches Ok(ok) ==> ok_read(payload@) == Some(ok),
{
    if payload.len() == 0 || payload[0] != 0 {
        return Err(ProtoError::Parse("mysql ok packet"));
    }
    let mut idx: usize = 1;
    let affected_rows = decode_lenenc_int(payload, &mut idx)?;
    let last_insert_id = decode_lenenc_int(payload, &mut idx)?;
    if payload.len() - idx < 4 {
        return Err(ProtoError::Parse("mysql ok flags"));
    }
    let status_flags = read_le16(payload, idx);
    let warnings = read_le16(payload, idx + 2);
    Ok(MysqlOkPacket { affected_rows, last_insert_id, status_flags, warnings })
}

/// The fields of an ERR packet.
pub struct MysqlErrPacket {
    pub code: u16,
    pub state: String,
    pub message: String,
}

/// The five SQL-state bytes: those of `state`, cut or padded with `0` to five.
pub open spec fn state_bytes(state: Seq<u8>) -> Seq<u8> {
    Seq::new(5, |i: int| if i < state.len() { state[i] } else { 48u8 })
}

/// The bytes of an ERR packet.
pub open spec fn err_bytes(code: u16, state: Seq<char>, message: Seq<char>) -> Seq<u8> {
    seq![0xffu8] + le16(code) + seq![35u8] + state_bytes(encode_utf8(state)) + encode_utf8(message)
}

/// The ERR packet that `p` holds: code, SQL state (`HY000` when absent) and message.
pub open spec fn err_read(p: Seq<u8>) -> Option<(u16, Seq<char>, Seq<char>)> {
    if p.len() < 3 || p[0] != 0xff {
        None
    } else {
        let has_state = 3 < p.len() && p[3] == 35 && 9 <= p.len();
        let marker = 3 < p.len() && p[3] == 35;
        let idx: int = if has_state { 9 } else if marker { 4 } else { 3 };
        let state = if has_state { lossy_text(p.subrange(4, 9)) } else { "HY000"@ };
        let message = if idx < p.len() { lossy_text(p.subrange(idx, p.len() as int)) } else { Seq::empty() };
        Some((get_le16(p, 1), state, message))
    }
}

/// The payload of an ERR packet.
pub fn build_err_packet(code: u16, state: &str, message: &str) -> (r: Vec<u8>)
    ensures
        r@ == err_bytes(code, state@, message@),
{
    let mut out: Vec<u8> = vec![0xffu8];
    push_le16(&mut out, code);
    out.push(35);
    let sb = utf8_bytes(state);
    let mut padded: Vec<u8> = Vec::new();
    let mut i: usize = 0;
    while i < 5
        invariant
            i <= 5,
            padded@.len() == i,
            forall|k: int| 0 <= k < i ==> padded@[k] == (if k < sb@.len() { sb@[k] } else { 48u8 }),
        decreases 5 - i,
    {
        if i < sb.len() {
            padded.push(sb[i]);
        } else {
            padded.push(48);
        }
        i = i + 1;
    }
    assert(padded@ =~= state_bytes(encode_utf8(state@)));
    push_bytes(&mut out, padded.as_slice());
    let mb = utf8_bytes(message);
    push_bytes(&mut out, mb.as_slice());
    out
}

/// The ERR packet that `payload` holds.
pub fn parse_err_packet(payload: &[u8]) -> (r: ProtoResult<MysqlErrPacket>)
    ensures
        r is Ok <==> err_read(payload@) is Some,
        r matches Ok(e) ==> err_read(payload@) == Some((e.code, e.state@, e.message@)),
{
    if payload.len() < 3 || payload[0] != 0xff {
        return Err(ProtoError::Parse("mysql err packet"));
    }
    let code = read_le16(payload, 1);
    let mut idx: usize = 3;
    let mut state = String::from_str("HY000");
    if idx < payload.len() && payload[idx] == 35 {
        idx = idx + 1;
        if idx + 5 <= payload.len() {
            let raw = copy_range(payload, idx, 5);
            state = string_from_utf8_lossy(raw.as_slice());
            idx = idx + 5;
        }
    }
    let message = if idx < payload.len() {
        let raw = copy_range(payload, idx, payload.len() - idx);
        string_from_utf8_lossy(raw.as_slice())
    } else {
        String::new()
    };
    assert(message@ == (if idx < payload@.len() {
        lossy_text(payload@.subrange(idx as int, payload@.len() as int))
    } else {
        Seq::<char>::empty()
    }));
    Ok(MysqlErrPacket { code, state, message })
}

/// The text of an ERR packet: code, SQL state when there is one, and message.
pub open spec fn err_text(code: u16, state: Seq<char>, message: Seq<char>) -> Seq<char> {
    if state.len() == 0 {
        "mysql error "@ + decimal(code as nat) + ": "@ + message
    } else {
        "mysql error "@ + decimal(code as nat) + " ("@ + state + ") "@ + message
    }
}

fn push_str(out: &mut String, s: &str)
    ensures
        final(out)@ == old(out)@ + s@,
{
    let cs = crate::text::chars_of(s);
    let ghost start = out@;
    let mut i: usize = 0;
    while i < cs.len()
        invariant
            i <= cs.len(),
            cs@ == s@,
            out@ == start + cs@.subrange(0, i as int),
        decreases cs.len() - i,
    {
        crate::text::push_char(out, cs[i]);
        i = i + 1;
        assert(out@ =~= start + cs@.subrange(0, i as int));
    }
    assert(cs@.subrange(0, i as int) =~= cs@);
}

impl MysqlErrPacket {
    /// The text of the error.
    pub fn format(&self) -> (s: String)
        ensures
            s@ == err_text(self.code, self.state@, self.message@),
    {
        let mut out = String::from_str("mysql error ");
        push_decimal(&mut out, self.code as u64);
        if self.state.as_str().is_empty() {
            push_str(&mut out, ": ");
        } else {
            push_str(&mut out, " (");
            push_str(&mut out, self.state.as_str());
            push_str(&mut out, ") ");
        }
        push_str(&mut out, self.message.as_str());
        assert(out@ =~= err_text(self.code, self.state@, self.message@));
        out
    }
}

/// The payload of an EOF packet: no warnings, autocommit status.
pub open spec fn eof_bytes() -> Seq<u8> {
    seq![0xfeu8, 0, 0, 2, 0]
}

/// The payload of an EOF packet.
pub fn build_eof_packet() -> (r: Vec<u8>)
    ensures
        r@ == eof_bytes(),
{
    let r: Vec<u8> = vec![0xfeu8, 0, 0, 2, 0];
    assert(r@ =~= eof_bytes());
    r
}

/// Whether a payload is an OK packet: its first byte is 0x00.
pub open spec fn is_ok_spec(p: Seq<u8>) -> bool {
    p.len() > 0 && p[0] == 0x00
}

/// Whether a payload is an ERR packet: its first byte is 0xFF.
pub open spec fn is_err_spec(p: Seq<u8>) -> bool {
    p.len() > 0 && p[0] == 0xff
}

/// Whether a payload is an EOF packet: its first byte is 0xFE and it is under 9 bytes.
pub open spec fn is_eof_spec(p: Seq<u8>) -> bool {
    p.len() > 0 && p[0] == 0xfe && p.len() < 9
}

/// Whether a payload is an OK packet.
pub fn is_ok_packet(payload: &[u8]) -> (r: bool)
    ensures
        r == is_ok_spec(payload@),
{
    payload.len() > 0 && payload[0] == 0x00
}

/// Whether a payload is an ERR packet.
pub fn is_err_packet(payload: &[u8]) -> (r: bool)
    ensures
        r == is_err_spec(payload@),
{
    payload.len() > 0 && payload[0] == 0xff
}

/// Whether a payload is an EOF packet.
pub fn is_eof_packet(payload: &[u8]) -> (r: bool)
    ensures
        r == is_eof_spec(payload@),
{
    payload.len() > 0 && payload[0] == 0xfe && payload.len() < 9
}

// ---------------------------------------------------------------------------
// Columns and rows
// ---------------------------------------------------------------------------

/// A column definition for a text column named `name`.
pub open spec fn column_def_bytes(name: Seq<char>, schema: Seq<char>, table: Seq<char>, org_table: Seq<char>) -> Seq<u8> {
    lenenc_str_bytes(Some(seq![100u8, 101, 102])) + lenenc_str_bytes(Some(encode_utf8(schema))) + lenenc_str_bytes(
        Some(encode_utf8(table)),
    ) + lenenc_str_bytes(Some(encode_utf8(org_table))) + lenenc_str_bytes(Some(encode_utf8(name)))
        + lenenc_str_bytes(Some(encode_utf8(name))) + seq![0x0cu8] + le16(0x21) + le32(1024) + seq![0xfdu8] + le16(
        0,
    ) + seq![0u8, 0, 0]
}

/// The payload of a column definition.
pub fn build_column_definition(name: &str, schema: &str, table: &str, org_table: &str) -> (r: Vec<u8>)
    ensures
        r@ == column_def_bytes(name@, schema@, table@, org_table@),
{
    let mut out: Vec<u8> = Vec::new();
    let def: Vec<u8> = vec![100u8, 101, 102];
    assert(def@ =~= seq![100u8, 101, 102]);
    encode_lenenc_string(&mut out, Some(def.as_slice()));
    let b = utf8_bytes(schema);
    encode_lenenc_string(&mut out, Some(b.as_slice()));
    let b = utf8_bytes(table);
    encode_lenenc_string(&mut out, Some(b.as_slice()));
    let b = utf8_bytes(org_table);
    encode_lenenc_string(&mut out, Some(b.as_slice()));
    let b = utf8_bytes(name);
    encode_lenenc_string(&mut out, Some(b.as_slice()));
    encode_lenenc_string(&mut out, Some(b.as_slice()));
    out.push(0x0c);
    push_le16(&mut out, 0x21);
    push_le32(&mut out, 1024);
    out.push(0xfd);
    push_le16(&mut out, 0);
    out.push(0);
    out.push(0);
    out.push(0);
    assert(out@ =~= column_def_bytes(name@, schema@, table@, org_table@));
    out
}

/// Reads `n` length-encoded strings from `i` on.
pub open spec fn lenenc_strs_read(d: Seq<u8>, i: int, n: nat) -> Option<(Seq<Option<Seq<u8>>>, int)>
    decreases n,
{
    if n == 0 {
        Some((Seq::empty(), i))
    } else {
        match lenenc_str_read(d, i) {
            None => None,
            Some((v, j)) => match lenenc_strs_read(d, j, (n - 1) as nat) {
                None => None,
                Some((rest, k)) => Some((seq![v] + rest, k)),
            },
        }
    }
}

/// The column name of a column definition: the fifth of its six strings, empty when NULL.
pub open spec fn column_name_read(p: Seq<u8>) -> Option<Seq<char>> {
    match lenenc_strs_read(p, 0, 6) {
        None => None,
        Some((vs, _)) => Some(
            lossy_text(
                match vs[4] {
                    Some(b) => b,
                    None => Seq::empty(),
                },
            ),
        ),
    }
}

/// The values of a list, as byte sequences.
pub open spec fn row_view(vs: Seq<Option<Vec<u8>>>) -> Seq<Option<Seq<u8>>> {
    vs.map_values(
        |v: Option<Vec<u8>>|
            match v {
                Some(b) => Some(b@),
                None => None,
            },
    )
}

/// `r` with `done` in front of its items.
pub open spec fn prepend_strs(done: Seq<Option<Seq<u8>>>, r: Option<(Seq<Option<Seq<u8>>>, int)>) -> Option<
    (Seq<Option<Seq<u8>>>, int),
> {
    match r {
        Some((rest, k)) => Some((done + rest, k)),
        None => None,
    }
}

fn read_lenenc_strings(data: &[u8], start: usize, n: usize) -> (r: ProtoResult<(Vec<Option<Vec<u8>>>, usize)>)
    ensures
        r is Ok <==> lenenc_strs_read(data@, start as int, n as nat) is Some,
        r matches Ok((vs, k)) ==> lenenc_strs_read(data@, start as int, n as nat) == Some((row_view(vs@), k as int)),
{
    let mut out: Vec<Option<Vec<u8>>> = Vec::new();
    let mut idx = start;
    let mut c: usize = 0;
    assert(row_view(out@) =~= Seq::<Option<Seq<u8>>>::empty());
    assert(forall|x: Seq<Option<Seq<u8>>>| Seq::<Option<Seq<u8>>>::empty() + x =~= x);
    while c < n
        invariant
            c <= n,
            lenenc_strs_read(data@, start as int, n as nat) == prepend_strs(
                row_view(out@),
                lenenc_strs_read(data@, idx as int, (n - c) as nat),
            ),
        decreases n - c,
    {
        let ghost at = idx;
        let v = match decode_lenenc_string(data, &mut idx) {
            Ok(v) => v,
            Err(e) => {
                return Err(e);
            },
        };
        let ghost before = row_view(out@);
        let ghost vv = match &v {
            Some(b) => Some(b@),
            None => None,
        };
        out.push(v);
        proof {
            assert(row_view(out@) =~= before.push(vv));
            match lenenc_strs_read(data@, idx as int, (n - c - 1) as nat) {
                Some((rest, k)) => {
                    assert(before + (seq![vv] + rest) =~= before.push(vv) + rest);
                },
                None => {},
            }
        }
        c = c + 1;
    }
    assert(row_view(out@) + Seq::<Option<Seq<u8>>>::empty() =~= row_view(out@));
    Ok((out, idx))
}

proof fn lemma_strs_len(d: Seq<u8>, i: int, n: nat)
    ensures
        lenenc_strs_read(d, i, n) matches Some((vs, _)) ==> vs.len() == n,
    decreases n,
{
    if n > 0 {
        if let Some((v, j)) = lenenc_str_read(d, i) {
            lemma_strs_len(d, j, (n - 1) as nat);
        }
    }
}

/// The column name of a column definition.
pub fn parse_column_definition(payload: &[u8]) -> (r: ProtoResult<String>)
    ensures
        r is Ok <==> column_name_read(payload@) is Some,
        r matches Ok(s) ==> column_name_read(payload@) == Some(s@),
{
    let (vs, _) = read_lenenc_strings(payload, 0, 6)?;
    proof {
        lemma_strs_len(payload@, 0, 6);
    }
    let ghost rv = row_view(vs@);
    assert(rv[4] == (match vs@[4] {
        Some(b) => Some(b@),
        None => None,
    }));
    match &vs[4] {
        Some(b) => Ok(string_from_utf8_lossy(b.as_slice())),
        None => {
            let e: Vec<u8> = Vec::new();
            assert(e@ =~= Seq::<u8>::empty());
            Ok(string_from_utf8_lossy(e.as_slice()))
        },
    }
}

/// The values of a row packet with `column_count` columns.
pub fn parse_row(payload: &[u8], column_count: usize) -> (r: ProtoResult<Vec<Option<Vec<u8>>>>)
    ensures
        r is Ok <==> lenenc_strs_read(payload@, 0, column_count as nat) is Some,
        r matches Ok(vs) ==> (lenenc_strs_read(payload@, 0, column_count as nat) matches Some((got, _))
            && got == row_view(vs@)),
{
    let (vs, _) = read_lenenc_strings(payload, 0, column_count)?;
    Ok(vs)
}

/// The values of a row, one after the other.
pub open spec fn row_bytes(vs: Seq<Option<Seq<u8>>>) -> Seq<u8>
    decreases vs.len(),
{
    if vs.len() == 0 {
        Seq::empty()
    } else {
        row_bytes(vs.drop_last()) + lenenc_str_bytes(vs.last())
    }
}

/// The payload of a row packet.
pub fn build_row_packet(values: &Vec<Option<Vec<u8>>>) -> (r: Vec<u8>)
    ensures
        r@ == row_bytes(row_view(values@)),
{
    let mut out: Vec<u8> = Vec::new();
    let mut i: usize = 0;
    while i < values.len()
        invariant
            i <= values.len(),
            out@ == row_bytes(row_view(values@.subrange(0, i as int))),
        decreases values.len() - i,
    {
        match &values[i] {
            Some(b) => encode_lenenc_string(&mut out, Some(b.as_slice())),
            None => encode_lenenc_string(&mut out, None),
        }
        proof {
            let v = row_view(values@.subrange(0, i + 1));
            assert(v.drop_last() =~= row_view(values@.subrange(0, i as int)));
        }
        i = i + 1;
    }
    assert(values@.subrange(0, i as int) =~= values@);
    out
}

/// The payload of a command: its code, then its argument.
pub fn build_command_packet(command: u8, payload: &[u8]) -> (r: Vec<u8>)
    ensures
        r@ == seq![command] + payload@,
{
    let mut out: Vec<u8> = vec![command];
    push_bytes(&mut out, payload);
    out
}

} // verus!
