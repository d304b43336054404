//! Quake 3 server queries: the out-of-band prefix, then `getinfo` or `getstatus`.
use vstd::prelude::*;
use vstd::utf8::encode_utf8;
use crate::error::{ProtoError, ProtoResult};
use crate::text::{
    chars_of, decimal, find_char, find_from, lemma_find_from, lemma_lossy_of_utf8, lines, lines_of, lossy_text,
    pair_lookup, pair_upsert, parse_usize, parse_usize_spec, push_char, push_decimal, push_text, seq_starts_with,
    slice_chars, split_chars, split_on, starts_with_chars, string_from_chars, string_from_utf8_lossy, trim,
    trim_chars, utf8_bytes, all_digits, digits_value,
};
use crate::wire::{copy_range, push_bytes};

verus! {

pub const QUAKE_DEFAULT_PORT: u16 = 27960;

/// What a client asks a server.
#[derive(Debug, Clone, Copy, PartialEq, Eq, Structural)]
pub enum QuakeQuery {
    GetInfo,
    GetStatus,
}

/// The out-of-band prefix: four 0xff bytes.
pub open spec fn quake_prefix() -> Seq<u8> {
    seq![0xffu8, 0xff, 0xff, 0xff]
}

/// The word of a query.
pub open spec fn query_word(q: QuakeQuery) -> Seq<char> {
    match q {
        QuakeQuery::GetInfo => "getinfo"@,
        QuakeQuery::GetStatus => "getstatus"@,
    }
}

/// The image of a query: the prefix and the word.
pub open spec fn query_bytes(q: QuakeQuery) -> Seq<u8> {
    quake_prefix() + encode_utf8(query_word(q))
}

/// The query a datagram holds: at least eight bytes, the prefix, then text that starts
/// with `getinfo` or `getstatus`.
pub open spec fn query_parse(d: Seq<u8>) -> Option<QuakeQuery> {
    if d.len() < 8 || d.subrange(0, 4) != quake_prefix() {
        None
    } else {
        let text = lossy_text(d.subrange(4, d.len() as int));
        if seq_starts_with(text, "getinfo"@) {
            Some(QuakeQuery::GetInfo)
        } else if seq_starts_with(text, "getstatus"@) {
            Some(QuakeQuery::GetStatus)
        } else {
            None
        }
    }
}

/// Builds a query.
pub fn build_query(query: QuakeQuery) -> (out: Vec<u8>)
    ensures
        out@ == query_bytes(query),
{
    let mut out: Vec<u8> = Vec::new();
    out.push(0xff);
    out.push(0xff);
    out.push(0xff);
    out.push(0xff);
    let w = match query {
        QuakeQuery::GetInfo => utf8_bytes("getinfo"),
        QuakeQuery::GetStatus => utf8_bytes("getstatus"),
    };
    push_bytes(&mut out, w.as_slice());
    assert(out@ =~= query_bytes(query));
    out
}

/// Reads the query a datagram holds.
pub fn parse_query(data: &[u8]) -> (r: Option<QuakeQuery>)
    ensures
        r == query_parse(data@),
{
    if data.len() < 8 {
        return None;
    }
    if !(data[0] == 0xff && data[1] == 0xff && data[2] == 0xff && data[3] == 0xff) {
        proof {
            if data@.subrange(0, 4) == quake_prefix() {
                assert(data@[0] == data@.subrange(0, 4)[0]);
                assert(data@[1] == data@.subrange(0, 4)[1]);
                assert(data@[2] == data@.subrange(0, 4)[2]);
                assert(data@[3] == data@.subrange(0, 4)[3]);
            }
        }
        return None;
    }
    assert(data@.subrange(0, 4) =~= quake_prefix());
    let rest = copy_range(data, 4, data.len() - 4);
    let text = string_from_utf8_lossy(rest.as_slice());
    let cs = chars_of(text.as_str());
    let info = chars_of("getinfo");
    let status = chars_of("getstatus");
    if starts_with_chars(cs.as_slice(), info.as_slice()) {
        Some(QuakeQuery::GetInfo)
    } else if starts_with_chars(cs.as_slice(), status.as_slice()) {
        Some(QuakeQuery::GetStatus)
    } else {
        None
    }
}

/// Reading a built query gives the query back.
pub proof fn lemma_query_roundtrip(q: QuakeQuery)
    ensures
        query_parse(query_bytes(q)) == Some(q),
{
    reveal_strlit("getinfo");
    reveal_strlit("getstatus");
    let w = query_word(q);
    let d = query_bytes(q);
    lemma_lossy_of_utf8(w);
    broadcast use vstd::utf8::encode_utf8_decode_utf8, vstd::utf8::encode_utf8_valid_utf8;
    assert(vstd::utf8::is_ascii_chars(w));
    vstd::utf8::is_ascii_chars_encode_utf8(w);
    assert(d.subrange(0, 4) =~= quake_prefix());
    assert(d.subrange(4, d.len() as int) =~= encode_utf8(w));
    assert(w.subrange(0, w.len() as int) =~= w);
    if q is GetStatus {
        assert(w[3] != "getinfo"@[3]);
    }
}

/// A player as a status response lists it.
#[derive(Debug, Clone)]
pub struct QuakePlayer {
    pub score: i32,
    pub ping: i32,
    pub name: String,
}

/// Abstract value of a player.
pub struct PlayerModel {
    pub score: i32,
    pub ping: i32,
    pub name: Seq<char>,
}

impl View for QuakePlayer {
    type V = PlayerModel;

    open spec fn view(&self) -> PlayerModel {
        PlayerModel { score: self.score, ping: self.ping, name: self.name@ }
    }
}

/// The players of a list, as values.
pub open spec fn players_view(ps: Seq<QuakePlayer>) -> Seq<PlayerModel> {
    ps.map_values(|p: QuakePlayer| p@)
}

/// What a server answers with: its key-value information and its players.
pub struct QuakeServerConfig {
    pub info: Vec<(String, String)>,
    pub players: Vec<QuakePlayer>,
}

/// The key-value text of pairs: each key and value after a backslash.
pub open spec fn kv_text(pairs: Seq<(String, String)>) -> Seq<char>
    decreases pairs.len(),
{
    if pairs.len() == 0 {
        Seq::empty()
    } else {
        kv_text(pairs.drop_last()) + seq!['\\'] + pairs.last().0@ + seq!['\\'] + pairs.last().1@
    }
}

/// The decimal text of a signed value.
pub open spec fn int_chars(v: int) -> Seq<char> {
    if v < 0 { seq!['-'] + decimal((-v) as nat) } else { decimal(v as nat) }
}

/// The line of a player: score, ping and quoted name.
pub open spec fn player_line(p: PlayerModel) -> Seq<char> {
    int_chars(p.score as int) + seq![' '] + int_chars(p.ping as int) + seq![' ', '"'] + p.name + seq!['"', '\n']
}

/// The lines of the players.
pub open spec fn player_lines(ps: Seq<PlayerModel>) -> Seq<char>
    decreases ps.len(),
{
    if ps.len() == 0 {
        Seq::empty()
    } else {
        player_lines(ps.drop_last()) + player_line(ps.last())
    }
}

/// The answer to `getinfo`: the prefix, then `infoResponse`, a line feed and the pairs.
pub open spec fn info_response_bytes(info: Seq<(String, String)>) -> Seq<u8> {
    quake_prefix() + encode_utf8("infoResponse\n"@ + kv_text(info))
}

/// The answer to `getstatus`: the prefix, then `statusResponse`, a line feed, the pairs, a
/// line feed and one line per player.
pub open spec fn status_response_bytes(info: Seq<(String, String)>, players: Seq<PlayerModel>) -> Seq<u8> {
    quake_prefix() + encode_utf8("statusResponse\n"@ + kv_text(info) + seq!['\n'] + player_lines(players))
}

fn push_kv_text(out: &mut String, pairs: &Vec<(String, String)>)
    ensures
        final(out)@ == old(out)@ + kv_text(pairs@),
{
    let ghost start = out@;
    let mut i: usize = 0;
    assert(pairs@.subrange(0, 0) =~= Seq::<(String, String)>::empty());
    while i < pairs.len()
        invariant
            i <= pairs.len(),
            out@ == start + kv_text(pairs@.subrange(0, i as int)),
        decreases pairs.len() - i,
    {
        let ghost before = out@;
        push_char(out, '\\');
        push_text(out, pairs[i].0.as_str());
        push_char(out, '\\');
        push_text(out, pairs[i].1.as_str());
        proof {
            let sub = pairs@.subrange(0, i + 1);
            assert(sub.drop_last() =~= pairs@.subrange(0, i as int));
            assert(sub.last() == pairs@[i as int]);
        }
        assert(out@ =~= start + kv_text(pairs@.subrange(0, i + 1)));
        i = i + 1;
    }
    assert(pairs@.subrange(0, i as int) =~= pairs@);
}

fn push_int_chars(out: &mut String, v: i32)
    ensures
        final(out)@ == old(out)@ + int_chars(v as int),
{
    let ghost start = out@;
    if v < 0 {
        push_char(out, '-');
        let m: u64 = (0 - (v as i64)) as u64;
        push_decimal(out, m);
    } else {
        push_decimal(out, v as u64);
    }
    assert(out@ =~= start + int_chars(v as int));
}

/// The answer to `getinfo`.
pub fn build_info_response(config: &QuakeServerConfig) -> (out: Vec<u8>)
    ensures
        out@ == info_response_bytes(config.info@),
{
    let mut text = String::new();
    push_text(&mut text, "infoResponse\n");
    push_kv_text(&mut text, &config.info);
    let mut out: Vec<u8> = Vec::new();
    out.push(0xff);
    out.push(0xff);
    out.push(0xff);
    out.push(0xff);
    let b = utf8_bytes(text.as_str());
    push_bytes(&mut out, b.as_slice());
    assert(out@ =~= info_response_bytes(config.info@));
    out
}

/// The answer to `getstatus`.
pub fn build_status_response(config: &QuakeServerConfig) -> (out: Vec<u8>)
    ensures
        out@ == status_response_bytes(config.info@, players_view(config.players@)),
{
    let ghost ps = players_view(config.players@);
    let mut text = String::new();
    push_text(&mut text, "statusResponse\n");
    push_kv_text(&mut text, &config.info);
    push_char(&mut text, '\n');
    let ghost head = text@;
    let mut i: usize = 0;
    assert(ps.subrange(0, 0) =~= Seq::<PlayerModel>::empty());
    while i < config.players.len()
        invariant
            i <= config.players.len(),
            ps == players_view(config.players@),
            head == "statusResponse\n"@ + kv_text(config.info@) + seq!['\n'],
            text@ == head + player_lines(ps.subrange(0, i as int)),
        decreases config.players.len() - i,
    {
        let p = &config.players[i];
        push_int_chars(&mut text, p.score);
        push_char(&mut text, ' ');
        push_int_chars(&mut text, p.ping);
        push_char(&mut text, ' ');
        push_char(&mut text, '"');
        push_text(&mut text, p.name.as_str());
        push_char(&mut text, '"');
        push_char(&mut text, '\n');
        proof {
            let sub = ps.subrange(0, i + 1);
            assert(sub.drop_last() =~= ps.subrange(0, i as int));
            assert(sub.last() == p@);
        }
        assert(text@ =~= head + player_lines(ps.subrange(0, i + 1)));
        i = i + 1;
    }
    assert(ps.subrange(0, i as int) =~= ps);
    let mut out: Vec<u8> = Vec::new();
    out.push(0xff);
    out.push(0xff);
    out.push(0xff);
    out.push(0xff);
    let b = utf8_bytes(text.as_str());
    push_bytes(&mut out, b.as_slice());
    assert(out@ =~= status_response_bytes(config.info@, ps));
    out
}

/// `s` without the line feeds it starts with.
pub open spec fn trim_newlines(s: Seq<char>) -> Seq<char>
    decreases s.len(),
{
    if s.len() > 0 && s[0] == '\n' { trim_newlines(s.drop_first()) } else { s }
}

/// The text of a response after its label, or why there is none: the datagram is shorter
/// than the prefix and the label, lacks the prefix, or its text does not start with the label.
pub open spec fn response_text(d: Seq<u8>, label: Seq<char>) -> Result<Seq<char>, ProtoError> {
    if d.len() < 4 + label.len() {
        Err(ProtoError::Parse("quake response short"))
    } else if d.subrange(0, 4) != quake_prefix() {
        Err(ProtoError::Parse("quake prefix"))
    } else {
        let t = lossy_text(d.subrange(4, d.len() as int));
        if !seq_starts_with(t, label) {
            Err(ProtoError::Parse("quake response label"))
        } else {
            Ok(trim_newlines(t.subrange(label.len() as int, t.len() as int)))
        }
    }
}

fn validate_prefix(data: &[u8], label: &str) -> (r: ProtoResult<Vec<char>>)
    ensures
        match response_text(data@, label@) {
            Ok(t) => r matches Ok(v) && v@ == t,
            Err(e) => r == Err::<Vec<char>, ProtoError>(e),
        },
{
    let lc = chars_of(label);
    if data.len() < 4 || data.len() - 4 < lc.len() {
        return Err(ProtoError::Parse("quake response short"));
    }
    if !(data[0] == 0xff && data[1] == 0xff && data[2] == 0xff && data[3] == 0xff) {
        proof {
            if data@.subrange(0, 4) == quake_prefix() {
                assert(data@[0] == data@.subrange(0, 4)[0]);
                assert(data@[1] == data@.subrange(0, 4)[1]);
                assert(data@[2] == data@.subrange(0, 4)[2]);
                assert(data@[3] == data@.subrange(0, 4)[3]);
            }
        }
        return Err(ProtoError::Parse("quake prefix"));
    }
    assert(data@.subrange(0, 4) =~= quake_prefix());
    let rest = copy_range(data, 4, data.len() - 4);
    let text = string_from_utf8_lossy(rest.as_slice());
    let cs = chars_of(text.as_str());
    if !starts_with_chars(cs.as_slice(), lc.as_slice()) {
        return Err(ProtoError::Parse("quake response label"));
    }
    let mut k = lc.len();
    while k < cs.len() && cs[k] == '\n'
        invariant
            lc@.len() <= k <= cs@.len(),
            trim_newlines(cs@.subrange(lc@.len() as int, cs@.len() as int)) == trim_newlines(
                cs@.subrange(k as int, cs@.len() as int),
            ),
        decreases cs.len() - k,
    {
        assert(cs@.subrange(k as int, cs@.len() as int).drop_first() =~= cs@.subrange(k + 1, cs@.len() as int));
        k = k + 1;
    }
    let out = slice_chars(cs.as_slice(), k, cs.len());
    Ok(out)
}

/// The non-empty pieces, in order.
pub open spec fn nonempty_parts(ps: Seq<Seq<char>>) -> Seq<Seq<char>>
    decreases ps.len(),
{
    if ps.len() == 0 {
        Seq::empty()
    } else {
        let r = nonempty_parts(ps.drop_last());
        if ps.last().len() > 0 { r.push(ps.last()) } else { r }
    }
}

/// The pairs of the first `n` tokens, a later value of a key replacing an earlier one.
pub open spec fn kv_upto(t: Seq<Seq<char>>, n: int) -> Map<Seq<char>, Seq<char>>
    decreases n,
{
    if n < 2 || n > t.len() {
        Map::empty()
    } else {
        kv_upto(t, n - 2).insert(t[n - 2], t[n - 1])
    }
}

/// The pairs of key-value text: the non-empty pieces between backslashes, taken two by two
/// (a last piece without a partner is dropped), a later value of a key replacing an earlier one.
pub open spec fn kv_map(text: Seq<char>) -> Map<Seq<char>, Seq<char>> {
    let t = nonempty_parts(split_on(text, '\\'));
    kv_upto(t, t.len() - t.len() % 2)
}

/// The value of `k` in `m`, if it has one.
pub open spec fn map_lookup(m: Map<Seq<char>, Seq<char>>, k: Seq<char>) -> Option<Seq<char>> {
    if m.contains_key(k) { Some(m[k]) } else { None }
}

/// Reads key-value text: each key once, with the value it was last given.
pub fn parse_kv_pairs(text: &[char]) -> (r: Vec<(String, String)>)
    ensures
        forall|k: Seq<char>| #[trigger] pair_lookup(r@, k) == map_lookup(kv_map(text@), k),
{
    let parts = split_chars(text, '\\');
    let ghost ps = parts@.map_values(|p: Vec<char>| p@);
    let mut tokens: Vec<Vec<char>> = Vec::new();
    let mut i: usize = 0;
    assert(ps.subrange(0, 0) =~= Seq::<Seq<char>>::empty());
    while i < parts.len()
        invariant
            i <= parts.len(),
            ps == parts@.map_values(|p: Vec<char>| p@),
            tokens@.map_values(|p: Vec<char>| p@) == nonempty_parts(ps.subrange(0, i as int)),
        decreases parts.len() - i,
    {
        let ghost before = tokens@.map_values(|p: Vec<char>| p@);
        proof {
            let sub = ps.subrange(0, i + 1);
            assert(sub.drop_last() =~= ps.subrange(0, i as int));
            assert(sub.last() == parts@[i as int]@);
        }
        if parts[i].len() > 0 {
            let piece = slice_chars(parts[i].as_slice(), 0, parts[i].len());
            assert(piece@ =~= parts@[i as int]@);
            tokens.push(piece);
            assert(tokens@.map_values(|p: Vec<char>| p@) =~= before.push(parts@[i as int]@));
        }
        i = i + 1;
    }
    assert(ps.subrange(0, i as int) =~= ps);
    let ghost t = tokens@.map_values(|p: Vec<char>| p@);
    let mut out: Vec<(String, String)> = Vec::new();
    let mut j: usize = 0;
    while j + 1 < tokens.len()
        invariant
            j <= tokens.len(),
            j % 2 == 0,
            t == tokens@.map_values(|p: Vec<char>| p@),
            forall|k: Seq<char>| #[trigger] pair_lookup(out@, k) == map_lookup(kv_upto(t, j as int), k),
        decreases tokens.len() - j,
    {
        let key = string_from_chars(tokens[j].as_slice());
        let value = string_from_chars(tokens[j + 1].as_slice());
        let ghost kv = key@;
        let ghost vv = value@;
        pair_upsert(&mut out, key, value);
        proof {
            assert(kv == t[j as int] && vv == t[j + 1]);
            assert(kv_upto(t, j + 2) == kv_upto(t, j as int).insert(t[j as int], t[j + 1]));
            assert forall|k: Seq<char>| #[trigger] pair_lookup(out@, k) == map_lookup(kv_upto(t, j + 2), k) by {}
        }
        j = j + 2;
    }
    assert(j == t.len() - t.len() % 2);
    out
}

/// What a server said about itself: key-value pairs, each key once.
pub struct QuakeInfo {
    pub values: Vec<(String, String)>,
}

/// Reads the answer to `getinfo`: the pairs of its text, trimmed.
pub fn parse_info_response(data: &[u8]) -> (r: ProtoResult<QuakeInfo>)
    ensures
        match response_text(data@, "infoResponse"@) {
            Ok(t) => r matches Ok(info) && forall|k: Seq<char>| #[trigger] pair_lookup(info.values@, k) == map_lookup(
                kv_map(trim(t)),
                k,
            ),
            Err(e) => r matches Err(x) && x == e,
        },
{
    let text = validate_prefix(data, "infoResponse")?;
    let trimmed = trim_chars(text.as_slice());
    let values = parse_kv_pairs(trimmed.as_slice());
    Ok(QuakeInfo { values })
}

/// The value `str::parse::<i32>` gives: an optional sign, then at least one digit, the
/// value within range.
pub open spec fn parse_i32_spec(s: Seq<char>) -> Option<i32> {
    let neg = s.len() > 0 && s[0] == '-';
    let d = if s.len() > 0 && (s[0] == '+' || s[0] == '-') { s.drop_first() } else { s };
    if d.len() == 0 || !all_digits(d) {
        None
    } else if neg {
        if digits_value(d) > 0x8000_0000 { None } else { Some((-digits_value(d)) as i32) }
    } else {
        if digits_value(d) > 0x7fff_ffff { None } else { Some(digits_value(d) as i32) }
    }
}

/// A parsed value, or zero when the text is no number.
pub open spec fn or_zero(o: Option<i32>) -> i32 {
    match o {
        Some(v) => v,
        None => 0,
    }
}

fn parse_i32(s: &[char]) -> (r: Option<i32>)
    ensures
        r == parse_i32_spec(s@),
{
    let neg = s.len() > 0 && s[0] == '-';
    let start: usize = if s.len() > 0 && (s[0] == '+' || s[0] == '-') { 1 } else { 0 };
    let d = slice_chars(s, start, s.len());
    let ghost dd = if s@.len() > 0 && (s@[0] == '+' || s@[0] == '-') { s@.drop_first() } else { s@ };
    assert(d@ =~= dd);
    if d.len() == 0 {
        return None;
    }
    let mut i: usize = 0;
    while i < d.len()
        invariant
            d@ == dd,
            dd.len() > 0,
            dd == (if s@.len() > 0 && (s@[0] == '+' || s@[0] == '-') { s@.drop_first() } else { s@ }),
            i <= d@.len(),
            forall|k: int| 0 <= k < i ==> '0' <= #[trigger] d@[k] && d@[k] <= '9',
        decreases d.len() - i,
    {
        if !('0' <= d[i] && d[i] <= '9') {
            assert(!all_digits(d@)) by {
                assert(!('0' <= d@[i as int] && d@[i as int] <= '9'));
            }
            return None;
        }
        i = i + 1;
    }
    assert(all_digits(d@));
    assert(d@[0] != '+');
    match parse_usize(d.as_slice()) {
        None => {
            assert(digits_value(d@) > usize::MAX);
            None
        },
        Some(n) => {
            if neg {
                if n > 0x8000_0000 { None } else { Some((0 - (n as i64)) as i32) }
            } else {
                if n > 0x7fff_ffff { None } else { Some(n as i32) }
            }
        },
    }
}

/// `s` without the quotes it starts with.
pub open spec fn trim_start_quotes(s: Seq<char>) -> Seq<char>
    decreases s.len(),
{
    if s.len() > 0 && s[0] == '"' { trim_start_quotes(s.drop_first()) } else { s }
}

/// `s` without the quotes it ends with.
pub open spec fn trim_end_quotes(s: Seq<char>) -> Seq<char>
    decreases s.len(),
{
    if s.len() > 0 && s.last() == '"' { trim_end_quotes(s.drop_last()) } else { s }
}

fn trim_quotes(s: &[char]) -> (r: Vec<char>)
    ensures
        r@ == trim_end_quotes(trim_start_quotes(s@)),
{
    let mut a: usize = 0;
    assert(s@.subrange(0, s@.len() as int) =~= s@);
    while a < s.len() && s[a] == '"'
        invariant
            a <= s@.len(),
            trim_start_quotes(s@) == trim_start_quotes(s@.subrange(a as int, s@.len() as int)),
        decreases s.len() - a,
    {
        assert(s@.subrange(a as int, s@.len() as int).drop_first() =~= s@.subrange(a + 1, s@.len() as int));
        a = a + 1;
    }
    assert(trim_start_quotes(s@) == s@.subrange(a as int, s@.len() as int));
    let mut b: usize = s.len();
    while b > a && s[b - 1] == '"'
        invariant
            a <= b <= s@.len(),
            trim_end_quotes(s@.subrange(a as int, s@.len() as int)) == trim_end_quotes(s@.subrange(a as int, b as int)),
        decreases b,
    {
        assert(s@.subrange(a as int, b as int).drop_last() =~= s@.subrange(a as int, b - 1));
        b = b - 1;
    }
    slice_chars(s, a, b)
}

/// The player a status line names: after trimming, a score, a space, then (trimmed again)
/// a ping, a space and the name in quotes; numbers that do not parse count as zero.
pub open spec fn player_of(line: Seq<char>) -> Option<PlayerModel> {
    let l = trim(line);
    if l.len() == 0 {
        None
    } else {
        match find_from(l, ' ', 0) {
            None => None,
            Some(i) => {
                let rest = trim(l.subrange(i + 1, l.len() as int));
                match find_from(rest, ' ', 0) {
                    None => None,
                    Some(j) => Some(PlayerModel {
                        score: or_zero(parse_i32_spec(l.subrange(0, i))),
                        ping: or_zero(parse_i32_spec(rest.subrange(0, j))),
                        name: trim_end_quotes(trim_start_quotes(rest.subrange(j + 1, rest.len() as int))),
                    }),
                }
            },
        }
    }
}

/// The players the lines name, in order.
pub open spec fn players_of(ls: Seq<Seq<char>>) -> Seq<PlayerModel>
    decreases ls.len(),
{
    if ls.len() == 0 {
        Seq::empty()
    } else {
        let r = players_of(ls.drop_last());
        match player_of(ls.last()) {
            Some(p) => r.push(p),
            None => r,
        }
    }
}

fn player_from_line(line: &[char]) -> (r: Option<QuakePlayer>)
    ensures
        match player_of(line@) {
            Some(p) => r matches Some(q) && q@ == p,
            None => r is None,
        },
{
    let l = trim_chars(line);
    if l.len() == 0 {
        return None;
    }
    proof {
        lemma_find_from(l@, ' ', 0);
    }
    let i = match find_char(l.as_slice(), ' ', 0) {
        None => return None,
        Some(i) => i,
    };
    assert(i < l@.len());
    let tail = slice_chars(l.as_slice(), i + 1, l.len());
    let rest = trim_chars(tail.as_slice());
    proof {
        lemma_find_from(rest@, ' ', 0);
    }
    let j = match find_char(rest.as_slice(), ' ', 0) {
        None => return None,
        Some(j) => j,
    };
    assert(j < rest@.len());
    let score_text = slice_chars(l.as_slice(), 0, i);
    let ping_text = slice_chars(rest.as_slice(), 0, j);
    let name_text = slice_chars(rest.as_slice(), j + 1, rest.len());
    let score = match parse_i32(score_text.as_slice()) {
        Some(v) => v,
        None => 0,
    };
    let ping = match parse_i32(ping_text.as_slice()) {
        Some(v) => v,
        None => 0,
    };
    let name = trim_quotes(name_text.as_slice());
    Some(QuakePlayer { score, ping, name: string_from_chars(name.as_slice()) })
}

/// What a server said about itself and its players.
pub struct QuakeStatus {
    pub values: Vec<(String, String)>,
    pub players: Vec<QuakePlayer>,
}

/// The first line of a text, or nothing.
pub open spec fn first_line(t: Seq<char>) -> Seq<char> {
    if lines_of(t).len() == 0 { Seq::empty() } else { lines_of(t)[0] }
}

/// The lines of a text after the first.
pub open spec fn later_lines(t: Seq<char>) -> Seq<Seq<char>> {
    if lines_of(t).len() == 0 { Seq::empty() } else { lines_of(t).drop_first() }
}

/// Reads the answer to `getstatus`: the pairs of its first line, trimmed, and the players
/// its other lines name.
pub fn parse_status_response(data: &[u8]) -> (r: ProtoResult<QuakeStatus>)
    ensures
        match response_text(data@, "statusResponse"@) {
            Ok(t) => r matches Ok(st) && players_view(st.players@) == players_of(later_lines(t)) && forall|k: Seq<char>|
                #[trigger] pair_lookup(st.values@, k) == map_lookup(kv_map(trim(first_line(t))), k),
            Err(e) => r matches Err(x) && x == e,
        },
{
    let text = validate_prefix(data, "statusResponse")?;
    let ls = lines(text.as_slice());
    let ghost lv = lines_of(text@);
    let first: Vec<char> = if ls.len() > 0 { slice_chars(ls[0].as_slice(), 0, ls[0].len()) } else { Vec::new() };
    assert(first@ =~= first_line(text@));
    let trimmed = trim_chars(first.as_slice());
    let values = parse_kv_pairs(trimmed.as_slice());
    let mut players: Vec<QuakePlayer> = Vec::new();
    let ghost later = later_lines(text@);
    let mut i: usize = 1;
    assert(later.subrange(0, 0) =~= Seq::<Seq<char>>::empty());
    while i < ls.len()
        invariant
            1 <= i,
            i <= ls.len() || i == 1,
            lv == lines_of(text@),
            ls@.len() == lv.len(),
            forall|k: int| 0 <= k < ls@.len() ==> #[trigger] ls@[k]@ == lv[k],
            later == later_lines(text@),
            players_view(players@) == players_of(later.subrange(0, i - 1)),
        decreases ls.len() - i,
    {
        let ghost before = players_view(players@);
        proof {
            let sub = later.subrange(0, i as int);
            assert(sub.drop_last() =~= later.subrange(0, i - 1));
            assert(sub.last() == lv[i as int]);
        }
        match player_from_line(ls[i].as_slice()) {
            Some(p) => {
                let ghost pv = p@;
                players.push(p);
                assert(players_view(players@) =~= before.push(pv));
            },
            None => {},
        }
        i = i + 1;
    }
    proof {
        assert(later.len() == if lv.len() == 0 { 0 } else { lv.len() - 1 });
        if ls@.len() > 0 {
            assert(i == ls@.len());
            assert(later.subrange(0, i - 1) =~= later);
        } else {
            assert(later =~= Seq::<Seq<char>>::empty());
        }
        assert(later.subrange(0, i - 1) =~= later);
    }
    Ok(QuakeStatus { values, players })
}

} // verus!
