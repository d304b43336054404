//! PJL (Printer Job Language): command lines, responses, and what a printer answers.
use vstd::prelude::*;
use crate::error::{ProtoError, ProtoResult};
use crate::text::{
    ascii_upper_str, chars_of, contains_chars, find_char, find_from, join_chars, join_with, lossy_text, pair_lookup,
    pair_upsert, push_char, push_text, seq_contains, seq_starts_with, slice_chars, split_words, starts_with_chars,
    str_eq, string_from_chars, string_from_utf8_lossy, to_ascii_uppercase, trim, trim_chars, utf8_bytes, words_from,
};
use crate::wire::{concat_map, lemma_concat_map_push, push_bytes};
use vstd::utf8::encode_utf8;

verus! {

/// The universal exit language sequence, which resets the printer's state.
pub open spec fn uel() -> Seq<char> {
    seq!['\x1b', '%', '-', '1', '2', '3', '4', '5', 'X']
}

/// A parsed command line: the verb, its arguments and the trimmed line.
#[derive(Debug, Clone)]
pub struct PjlCommand {
    pub verb: String,
    pub args: Vec<String>,
    pub raw: String,
}

/// The command a line holds: after trimming, a line that starts with `@PJL` (in any case)
/// and has a second word; that word is the verb and the words after it the arguments.
pub open spec fn parse_spec(line: Seq<char>) -> Option<(Seq<char>, Seq<Seq<char>>, Seq<char>)> {
    let t = trim(line);
    let ws = words_from(t, 0);
    if t.len() == 0 || !seq_starts_with(ascii_upper_str(t), "@PJL"@) || ws.len() < 2 {
        None
    } else {
        Some((ws[1], ws.subrange(2, ws.len() as int), t))
    }
}

/// The characters of each string.
pub open spec fn strings_view(v: Seq<String>) -> Seq<Seq<char>> {
    v.map_values(|s: String| s@)
}

fn strings_of(ws: &Vec<Vec<char>>, from: usize) -> (r: Vec<String>)
    requires
        from <= ws@.len(),
    ensures
        strings_view(r@) == ws@.map_values(|w: Vec<char>| w@).subrange(from as int, ws@.len() as int),
{
    let mut out: Vec<String> = Vec::new();
    let mut i: usize = from;
    while i < ws.len()
        invariant
            from <= i <= ws@.len(),
            strings_view(out@) == ws@.map_values(|w: Vec<char>| w@).subrange(from as int, i as int),
        decreases ws.len() - i,
    {
        let s = string_from_chars(ws[i].as_slice());
        let ghost before = out@;
        out.push(s);
        proof {
            assert(strings_view(out@) =~= strings_view(before).push(s@));
            assert(ws@.map_values(|w: Vec<char>| w@).subrange(from as int, i + 1) =~= ws@.map_values(
                |w: Vec<char>| w@,
            ).subrange(from as int, i as int).push(ws@[i as int]@));
        }
        i = i + 1;
    }
    out
}

impl PjlCommand {
    /// Parses a command line.
    pub fn parse(line: &str) -> (r: Option<PjlCommand>)
        ensures
            match r {
                Some(c) => parse_spec(line@) == Some((c.verb@, strings_view(c.args@), c.raw@)),
                None => parse_spec(line@) is None,
            },
    {
        proof {
            reveal_strlit("@PJL");
        }
        let cs = chars_of(line);
        let t = trim_chars(cs.as_slice());
        if t.len() == 0 {
            return None;
        }
        let raw = string_from_chars(t.as_slice());
        let upper = to_ascii_uppercase(raw.as_str());
        let uc = chars_of(upper.as_str());
        let prefix = chars_of("@PJL");
        if !starts_with_chars(uc.as_slice(), prefix.as_slice()) {
            return None;
        }
        let ws = split_words(t.as_slice());
        if ws.len() < 2 {
            return None;
        }
        let verb = string_from_chars(ws[1].as_slice());
        let args = strings_of(&ws, 2);
        Some(PjlCommand { verb, args, raw })
    }
}

/// A response: its lines.
#[derive(Debug, Clone)]
pub struct PjlResponse {
    pub lines: Vec<String>,
}

/// The bytes of response lines: each line in UTF-8, ended by CR LF.
pub open spec fn response_bytes(ls: Seq<Seq<char>>) -> Seq<u8> {
    concat_map(ls, |l: Seq<char>| encode_utf8(l) + seq![13u8, 10u8])
}

/// The error line for `m`.
pub open spec fn error_line(m: Seq<char>) -> Seq<char> {
    "@PJL ERROR "@ + m
}

impl PjlResponse {
    /// The response `@PJL OK`.
    pub fn ok() -> (r: PjlResponse)
        ensures
            strings_view(r.lines@) == seq!["@PJL OK"@],
    {
        let r = PjlResponse { lines: vec![String::from_str("@PJL OK")] };
        assert(strings_view(r.lines@) =~= seq!["@PJL OK"@]);
        r
    }

    /// The response `@PJL ERROR` and the message.
    pub fn error(message: &str) -> (r: PjlResponse)
        ensures
            strings_view(r.lines@) == seq![error_line(message@)],
    {
        let mut s = String::from_str("@PJL ERROR ");
        push_text(&mut s, message);
        let r = PjlResponse { lines: vec![s] };
        assert(strings_view(r.lines@) =~= seq![error_line(message@)]);
        r
    }

    /// The bytes of the response.
    pub fn to_bytes(&self) -> (out: Vec<u8>)
        ensures
            out@ == response_bytes(strings_view(self.lines@)),
    {
        let ghost ls = strings_view(self.lines@);
        let ghost f = |l: Seq<char>| encode_utf8(l) + seq![13u8, 10u8];
        let mut out: Vec<u8> = Vec::new();
        let mut i: usize = 0;
        while i < self.lines.len()
            invariant
                i <= self.lines@.len(),
                ls == strings_view(self.lines@),
                f == (|l: Seq<char>| encode_utf8(l) + seq![13u8, 10u8]),
                out@ == concat_map(ls.subrange(0, i as int), f),
            decreases self.lines.len() - i,
        {
            let b = utf8_bytes(self.lines[i].as_str());
            let ghost before = out@;
            push_bytes(&mut out, b.as_slice());
            out.push(13);
            out.push(10);
            proof {
                lemma_concat_map_push(ls.subrange(0, i as int), ls[i as int], f);
                assert(ls.subrange(0, i as int).push(ls[i as int]) == ls.subrange(0, i + 1));
                assert(out@ =~= before + f(ls[i as int]));
            }
            i = i + 1;
        }
        assert(ls.subrange(0, i as int) == ls);
        out
    }
}

/// What a printer is configured with: its id, its status and its variables.
#[derive(Debug, Clone)]
pub struct PjlServerConfig {
    pub device_id: String,
    pub status: String,
    pub variables: Vec<(String, String)>,
}

impl Default for PjlServerConfig {
    /// The printer `Moonlight Printer`, `READY`, without variables.
    fn default() -> (r: Self)
        ensures
            r.device_id@ == "Moonlight Printer"@,
            r.status@ == "READY"@,
            r.variables@.len() == 0,
    {
        PjlServerConfig {
            device_id: String::from_str("Moonlight Printer"),
            status: String::from_str("READY"),
            variables: Vec::new(),
        }
    }
}

/// What a client is configured with.
#[derive(Debug, Clone)]
pub struct PjlClientConfig {}

impl Default for PjlClientConfig {
    fn default() -> (r: Self)
        ensures
            r == (PjlClientConfig {}),
    {
        PjlClientConfig {}
    }
}

/// A quoted value.
pub open spec fn quoted(s: Seq<char>) -> Seq<char> {
    seq!['"'] + s + seq!['"']
}

/// The answer to a command and what becomes of the variables: `INFO ID` and `INFO STATUS`
/// report the device id and status; `SET key=value` (the arguments joined by spaces,
/// split at the first `=`) sets a variable; `RESET` clears them; `ECHO` repeats its
/// arguments; `JOB` and `EOJ` are acknowledged; anything else is an error. Verbs and
/// `INFO` topics are matched in any case.
pub open spec fn command_spec(
    config: PjlServerConfig,
    verb: Seq<char>,
    args: Seq<Seq<char>>,
) -> (Seq<Seq<char>>, Option<Option<(Seq<char>, Seq<char>)>>) {
    let v = ascii_upper_str(verb);
    if v == "INFO"@ {
        if args.len() == 0 {
            (seq![error_line("missing info arg"@)], None)
        } else if ascii_upper_str(args[0]) == "ID"@ {
            (seq!["@PJL INFO ID "@ + quoted(config.device_id@)], None)
        } else if ascii_upper_str(args[0]) == "STATUS"@ {
            (seq!["@PJL INFO STATUS "@ + quoted(config.status@)], None)
        } else {
            (seq![error_line("unsupported info"@)], None)
        }
    } else if v == "SET"@ {
        let rest = join_with(args, ' ');
        match find_from(rest, '=', 0) {
            Some(i) => (
                seq!["@PJL OK"@],
                Some(Some((rest.subrange(0, i), rest.subrange(i + 1, rest.len() as int)))),
            ),
            None => (seq![error_line("invalid set"@)], None),
        }
    } else if v == "RESET"@ {
        (seq!["@PJL OK"@], Some(None))
    } else if v == "ECHO"@ {
        (seq!["@PJL "@ + join_with(args, ' ')], None)
    } else if v == "JOB"@ || v == "EOJ"@ {
        (seq!["@PJL OK"@], None)
    } else {
        (seq![error_line("unsupported command"@)], None)
    }
}

/// The variables after a change: `None` keeps them, `Some(None)` clears them,
/// `Some(Some((k, v)))` sets `k` to `v`.
pub open spec fn vars_after(
    vars: Seq<(String, String)>,
    change: Option<Option<(Seq<char>, Seq<char>)>>,
    k: Seq<char>,
) -> Option<Seq<char>> {
    match change {
        None => pair_lookup(vars, k),
        Some(None) => None,
        Some(Some((key, value))) => if k == key { Some(value) } else { pair_lookup(vars, k) },
    }
}

fn single_line(s: String) -> (r: PjlResponse)
    ensures
        strings_view(r.lines@) == seq![s@],
{
    let r = PjlResponse { lines: vec![s] };
    assert(strings_view(r.lines@) =~= seq![s@]);
    r
}

/// Answers a command.
pub fn handle_command(config: &mut PjlServerConfig, command: &PjlCommand) -> (r: PjlResponse)
    ensures
        ({
            let (lines, change) = command_spec(*old(config), command.verb@, strings_view(command.args@));
            &&& strings_view(r.lines@) == lines
            &&& final(config).device_id == old(config).device_id
            &&& final(config).status == old(config).status
            &&& forall|k: Seq<char>| #[trigger] pair_lookup(final(config).variables@, k) == vars_after(
                old(config).variables@,
                change,
                k,
            )
        }),
{
    proof {
        reveal_strlit("INFO");
        reveal_strlit("ID");
        reveal_strlit("STATUS");
        reveal_strlit("SET");
        reveal_strlit("RESET");
        reveal_strlit("ECHO");
        reveal_strlit("JOB");
        reveal_strlit("EOJ");
        reveal_strlit("@PJL OK");
        reveal_strlit("@PJL ");
        reveal_strlit("@PJL INFO ID ");
        reveal_strlit("@PJL INFO STATUS ");
    }
    let verb = to_ascii_uppercase(command.verb.as_str());
    let mut words: Vec<Vec<char>> = Vec::new();
    let mut i: usize = 0;
    while i < command.args.len()
        invariant
            i <= command.args@.len(),
            words@.map_values(|w: Vec<char>| w@) == strings_view(command.args@).subrange(0, i as int),
        decreases command.args.len() - i,
    {
        let w = chars_of(command.args[i].as_str());
        let ghost before = words@.map_values(|w: Vec<char>| w@);
        words.push(w);
        proof {
            assert(words@.map_values(|w: Vec<char>| w@) =~= before.push(command.args@[i as int]@));
            assert(strings_view(command.args@).subrange(0, i + 1) =~= strings_view(command.args@).subrange(
                0,
                i as int,
            ).push(command.args@[i as int]@));
        }
        i = i + 1;
    }
    assert(strings_view(command.args@).subrange(0, i as int) == strings_view(command.args@));
    if str_eq(verb.as_str(), "INFO") {
        if command.args.len() == 0 {
            return PjlResponse::error("missing info arg");
        }
        let topic = to_ascii_uppercase(command.args[0].as_str());
        if str_eq(topic.as_str(), "ID") {
            let mut s = String::from_str("@PJL INFO ID ");
            push_char(&mut s, '"');
            push_text(&mut s, config.device_id.as_str());
            push_char(&mut s, '"');
            assert(s@ =~= "@PJL INFO ID "@ + quoted(config.device_id@));
            return single_line(s);
        } else if str_eq(topic.as_str(), "STATUS") {
            let mut s = String::from_str("@PJL INFO STATUS ");
            push_char(&mut s, '"');
            push_text(&mut s, config.status.as_str());
            push_char(&mut s, '"');
            assert(s@ =~= "@PJL INFO STATUS "@ + quoted(config.status@));
            return single_line(s);
        } else {
            return PjlResponse::error("unsupported info");
        }
    } else if str_eq(verb.as_str(), "SET") {
        let rest = join_chars(&words, ' ');
        match find_char(rest.as_slice(), '=', 0) {
            Some(k) => {
                proof {
                    crate::text::lemma_find_from(rest@, '=', 0);
                }
                let key = string_from_chars(slice_chars(rest.as_slice(), 0, k).as_slice());
                let value = string_from_chars(slice_chars(rest.as_slice(), k + 1, rest.len()).as_slice());
                pair_upsert(&mut config.variables, key, value);
                PjlResponse::ok()
            },
            None => PjlResponse::error("invalid set"),
        }
    } else if str_eq(verb.as_str(), "RESET") {
        config.variables = Vec::new();
        PjlResponse::ok()
    } else if str_eq(verb.as_str(), "ECHO") {
        let msg = join_chars(&words, ' ');
        let mut s = String::from_str("@PJL ");
        let m = string_from_chars(msg.as_slice());
        push_text(&mut s, m.as_str());
        single_line(s)
    } else if str_eq(verb.as_str(), "JOB") || str_eq(verb.as_str(), "EOJ") {
        PjlResponse::ok()
    } else {
        PjlResponse::error("unsupported command")
    }
}

/// What the printer does with a line of a job: a line that holds the universal exit
/// language sequence clears the variables and gets no answer; a line that is not a
/// command gets no answer; a command gets its answer.
pub fn handle_line(config: &mut PjlServerConfig, line: &str) -> (r: Option<PjlResponse>)
    ensures
        seq_contains(line@, uel()) ==> r is None && final(config).variables@.len() == 0
            && final(config).device_id == old(config).device_id && final(config).status == old(config).status,
        !seq_contains(line@, uel()) && parse_spec(line@) is None ==> r is None && *final(config) == *old(config),
        !seq_contains(line@, uel()) ==> (parse_spec(line@) matches Some((verb, args, _)) ==> ({
            let (lines, change) = command_spec(*old(config), verb, args);
            &&& r matches Some(resp) && strings_view(resp.lines@) == lines
            &&& final(config).device_id == old(config).device_id
            &&& final(config).status == old(config).status
            &&& forall|k: Seq<char>| #[trigger] pair_lookup(final(config).variables@, k) == vars_after(
                old(config).variables@,
                change,
                k,
            )
        })),
{
    let cs = chars_of(line);
    let esc: Vec<char> = vec!['\x1b', '%', '-', '1', '2', '3', '4', '5', 'X'];
    assert(esc@ =~= uel());
    if contains_chars(cs.as_slice(), esc.as_slice()) {
        config.variables = Vec::new();
        return None;
    }
    match PjlCommand::parse(line) {
        None => None,
        Some(command) => Some(handle_command(config, &command)),
    }
}

/// A line without the carriage returns and line feeds at its end.
pub open spec fn trim_crlf(s: Seq<char>) -> Seq<char>
    decreases s.len(),
{
    if s.len() > 0 && (s.last() == '\r' || s.last() == '\n') {
        trim_crlf(s.drop_last())
    } else {
        s
    }
}

/// The index of the first line feed in `b` at or after `i`.
pub open spec fn find_lf(b: Seq<u8>, i: int) -> Option<int>
    decreases b.len() - i,
{
    if i < 0 || i >= b.len() {
        None
    } else if b[i] == 10 {
        Some(i)
    } else {
        find_lf(b, i + 1)
    }
}

/// Takes the first whole line out of the bytes received so far: the text up to its line
/// feed, decoded as UTF-8 (invalid bytes replaced) and without its line ending; `None`
/// while no line feed has arrived.
pub fn take_line(buffer: &mut Vec<u8>) -> (r: Option<String>)
    ensures
        match find_lf(old(buffer)@, 0) {
            Some(p) => r matches Some(s) && s@ == trim_crlf(lossy_text(old(buffer)@.subrange(0, p + 1)))
                && final(buffer)@ == old(buffer)@.subrange(p + 1, old(buffer)@.len() as int),
            None => r is None && final(buffer)@ == old(buffer)@,
        },
{
    let mut p: usize = 0;
    while p < buffer.len()
        invariant
            p <= buffer@.len(),
            buffer@ == old(buffer)@,
            find_lf(buffer@, 0) == find_lf(buffer@, p as int),
        decreases buffer.len() - p,
    {
        if buffer[p] == 10 {
            let line = crate::wire::copy_range(buffer.as_slice(), 0, p + 1);
            let rest = crate::wire::copy_range(buffer.as_slice(), p + 1, buffer.len() - p - 1);
            *buffer = rest;
            let text = string_from_utf8_lossy(line.as_slice());
            let cs = chars_of(text.as_str());
            let mut end: usize = cs.len();
            assert(cs@.subrange(0, end as int) == cs@);
            while end > 0 && (cs[end - 1] == '\r' || cs[end - 1] == '\n')
                invariant
                    end <= cs@.len(),
                    trim_crlf(cs@) == trim_crlf(cs@.subrange(0, end as int)),
                decreases end,
            {
                assert(cs@.subrange(0, end as int).drop_last() == cs@.subrange(0, end - 1));
                end = end - 1;
            }
            let out = string_from_chars(slice_chars(cs.as_slice(), 0, end).as_slice());
            return Some(out);
        }
        p = p + 1;
    }
    None
}

/// The bytes that send a command: `@PJL `, the command and CR LF.
pub fn command_line(command: &str) -> (out: Vec<u8>)
    ensures
        out@ == encode_utf8("@PJL "@ + command@ + seq!['\r', '\n']),
{
    let mut s = String::from_str("@PJL ");
    push_text(&mut s, command);
    push_char(&mut s, '\r');
    push_char(&mut s, '\n');
    assert(s@ =~= "@PJL "@ + command@ + seq!['\r', '\n']);
    utf8_bytes(s.as_str())
}

/// Whether a client reading a response goes on after `line`: it stops at the end of the
/// stream, at an empty line, and once it holds more than eight lines.
pub fn response_step(lines: &mut Vec<String>, line: Option<String>) -> (more: bool)
    ensures
        match line {
            None => !more && final(lines)@ == old(lines)@,
            Some(l) => if l@.len() == 0 {
                !more && final(lines)@ == old(lines)@
            } else {
                final(lines)@ == old(lines)@.push(l) && more == (final(lines)@.len() <= 8)
            },
        },
{
    match line {
        None => false,
        Some(l) => {
            if l.as_str().is_empty() {
                return false;
            }
            lines.push(l);
            lines.len() <= 8
        },
    }
}

/// A value without the double quotes at its start and end.
pub open spec fn trim_quotes(s: Seq<char>) -> Seq<char>
    decreases s.len(),
{
    if s.len() > 0 && s[0] == '"' {
        trim_quotes(s.drop_first())
    } else if s.len() > 0 && s.last() == '"' {
        trim_quotes(s.drop_last())
    } else {
        s
    }
}

/// The device id in the first `@PJL INFO ID ` line of a response, without its quotes.
pub open spec fn info_id_spec(ls: Seq<Seq<char>>) -> Option<Seq<char>>
    decreases ls.len(),
{
    if ls.len() == 0 {
        None
    } else if seq_starts_with(ls[0], "@PJL INFO ID "@) {
        Some(trim_quotes(ls[0].subrange("@PJL INFO ID "@.len() as int, ls[0].len() as int)))
    } else {
        info_id_spec(ls.drop_first())
    }
}

fn strip_quotes(cs: &[char]) -> (r: Vec<char>)
    ensures
        r@ == trim_quotes(cs@),
{
    let mut start: usize = 0;
    assert(cs@.subrange(0, cs@.len() as int) == cs@);
    while start < cs.len() && cs[start] == '"'
        invariant
            start <= cs@.len(),
            trim_quotes(cs@) == trim_quotes(cs@.subrange(start as int, cs@.len() as int)),
        decreases cs.len() - start,
    {
        assert(cs@.subrange(start as int, cs@.len() as int).drop_first() == cs@.subrange(start + 1, cs@.len() as int));
        start = start + 1;
    }
    let mut end: usize = cs.len();
    while end > start && cs[end - 1] == '"'
        invariant
            start <= end <= cs@.len(),
            start == cs@.len() || cs@[start as int] != '"',
            trim_quotes(cs@) == trim_quotes(cs@.subrange(start as int, end as int)),
        decreases end - start,
    {
        let ghost sub = cs@.subrange(start as int, end as int);
        assert(sub.drop_last() == cs@.subrange(start as int, end - 1));
        assert(sub[0] == cs@[start as int]);
        end = end - 1;
    }
    proof {
        let sub = cs@.subrange(start as int, end as int);
        if sub.len() > 0 {
            assert(sub[0] == cs@[start as int]);
            assert(sub.last() == cs@[end - 1]);
        }
    }
    slice_chars(cs, start, end)
}

/// The device id that a response reports.
pub fn info_id_from(response: &PjlResponse) -> (r: ProtoResult<String>)
    ensures
        match r {
            Ok(s) => info_id_spec(strings_view(response.lines@)) == Some(s@),
            Err(e) => info_id_spec(strings_view(response.lines@)) is None && e is Parse,
        },
{
    proof {
        reveal_strlit("@PJL INFO ID ");
    }
    let prefix = chars_of("@PJL INFO ID ");
    let ghost ls = strings_view(response.lines@);
    let mut i: usize = 0;
    assert(ls.subrange(0, ls.len() as int) == ls);
    while i < response.lines.len()
        invariant
            i <= response.lines@.len(),
            ls == strings_view(response.lines@),
            prefix@ == "@PJL INFO ID "@,
            info_id_spec(ls) == info_id_spec(ls.subrange(i as int, ls.len() as int)),
        decreases response.lines.len() - i,
    {
        let line = chars_of(response.lines[i].as_str());
        proof {
            let rest = ls.subrange(i as int, ls.len() as int);
            assert(rest[0] == line@);
            assert(rest.drop_first() == ls.subrange(i + 1, ls.len() as int));
        }
        if starts_with_chars(line.as_slice(), prefix.as_slice()) {
            let value = slice_chars(line.as_slice(), prefix.len(), line.len());
            let v = strip_quotes(value.as_slice());
            return Ok(string_from_chars(v.as_slice()));
        }
        i = i + 1;
    }
    Err(ProtoError::Parse("pjl missing id"))
}

/// `INFO STATUS` (topic and verb in any case) reports the configured status in double
/// quotes, and `INFO ID` the device id; neither touches the variables.
pub proof fn lemma_info_reports(config: PjlServerConfig, verb: Seq<char>, args: Seq<Seq<char>>)
    requires
        ascii_upper_str(verb) == "INFO"@,
        args.len() > 0,
    ensures
        ascii_upper_str(args[0]) == "STATUS"@ ==> command_spec(config, verb, args).0 == seq![
            "@PJL INFO STATUS "@ + seq!['"'] + config.status@ + seq!['"'],
        ] && command_spec(config, verb, args).1 is None,
        ascii_upper_str(args[0]) == "ID"@ ==> command_spec(config, verb, args).0 == seq![
            "@PJL INFO ID "@ + seq!['"'] + config.device_id@ + seq!['"'],
        ] && command_spec(config, verb, args).1 is None,
{
    reveal_strlit("ID");
    reveal_strlit("STATUS");
    reveal_strlit("INFO");
    assert(("@PJL INFO STATUS "@ + seq!['"'] + config.status@ + seq!['"']) =~= "@PJL INFO STATUS "@ + quoted(config.status@));
    if ascii_upper_str(args[0]) == "STATUS"@ {
        assert("STATUS"@.len() != "ID"@.len());
        assert(ascii_upper_str(args[0]) != "ID"@);
    }
    assert(("@PJL INFO ID "@ + seq!['"'] + config.device_id@ + seq!['"']) =~= "@PJL INFO ID "@ + quoted(config.device_id@));
}

/// `SET key=value` (verb in any case) with a key free of `=` sets that key to that value
/// and answers `@PJL OK`; `ECHO` answers with its arguments after `@PJL `, and a single
/// argument comes back unchanged.
pub proof fn lemma_set_and_echo(config: PjlServerConfig, verb: Seq<char>, key: Seq<char>, value: Seq<char>)
    requires
        forall|i: int| 0 <= i < key.len() ==> key[i] != '=',
    ensures
        ascii_upper_str(verb) == "SET"@ ==> command_spec(config, verb, seq![key + seq!['='] + value]) == (
            seq!["@PJL OK"@],
            Some(Some((key, value))),
        ),
        ascii_upper_str(verb) == "ECHO"@ ==> command_spec(config, verb, seq![value]).0 == seq!["@PJL "@ + value],
{
    reveal_strlit("INFO");
    reveal_strlit("SET");
    reveal_strlit("ECHO");
    reveal_strlit("RESET");
    assert("SET"@.len() != "INFO"@.len());
    assert("ECHO"@[0] != "INFO"@[0]);
    assert("ECHO"@.len() != "SET"@.len() && "ECHO"@.len() != "RESET"@.len());
    let t = key + seq!['='] + value;
    assert(join_with(seq![t], ' ') == t);
    assert(join_with(seq![value], ' ') == value);
    crate::text::lemma_find_from(t, '=', 0);
    assert(t[key.len() as int] == '=');
    match find_from(t, '=', 0) {
        Some(j) => {
            if j < key.len() {
                assert(t[j] == key[j]);
            }
            assert(j == key.len());
            assert(t.subrange(0, j) =~= key);
            assert(t.subrange(j + 1, t.len() as int) =~= value);
        },
        None => {},
    }
}

} // verus!
