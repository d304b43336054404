//! Text on the wire: UTF-8 and UTF-16LE images of strings, and the string
//! operations that the codecs need.
use vstd::prelude::*;
use vstd::utf8::{is_scalar, valid_utf8, decode_utf8, encode_utf8, char_u32_cast, char_is_scalar};
use crate::error::{ProtoError, ProtoResult};
use crate::wire::{concat_map, lemma_concat_map_push, lemma_concat_map_front, le16, get_le16, push_le16, read_le16};

verus! {

/// The characters of `s`, in order.
pub fn chars_of(s: &str) -> (v: Vec<char>)
    ensures
        v@ == s@,
{
    broadcast use vstd::string::axiom_spec_iter, vstd::string::next_postcondition;
    let mut v: Vec<char> = Vec::new();
    let mut it = s.chars();
    assert(vstd::std_specs::iter::IteratorSpec::remaining(&it) == s@);
    loop
        invariant
            v@ + vstd::std_specs::iter::IteratorSpec::remaining(&it) == s@,
            vstd::std_specs::iter::IteratorSpec::obeys_prophetic_iter_laws(&it),
        decreases s@.len() - v@.len(),
    {
        let ghost before = vstd::std_specs::iter::IteratorSpec::remaining(&it);
        match it.next() {
            Some(c) => {
                v.push(c);
                assert(v@ + vstd::std_specs::iter::IteratorSpec::remaining(&it) =~= s@) by {
                    assert(before == seq![c] + vstd::std_specs::iter::IteratorSpec::remaining(&it));
                }
            },
            None => {
                assert(v@ =~= s@);
                return v;
            },
        }
    }
}

/// Appends `c` to `s` (`String::push`).
#[verifier::external_body]
pub fn push_char(s: &mut String, c: char)
    ensures
        final(s)@ == old(s)@.push(c),
{
    s.push(c);
}

/// The character whose scalar value is `v`, if `v` is a scalar value (`char::from_u32`).
#[verifier::external_body]
pub fn char_from_u32(v: u32) -> (r: Option<char>)
    ensures
        r is Some <==> is_scalar(v),
        r matches Some(c) ==> c as u32 == v,
{
    char::from_u32(v)
}

/// The string made of `cs`.
pub fn string_from_chars(cs: &[char]) -> (s: String)
    ensures
        s@ == cs@,
{
    let mut s = String::new();
    let mut i: usize = 0;
    while i < cs.len()
        invariant
            i <= cs@.len(),
            s@ == cs@.subrange(0, i as int),
        decreases cs.len() - i,
    {
        push_char(&mut s, cs[i]);
        i = i + 1;
        assert(cs@.subrange(0, i as int) == cs@.subrange(0, i - 1).push(cs@[i - 1]));
    }
    assert(cs@.subrange(0, cs@.len() as int) == cs@);
    s
}

/// The UTF-8 bytes of `s`.
pub fn utf8_bytes(s: &str) -> (b: Vec<u8>)
    ensures
        b@ == encode_utf8(s@),
{
    let mut out: Vec<u8> = Vec::new();
    crate::wire::push_bytes(&mut out, s.as_bytes());
    out
}

/// What `String::from_utf8_lossy` makes of `b`.
pub uninterp spec fn utf8_lossy(b: Seq<u8>) -> Seq<char>;

/// The text of `b`, with each invalid UTF-8 sequence replaced (`String::from_utf8_lossy`):
/// valid UTF-8 is decoded unchanged.
#[verifier::external_body]
pub fn string_from_utf8_lossy(b: &[u8]) -> (s: String)
    ensures
        s@ == utf8_lossy(b@),
        valid_utf8(b@) ==> s@ == decode_utf8(b@),
{
    String::from_utf8_lossy(b).to_string()
}

/// The string whose UTF-8 bytes are `b`, if `b` is valid UTF-8 (`String::from_utf8`).
#[verifier::external_body]
pub fn string_from_utf8(b: Vec<u8>) -> (r: Option<String>)
    ensures
        r is Some <==> valid_utf8(b@),
        r matches Some(s) ==> s@ == decode_utf8(b@),
{
    String::from_utf8(b).ok()
}

/// Whether `i` starts a word: a character that is not white space, at the start or after white space.
pub open spec fn word_len(s: Seq<char>, i: int) -> nat
    decreases s.len() - i,
{
    if i < 0 || i >= s.len() || is_whitespace(s[i]) {
        0
    } else {
        1 + word_len(s, i + 1)
    }
}

/// The words of `s` from `i` on, as `str::split_whitespace` yields them.
pub open spec fn words_from(s: Seq<char>, i: int) -> Seq<Seq<char>>
    decreases s.len() - i,
{
    if i < 0 || i >= s.len() {
        Seq::empty()
    } else if is_whitespace(s[i]) {
        words_from(s, i + 1)
    } else {
        let j = i + word_len(s, i);
        seq![s.subrange(i, j)] + if j < s.len() {
            words_from(s, j + 1)
        } else {
            Seq::empty()
        }
    }
}

proof fn lemma_word_len(s: Seq<char>, i: int)
    ensures
        i + word_len(s, i) <= s.len() || word_len(s, i) == 0,
        0 <= i < s.len() && !is_whitespace(s[i]) ==> word_len(s, i) >= 1,
        0 <= i ==> (forall|k: int| i <= k < i + word_len(s, i) ==> !is_whitespace(#[trigger] s[k])),
        0 <= i && i + word_len(s, i) < s.len() ==> is_whitespace(s[i + word_len(s, i)]),
    decreases s.len() - i,
{
    if !(i < 0 || i >= s.len() || is_whitespace(s[i])) {
        lemma_word_len(s, i + 1);
    }
}

/// The words of `cs`, split at white space (`str::split_whitespace`).
pub fn split_words(cs: &[char]) -> (r: Vec<Vec<char>>)
    ensures
        r@.map_values(|w: Vec<char>| w@) == words_from(cs@, 0),
{
    let mut out: Vec<Vec<char>> = Vec::new();
    let mut i: usize = 0;
    while i < cs.len()
        invariant
            i <= cs.len(),
            words_from(cs@, 0) == out@.map_values(|w: Vec<char>| w@) + words_from(cs@, i as int),
        decreases cs.len() - i,
    {
        if char_is_whitespace(cs[i]) {
            i = i + 1;
        } else {
            let start = i;
            let mut w: Vec<char> = Vec::new();
            while i < cs.len() && !char_is_whitespace(cs[i])
                invariant
                    start <= i <= cs.len(),
                    w@ == cs@.subrange(start as int, i as int),
                    word_len(cs@, start as int) == (i - start) + word_len(cs@, i as int),
                decreases cs.len() - i,
            {
                w.push(cs[i]);
                i = i + 1;
                assert(w@ =~= cs@.subrange(start as int, i as int));
            }
            proof {
                assert(word_len(cs@, i as int) == 0);
            }
            let ghost prev = out@.map_values(|w: Vec<char>| w@);
            let ghost word = w@;
            out.push(w);
            proof {
                assert(out@.map_values(|w: Vec<char>| w@) =~= prev.push(word));
                if i < cs.len() {
                    assert(words_from(cs@, start as int) == seq![word] + words_from(cs@, i as int + 1));
                    assert(words_from(cs@, i as int) == words_from(cs@, i as int + 1));
                    assert(words_from(cs@, start as int) == seq![word] + words_from(cs@, i as int));
                } else {
                    assert(words_from(cs@, start as int) == seq![word] + Seq::<Seq<char>>::empty());
                    assert(words_from(cs@, i as int) =~= Seq::<Seq<char>>::empty());
                    assert(words_from(cs@, start as int) =~= seq![word] + words_from(cs@, i as int));
                }
                assert(words_from(cs@, 0) =~= out@.map_values(|w: Vec<char>| w@) + words_from(cs@, i as int));
            }
        }
    }
    assert(words_from(cs@, i as int) =~= Seq::<Seq<char>>::empty());
    assert(out@.map_values(|w: Vec<char>| w@) + Seq::<Seq<char>>::empty() =~= out@.map_values(|w: Vec<char>| w@));
    out
}

/// The text of `b` with invalid sequences replaced: valid UTF-8 is decoded as it is.
pub open spec fn lossy_text(b: Seq<u8>) -> Seq<char> {
    if valid_utf8(b) {
        decode_utf8(b)
    } else {
        utf8_lossy(b)
    }
}

/// The lossy reading of a string's own UTF-8 image is the string.
pub proof fn lemma_lossy_of_utf8(s: Seq<char>)
    ensures
        lossy_text(encode_utf8(s)) == s,
{
    broadcast use vstd::utf8::encode_utf8_valid_utf8, vstd::utf8::encode_utf8_decode_utf8;
}

/// The UTF-16 code units of a character.
pub open spec fn utf16_units(c: char) -> Seq<u16> {
    let v = c as u32;
    if v < 0x10000 {
        seq![v as u16]
    } else {
        seq![(0xD800 + (v - 0x10000) / 0x400) as u16, (0xDC00 + (v - 0x10000) % 0x400) as u16]
    }
}

/// The UTF-16 code units of a string.
pub open spec fn utf16_encode(s: Seq<char>) -> Seq<u16> {
    concat_map(s, |c: char| utf16_units(c))
}

/// The UTF-16LE bytes of a string.
pub open spec fn utf16le(s: Seq<char>) -> Seq<u8> {
    concat_map(utf16_encode(s), |u: u16| le16(u))
}

/// The characters that UTF-16 code units stand for, if they are well formed.
pub open spec fn utf16_decode(u: Seq<u16>) -> Option<Seq<char>>
    decreases u.len(),
{
    if u.len() == 0 {
        Some(Seq::empty())
    } else if u[0] < 0xD800 || u[0] >= 0xE000 {
        match utf16_decode(u.drop_first()) {
            Some(rest) => Some(seq![(u[0] as u32) as char] + rest),
            None => None,
        }
    } else if u[0] < 0xDC00 && u.len() >= 2 && 0xDC00 <= u[1] && u[1] < 0xE000 {
        let v = (0x10000 + (u[0] - 0xD800) * 0x400 + (u[1] - 0xDC00)) as u32;
        match utf16_decode(u.subrange(2, u.len() as int)) {
            Some(rest) => Some(seq![v as char] + rest),
            None => None,
        }
    } else {
        None
    }
}

/// The 16-bit little-endian units of a byte string of even length.
pub open spec fn le16_units(b: Seq<u8>) -> Seq<u16> {
    Seq::new(b.len() / 2, |i: int| get_le16(b, 2 * i))
}

/// The string that UTF-16LE bytes stand for, if they are well formed.
pub open spec fn utf16le_decode(b: Seq<u8>) -> Option<Seq<char>> {
    if b.len() % 2 != 0 {
        None
    } else {
        utf16_decode(le16_units(b))
    }
}

proof fn lemma_utf16_units_decode(c: char, rest: Seq<u16>)
    ensures
        utf16_decode(utf16_units(c) + rest) == match utf16_decode(rest) {
            Some(r) => Some(seq![c] + r),
            None => None::<Seq<char>>,
        },
{
    broadcast use char_is_scalar;
    let v = c as u32;
    let u = utf16_units(c) + rest;
    if v < 0x10000 {
        assert(u[0] == v as u16);
        assert(u.drop_first() =~= rest);
        char_u32_cast(c, v);
        assert(((u[0] as u32) as char) == c);
    } else {
        let w = v - 0x10000;
        let hi = (0xD800 + w / 0x400) as u16;
        let lo = (0xDC00 + w % 0x400) as u16;
        assert(w / 0x400 < 0x400);
        assert(u[0] == hi && u[1] == lo);
        assert(u.subrange(2, u.len() as int) =~= rest);
        assert(0x10000 + (hi - 0xD800) * 0x400 + (lo - 0xDC00) == v);
        char_u32_cast(c, v);
    }
}

/// Decoding the UTF-16 units of a string gives the string back.
pub proof fn lemma_utf16_roundtrip(s: Seq<char>)
    ensures
        utf16_decode(utf16_encode(s)) == Some(s),
    decreases s.len(),
{
    if s.len() > 0 {
        let f = |c: char| utf16_units(c);
        lemma_concat_map_front(s, f);
        lemma_utf16_roundtrip(s.drop_first());
        lemma_utf16_units_decode(s[0], utf16_encode(s.drop_first()));
        assert(seq![s[0]] + s.drop_first() =~= s);
    } else {
        assert(utf16_encode(s) =~= Seq::<u16>::empty());
    }
}

proof fn lemma_le16_concat(us: Seq<u16>)
    ensures
        concat_map(us, |u: u16| le16(u)).len() == 2 * us.len(),
        forall|i: int| 0 <= i < us.len() ==> get_le16(concat_map(us, |u: u16| le16(u)), 2 * i) == #[trigger] us[i],
    decreases us.len(),
{
    let f = |u: u16| le16(u);
    if us.len() > 0 {
        let init = us.drop_last();
        lemma_le16_concat(init);
        let a = concat_map(init, f);
        let b = concat_map(us, f);
        assert(b == a + le16(us.last()));
        assert forall|i: int| 0 <= i < us.len() implies get_le16(b, 2 * i) == #[trigger] us[i] by {
            if i < us.len() - 1 {
                assert(b[2 * i] == a[2 * i] && b[2 * i + 1] == a[2 * i + 1]);
                assert(init[i] == us[i]);
            } else {
                assert(b[2 * i] == le16(us.last())[0] && b[2 * i + 1] == le16(us.last())[1]);
            }
        }
    }
}

/// Decoding the UTF-16LE bytes of a string gives the string back.
pub proof fn lemma_utf16le_roundtrip(s: Seq<char>)
    ensures
        utf16le(s).len() == 2 * utf16_encode(s).len(),
        utf16le_decode(utf16le(s)) == Some(s),
{
    let us = utf16_encode(s);
    lemma_le16_concat(us);
    assert(le16_units(utf16le(s)) =~= us);
    lemma_utf16_roundtrip(s);
}

/// The UTF-16LE bytes of `value`.
pub fn utf16le_bytes(value: &str) -> (out: Vec<u8>)
    ensures
        out@ == utf16le(value@),
{
    broadcast use char_is_scalar;
    let cs = chars_of(value);
    let ghost fc = |c: char| utf16_units(c);
    let ghost fu = |u: u16| le16(u);
    let mut out: Vec<u8> = Vec::new();
    let mut i: usize = 0;
    while i < cs.len()
        invariant
            i <= cs@.len(),
            cs@ == value@,
            fc == (|c: char| utf16_units(c)),
            fu == (|u: u16| le16(u)),
            out@ == concat_map(concat_map(cs@.subrange(0, i as int), fc), fu),
        decreases cs.len() - i,
    {
        let c = cs[i];
        let v = c as u32;
        let ghost before = concat_map(cs@.subrange(0, i as int), fc);
        proof {
            lemma_concat_map_push(cs@.subrange(0, i as int), c, fc);
            assert(cs@.subrange(0, i as int).push(c) == cs@.subrange(0, i + 1));
        }
        if v < 0x10000 {
            push_le16(&mut out, v as u16);
            proof {
                assert(fc(c) == seq![v as u16]);
                assert(before + fc(c) == before.push(v as u16));
                lemma_concat_map_push(before, v as u16, fu);
            }
        } else {
            let w = v - 0x10000;
            let hi = (0xD800 + w / 0x400) as u16;
            let lo = (0xDC00 + w % 0x400) as u16;
            push_le16(&mut out, hi);
            push_le16(&mut out, lo);
            proof {
                assert(fc(c) == seq![hi, lo]);
                assert(before + fc(c) == before.push(hi).push(lo));
                lemma_concat_map_push(before, hi, fu);
                lemma_concat_map_push(before.push(hi), lo, fu);
            }
        }
        i = i + 1;
    }
    assert(cs@.subrange(0, cs@.len() as int) == cs@);
    out
}

/// Decodes UTF-16LE bytes into a string.
pub fn decode_utf16le(bytes: &[u8]) -> (r: ProtoResult<String>)
    ensures
        match r {
            Ok(s) => utf16le_decode(bytes@) == Some(s@),
            Err(e) => utf16le_decode(bytes@) is None && e is Parse,
        },
{
    broadcast use char_u32_cast;
    if bytes.len() % 2 != 0 {
        return Err(ProtoError::Parse("invalid utf16 length"));
    }
    let ghost units = le16_units(bytes@);
    let n = bytes.len() / 2;
    let mut cs: Vec<char> = Vec::new();
    let mut i: usize = 0;
    proof {
        assert(units.subrange(0, n as int) == units);
        assert forall|rest: Seq<char>| cs@ + rest == rest by {
            assert(cs@ + rest =~= rest);
        }
    }
    while i < n
        invariant
            n == units.len(),
            units == le16_units(bytes@),
            bytes@.len() == 2 * n,
            bytes.len() == 2 * n,
            i <= n,
            utf16_decode(units) == match utf16_decode(units.subrange(i as int, n as int)) {
                Some(rest) => Some(cs@ + rest),
                None => None,
            },
        decreases n - i,
    {
        let ghost tail = units.subrange(i as int, n as int);
        let u0 = read_le16(bytes, 2 * i);
        assert(u0 == units[i as int]);
        assert(tail[0] == u0);
        if u0 < 0xD800 || u0 >= 0xE000 {
            let c = match char_from_u32(u0 as u32) {
                Some(c) => c,
                None => {
                    return Err(ProtoError::Parse("invalid utf16"));
                },
            };
            proof {
                char_u32_cast(c, u0 as u32);
                assert(tail.drop_first() == units.subrange(i + 1, n as int));
                assert forall|rest: Seq<char>| cs@ + (seq![(u0 as u32) as char] + rest) == cs@.push(c) + rest by {
                    assert(cs@ + (seq![(u0 as u32) as char] + rest) =~= cs@.push(c) + rest);
                }
            }
            cs.push(c);
            i = i + 1;
        } else if u0 < 0xDC00 && i + 1 < n {
            let u1 = read_le16(bytes, 2 * i + 2);
            assert(u1 == units[i + 1]);
            assert(tail[1] == u1);
            if 0xDC00 <= u1 && u1 < 0xE000 {
                let v = 0x10000 + ((u0 - 0xD800) as u32) * 0x400 + ((u1 - 0xDC00) as u32);
                let c = match char_from_u32(v) {
                    Some(c) => c,
                    None => {
                        return Err(ProtoError::Parse("invalid utf16"));
                    },
                };
                proof {
                    char_u32_cast(c, v);
                    assert(tail.subrange(2, tail.len() as int) == units.subrange(i + 2, n as int));
                    assert forall|rest: Seq<char>| cs@ + (seq![v as char] + rest) == cs@.push(c) + rest by {
                        assert(cs@ + (seq![v as char] + rest) =~= cs@.push(c) + rest);
                    }
                }
                cs.push(c);
                i = i + 2;
            } else {
                return Err(ProtoError::Parse("invalid utf16"));
            }
        } else {
            return Err(ProtoError::Parse("invalid utf16"));
        }
    }
    proof {
        assert(units.subrange(n as int, n as int) == Seq::<u16>::empty());
        assert(cs@ + Seq::<char>::empty() == cs@);
    }
    Ok(string_from_chars(cs.as_slice()))
}

/// ASCII upper case of a character; other characters are unchanged.
pub open spec fn ascii_upper(c: char) -> char {
    if 'a' <= c && c <= 'z' {
        ((c as u32) - 32) as char
    } else {
        c
    }
}

/// ASCII upper case of a string.
pub open spec fn ascii_upper_str(s: Seq<char>) -> Seq<char> {
    s.map_values(|c: char| ascii_upper(c))
}

/// The ASCII upper case of `s` (`str::to_ascii_uppercase`).
pub fn to_ascii_uppercase(s: &str) -> (r: String)
    ensures
        r@ == ascii_upper_str(s@),
{
    broadcast use char_u32_cast;
    let cs = chars_of(s);
    let mut out: Vec<char> = Vec::new();
    let mut i: usize = 0;
    while i < cs.len()
        invariant
            i <= cs@.len(),
            cs@ == s@,
            out@ == ascii_upper_str(cs@.subrange(0, i as int)),
        decreases cs.len() - i,
    {
        let c = cs[i];
        let u = if 'a' <= c && c <= 'z' {
            ((c as u8) - 32) as char
        } else {
            c
        };
        assert(u == ascii_upper(c));
        out.push(u);
        i = i + 1;
        assert(ascii_upper_str(cs@.subrange(0, i as int)) =~= ascii_upper_str(cs@.subrange(0, i - 1)).push(u));
    }
    assert(cs@.subrange(0, cs@.len() as int) == cs@);
    string_from_chars(out.as_slice())
}

/// Whether `c` is white space in the sense of `char::is_whitespace` (Unicode `White_Space`).
pub open spec fn is_whitespace(c: char) -> bool {
    let v = c as u32;
    (0x09 <= v && v <= 0x0D) || v == 0x20 || v == 0x85 || v == 0xA0 || v == 0x1680 || (0x2000 <= v
        && v <= 0x200A) || v == 0x2028 || v == 0x2029 || v == 0x202F || v == 0x205F || v == 0x3000
}

/// Whether `c` is white space.
pub fn char_is_whitespace(c: char) -> (r: bool)
    ensures
        r == is_whitespace(c),
{
    let v = c as u32;
    (0x09 <= v && v <= 0x0D) || v == 0x20 || v == 0x85 || v == 0xA0 || v == 0x1680 || (0x2000 <= v
        && v <= 0x200A) || v == 0x2028 || v == 0x2029 || v == 0x202F || v == 0x205F || v == 0x3000
}

/// `s` without its leading white space.
pub open spec fn trim_start(s: Seq<char>) -> Seq<char>
    decreases s.len(),
{
    if s.len() > 0 && is_whitespace(s[0]) { trim_start(s.drop_first()) } else { s }
}

/// `s` without its trailing white space.
pub open spec fn trim_end(s: Seq<char>) -> Seq<char>
    decreases s.len(),
{
    if s.len() > 0 && is_whitespace(s.last()) { trim_end(s.drop_last()) } else { s }
}

/// `s` without leading and trailing white space.
pub open spec fn trim(s: Seq<char>) -> Seq<char> {
    trim_end(trim_start(s))
}

/// The characters of `cs` without leading and trailing white space.
pub fn trim_chars(cs: &[char]) -> (r: Vec<char>)
    ensures
        r@ == trim(cs@),
{
    let mut start: usize = 0;
    assert(cs@.subrange(0, cs@.len() as int) == cs@);
    while start < cs.len() && char_is_whitespace(cs[start])
        invariant
            start <= cs@.len(),
            trim_start(cs@) == trim_start(cs@.subrange(start as int, cs@.len() as int)),
        decreases cs.len() - start,
    {
        assert(cs@.subrange(start as int, cs@.len() as int).drop_first() == cs@.subrange(start + 1, cs@.len() as int));
        start = start + 1;
    }
    let ghost mid = cs@.subrange(start as int, cs@.len() as int);
    assert(trim_start(cs@) == mid);
    let mut end: usize = cs.len();
    while end > start && char_is_whitespace(cs[end - 1])
        invariant
            start <= end <= cs@.len(),
            mid == cs@.subrange(start as int, cs@.len() as int),
            trim_end(mid) == trim_end(cs@.subrange(start as int, end as int)),
        decreases end - start,
    {
        assert(cs@.subrange(start as int, end as int).drop_last() == cs@.subrange(start as int, end - 1));
        end = end - 1;
    }
    assert(trim_end(cs@.subrange(start as int, end as int)) == cs@.subrange(start as int, end as int));
    let mut out: Vec<char> = Vec::new();
    let mut i: usize = start;
    while i < end
        invariant
            start <= i <= end,
            end <= cs@.len(),
            out@ == cs@.subrange(start as int, i as int),
        decreases end - i,
    {
        out.push(cs[i]);
        i = i + 1;
        assert(out@ =~= cs@.subrange(start as int, i as int));
    }
    out
}

/// The decimal digit character for `d`.
pub open spec fn digit_char(d: nat) -> char {
    ((48 + d) as u8) as char
}

/// The decimal representation of `n`, without leading zeros.
pub open spec fn decimal(n: nat) -> Seq<char>
    decreases n,
{
    if n < 10 {
        seq![digit_char(n)]
    } else {
        decimal(n / 10).push(digit_char(n % 10))
    }
}

/// Appends the decimal representation of `n`.
pub fn push_decimal(out: &mut String, n: u64)
    ensures
        final(out)@ == old(out)@ + decimal(n as nat),
    decreases n,
{
    let ghost start = out@;
    if n >= 10 {
        push_decimal(out, n / 10);
    }
    push_char(out, ((48 + n % 10) as u8) as char);
    assert(out@ =~= start + decimal(n as nat));
}

/// The value of a non-empty string of decimal digits.
pub open spec fn digits_value(d: Seq<char>) -> nat
    decreases d.len(),
{
    if d.len() == 0 {
        0
    } else {
        digits_value(d.drop_last()) * 10 + ((d.last() as u32) - 48) as nat
    }
}

/// Whether every character is a decimal digit.
pub open spec fn all_digits(d: Seq<char>) -> bool {
    forall|i: int| 0 <= i < d.len() ==> '0' <= #[trigger] d[i] && d[i] <= '9'
}

/// The value `str::parse::<usize>` gives: an optional `+`, then decimal digits, within range.
pub open spec fn parse_usize_spec(s: Seq<char>) -> Option<usize> {
    let d = if s.len() > 0 && s[0] == '+' { s.drop_first() } else { s };
    if d.len() == 0 || !all_digits(d) || digits_value(d) > usize::MAX {
        None
    } else {
        Some(digits_value(d) as usize)
    }
}

/// Parses an unsigned decimal integer like `str::parse::<usize>`.
pub fn parse_usize(s: &[char]) -> (r: Option<usize>)
    ensures
        r == parse_usize_spec(s@),
{
    let start: usize = if s.len() > 0 && s[0] == '+' { 1 } else { 0 };
    let ghost d = if s@.len() > 0 && s@[0] == '+' { s@.drop_first() } else { s@ };
    assert(d == s@.subrange(start as int, s@.len() as int));
    if start == s.len() {
        return None;
    }
    let mut value: usize = 0;
    let mut i: usize = start;
    while i < s.len()
        invariant
            start <= i <= s@.len(),
            d == s@.subrange(start as int, s@.len() as int),
            d == (if s@.len() > 0 && s@[0] == '+' { s@.drop_first() } else { s@ }),
            all_digits(s@.subrange(start as int, i as int)),
            value == digits_value(s@.subrange(start as int, i as int)),
        decreases s.len() - i,
    {
        let c = s[i];
        assert(s@.subrange(start as int, i + 1).drop_last() == s@.subrange(start as int, i as int));
        if !('0' <= c && c <= '9') {
            assert(d[i - start] == c);
            assert(!all_digits(d));
            return None;
        }
        let digit = (c as u32 - 48) as usize;
        let next = match value.checked_mul(10) {
            Some(v) => match v.checked_add(digit) {
                Some(w) => w,
                None => {
                    proof {
                        if all_digits(d) {
                            lemma_digits_prefix_le(d, (i + 1 - start) as nat);
                            assert(d.subrange(0, (i + 1 - start) as int) == s@.subrange(start as int, i + 1));
                        }
                    }
                    return None;
                },
            },
            None => {
                proof {
                    if all_digits(d) {
                        lemma_digits_prefix_le(d, (i + 1 - start) as nat);
                        assert(d.subrange(0, (i + 1 - start) as int) == s@.subrange(start as int, i + 1));
                    }
                }
                return None;
            },
        };
        value = next;
        i = i + 1;
        assert(all_digits(s@.subrange(start as int, i as int)));
    }
    Some(value)
}

/// A prefix of digits never has a larger value than the whole.
pub proof fn lemma_digits_prefix_le(d: Seq<char>, k: nat)
    requires
        k <= d.len(),
        all_digits(d),
    ensures
        digits_value(d.subrange(0, k as int)) <= digits_value(d),
    decreases d.len() - k,
{
    if k < d.len() {
        lemma_digits_prefix_le(d, k + 1);
        assert(d.subrange(0, (k + 1) as int).drop_last() == d.subrange(0, k as int));
        assert('0' <= d[k as int] && d[k as int] <= '9');
        assert(digits_value(d.subrange(0, (k + 1) as int)) >= digits_value(d.subrange(0, k as int)));
    } else {
        assert(d.subrange(0, k as int) == d);
    }
}

/// The index of the first `c` in `s` at or after `i`, if there is one.
pub open spec fn find_from(s: Seq<char>, c: char, i: int) -> Option<int>
    decreases s.len() - i,
{
    if i < 0 || i >= s.len() {
        None
    } else if s[i] == c {
        Some(i)
    } else {
        find_from(s, c, i + 1)
    }
}

/// A line without its line ending: a carriage return before the newline is dropped too.
pub open spec fn strip_cr(l: Seq<char>) -> Seq<char> {
    if l.len() > 0 && l.last() == '\r' { l.drop_last() } else { l }
}

/// The lines of `s` in the sense of `str::lines`.
pub open spec fn lines_of(s: Seq<char>) -> Seq<Seq<char>>
    decreases s.len(),
{
    if s.len() == 0 {
        Seq::empty()
    } else {
        match find_from(s, '\n', 0) {
            None => seq![s],
            Some(i) => if 0 <= i < s.len() {
                seq![strip_cr(s.subrange(0, i))] + lines_of(s.subrange(i + 1, s.len() as int))
            } else {
                Seq::empty()
            },
        }
    }
}

/// The first `\n` at or after `i` lies in range and is the first one.
pub proof fn lemma_find_from(s: Seq<char>, c: char, i: int)
    requires
        0 <= i,
    ensures
        find_from(s, c, i) matches Some(j) ==> i <= j < s.len() && s[j] == c && forall|k: int| i <= k < j ==> s[k] != c,
        find_from(s, c, i) is None ==> forall|k: int| i <= k < s.len() ==> s[k] != c,
    decreases s.len() - i,
{
    if 0 <= i < s.len() && s[i] != c {
        lemma_find_from(s, c, i + 1);
    }
}

/// The lines of `s`, as `str::lines` splits them.
pub fn lines(s: &[char]) -> (r: Vec<Vec<char>>)
    ensures
        r@.len() == lines_of(s@).len(),
        forall|i: int| 0 <= i < r@.len() ==> #[trigger] r@[i]@ == lines_of(s@)[i],
{
    let mut out: Vec<Vec<char>> = Vec::new();
    let mut pos: usize = 0;
    let mut cur: Vec<char> = Vec::new();
    assert(s@.subrange(0, s@.len() as int) == s@);
    while pos < s.len()
        invariant
            pos <= s@.len(),
            ({
                let rest = lines_of(s@.subrange(pos as int, s@.len() as int));
                &&& out@.len() + rest.len() == lines_of(s@).len()
                &&& forall|i: int| 0 <= i < out@.len() ==> #[trigger] out@[i]@ == lines_of(s@)[i]
                &&& forall|i: int| 0 <= i < rest.len() ==> #[trigger] rest[i] == lines_of(s@)[out@.len() + i]
            }),
        decreases s.len() - pos,
    {
        let ghost t = s@.subrange(pos as int, s@.len() as int);
        let mut end: usize = pos;
        while end < s.len() && s[end] != '\n'
            invariant
                pos <= end <= s@.len(),
                forall|k: int| pos <= k < end ==> s@[k] != '\n',
            decreases s.len() - end,
        {
            end = end + 1;
        }
        proof {
            lemma_find_from(t, '\n', 0);
            if end < s.len() {
                assert(t[end - pos] == '\n');
                assert(find_from(t, '\n', 0) == Some((end - pos) as int)) by {
                    match find_from(t, '\n', 0) {
                        Some(j) => {
                            if j < end - pos {
                                assert(t[j] == s@[pos + j]);
                            }
                            if j > end - pos {
                                assert(t[end - pos] != '\n');
                            }
                        },
                        None => {
                            assert(t[end - pos] != '\n');
                        },
                    }
                }
            } else {
                assert(find_from(t, '\n', 0) is None) by {
                    match find_from(t, '\n', 0) {
                        Some(j) => {
                            assert(t[j] == s@[pos + j]);
                        },
                        None => {},
                    }
                }
            }
        }
        let mut line: Vec<char> = Vec::new();
        let mut k: usize = pos;
        while k < end
            invariant
                pos <= k <= end,
                end <= s@.len(),
                line@ == s@.subrange(pos as int, k as int),
            decreases end - k,
        {
            line.push(s[k]);
            k = k + 1;
            assert(line@ =~= s@.subrange(pos as int, k as int));
        }
        if end < s.len() && line.len() > 0 && line[line.len() - 1] == '\r' {
            line.pop();
        }
        proof {
            if end < s.len() {
                assert(t.subrange(0, (end - pos) as int) == s@.subrange(pos as int, end as int));
                assert(t.subrange(end - pos + 1, t.len() as int) == s@.subrange(end + 1, s@.len() as int));
            } else {
                assert(t == s@.subrange(pos as int, end as int));
            }
        }
        let ghost next = if end < s.len() { s@.subrange(end + 1, s@.len() as int) } else { Seq::<char>::empty() };
        proof {
            assert(t.len() > 0);
            if end < s.len() {
                assert(strip_cr(t.subrange(0, (end - pos) as int)) == line@);
            } else {
                assert(line@ == t);
            }
            assert(lines_of(t) == seq![line@] + lines_of(next));
        }
        let ghost old_out = out@;
        out.push(line);
        if end < s.len() {
            pos = end + 1;
        } else {
            pos = end;
            assert(s@.subrange(pos as int, s@.len() as int) =~= next);
        }
        proof {
            let rest = lines_of(t);
            let rest2 = lines_of(next);
            assert(s@.subrange(pos as int, s@.len() as int) == next);
            assert forall|i: int| 0 <= i < rest2.len() implies #[trigger] rest2[i] == lines_of(s@)[out@.len() + i] by {
                assert(rest2[i] == rest[i + 1]);
                assert(rest[i + 1] == lines_of(s@)[old_out.len() + i + 1]);
            }
            assert forall|i: int| 0 <= i < out@.len() implies #[trigger] out@[i]@ == lines_of(s@)[i] by {
                if i < old_out.len() {
                    assert(out@[i] == old_out[i]);
                } else {
                    assert(rest[0] == lines_of(s@)[old_out.len() as int]);
                }
            }
        }
    }
    out
}

/// The pieces of `s` between occurrences of `c` (`str::split` with a character): always at
/// least one piece, empty pieces included.
pub open spec fn split_on(s: Seq<char>, c: char) -> Seq<Seq<char>>
    decreases s.len(),
{
    match find_from(s, c, 0) {
        None => seq![s],
        Some(k) => if 0 <= k < s.len() {
            seq![s.subrange(0, k)] + split_on(s.subrange(k + 1, s.len() as int), c)
        } else {
            seq![s]
        },
    }
}

/// The pieces joined, `c` between each two (`[..].join`).
pub open spec fn join_with(ps: Seq<Seq<char>>, c: char) -> Seq<char>
    decreases ps.len(),
{
    if ps.len() == 0 {
        Seq::empty()
    } else if ps.len() == 1 {
        ps[0]
    } else {
        join_with(ps.drop_last(), c).push(c) + ps.last()
    }
}

/// ASCII lower case of a character.
pub open spec fn ascii_lower(c: char) -> char {
    if 'A' <= c && c <= 'Z' {
        ((c as u32) + 32) as char
    } else {
        c
    }
}

/// ASCII lower case of a string (`str::to_ascii_lowercase`).
pub open spec fn ascii_lower_str(s: Seq<char>) -> Seq<char> {
    s.map_values(|c: char| ascii_lower(c))
}

/// Equality ignoring ASCII case (`str::eq_ignore_ascii_case`).
pub open spec fn eq_ignore_case(a: Seq<char>, b: Seq<char>) -> bool {
    ascii_lower_str(a) == ascii_lower_str(b)
}

proof fn lemma_split_concat(a: Seq<char>, c: char, rest: Seq<char>)
    requires
        forall|k: int| 0 <= k < a.len() ==> a[k] != c,
    ensures
        split_on(a.push(c) + rest, c) == seq![a] + split_on(rest, c),
{
    let s = a.push(c) + rest;
    lemma_find_from(s, c, 0);
    assert(s[a.len() as int] == c);
    match find_from(s, c, 0) {
        Some(k) => {
            assert(k == a.len());
            assert(s.subrange(0, k) =~= a);
            assert(s.subrange(k + 1, s.len() as int) =~= rest);
        },
        None => {},
    }
}

proof fn lemma_split_no_sep(a: Seq<char>, c: char)
    requires
        forall|k: int| 0 <= k < a.len() ==> a[k] != c,
    ensures
        split_on(a, c) == seq![a],
{
    lemma_find_from(a, c, 0);
}

/// The pieces of `cs` between occurrences of `c`.
pub fn split_chars(cs: &[char], c: char) -> (r: Vec<Vec<char>>)
    ensures
        r@.map_values(|p: Vec<char>| p@) == split_on(cs@, c),
{
    let mut out: Vec<Vec<char>> = Vec::new();
    let mut cur: Vec<char> = Vec::new();
    let mut i: usize = 0;
    assert(out@.map_values(|p: Vec<char>| p@) =~= Seq::<Seq<char>>::empty());
    assert(cur@ + cs@.subrange(0, cs@.len() as int) =~= cs@);
    assert(Seq::<Seq<char>>::empty() + split_on(cs@, c) =~= split_on(cs@, c));
    while i < cs.len()
        invariant
            i <= cs.len(),
            forall|k: int| 0 <= k < cur@.len() ==> cur@[k] != c,
            split_on(cs@, c) == out@.map_values(|p: Vec<char>| p@) + split_on(cur@ + cs@.subrange(i as int, cs@.len() as int), c),
        decreases cs.len() - i,
    {
        let ch = cs[i];
        if ch == c {
            proof {
                assert(cur@ + cs@.subrange(i as int, cs@.len() as int) =~= cur@.push(c) + cs@.subrange(i + 1, cs@.len() as int));
                lemma_split_concat(cur@, c, cs@.subrange(i + 1, cs@.len() as int));
                assert(Seq::<char>::empty() + cs@.subrange(i + 1, cs@.len() as int) =~= cs@.subrange(i + 1, cs@.len() as int));
            }
            let ghost prev = out@.map_values(|p: Vec<char>| p@);
            let piece = cur;
            cur = Vec::new();
            let ghost pv = piece@;
            out.push(piece);
            assert(out@.map_values(|p: Vec<char>| p@) =~= prev.push(pv));
            assert(cur@ + cs@.subrange(i + 1, cs@.len() as int) =~= cs@.subrange(i + 1, cs@.len() as int));
            assert(prev + (seq![pv] + split_on(cs@.subrange(i + 1, cs@.len() as int), c)) =~= prev.push(pv) + split_on(
                cur@ + cs@.subrange(i + 1, cs@.len() as int),
                c,
            ));
            assert(split_on(cs@, c) == out@.map_values(|p: Vec<char>| p@) + split_on(cur@ + cs@.subrange(i + 1, cs@.len() as int), c));
        } else {
            let ghost oldcur = cur@;
            cur.push(ch);
            assert(oldcur + cs@.subrange(i as int, cs@.len() as int) =~= cur@ + cs@.subrange(i + 1, cs@.len() as int));
        }
        i = i + 1;
    }
    proof {
        assert(cur@ + cs@.subrange(i as int, cs@.len() as int) =~= cur@);
        lemma_split_no_sep(cur@, c);
    }
    let ghost prev = out@.map_values(|p: Vec<char>| p@);
    let ghost cv = cur@;
    out.push(cur);
    assert(out@.map_values(|p: Vec<char>| p@) =~= prev.push(cv));
    out
}

/// The pieces joined, `c` between each two.
pub fn join_chars(ps: &Vec<Vec<char>>, c: char) -> (r: Vec<char>)
    ensures
        r@ == join_with(ps@.map_values(|p: Vec<char>| p@), c),
{
    let mut out: Vec<char> = Vec::new();
    let mut i: usize = 0;
    while i < ps.len()
        invariant
            i <= ps.len(),
            out@ == join_with(ps@.subrange(0, i as int).map_values(|p: Vec<char>| p@), c),
        decreases ps.len() - i,
    {
        let ghost pre = ps@.subrange(0, i as int).map_values(|p: Vec<char>| p@);
        if i > 0 {
            out.push(c);
        }
        let mut j: usize = 0;
        let ghost base = out@;
        while j < ps[i].len()
            invariant
                j <= ps@[i as int]@.len(),
                i < ps.len(),
                out@ == base + ps@[i as int]@.subrange(0, j as int),
            decreases ps@[i as int]@.len() - j,
        {
            out.push(ps[i][j]);
            j = j + 1;
            assert(out@ =~= base + ps@[i as int]@.subrange(0, j as int));
        }
        proof {
            assert(ps@[i as int]@.subrange(0, j as int) =~= ps@[i as int]@);
            let next = ps@.subrange(0, i + 1).map_values(|p: Vec<char>| p@);
            assert(next.drop_last() =~= pre);
            assert(next.last() == ps@[i as int]@);
            if i == 0 {
                assert(out@ =~= next[0]);
            } else {
                assert(out@ =~= join_with(pre, c).push(c) + next.last());
            }
        }
        i = i + 1;
    }
    assert(ps@.subrange(0, i as int) =~= ps@);
    out
}

/// The ASCII lower case of `cs`.
pub fn lower_chars(cs: &[char]) -> (r: Vec<char>)
    ensures
        r@ == ascii_lower_str(cs@),
{
    broadcast use char_u32_cast;
    let mut out: Vec<char> = Vec::new();
    let mut i: usize = 0;
    while i < cs.len()
        invariant
            i <= cs.len(),
            out@ == ascii_lower_str(cs@.subrange(0, i as int)),
        decreases cs.len() - i,
    {
        let c = cs[i];
        let l = if 'A' <= c && c <= 'Z' {
            ((c as u8) + 32) as char
        } else {
            c
        };
        assert(l == ascii_lower(c));
        out.push(l);
        i = i + 1;
        assert(out@ =~= ascii_lower_str(cs@.subrange(0, i as int)));
    }
    assert(cs@.subrange(0, i as int) =~= cs@);
    out
}

/// Whether the strings are equal ignoring ASCII case.
pub fn eq_ignore_ascii_case(a: &str, b: &str) -> (r: bool)
    ensures
        r == eq_ignore_case(a@, b@),
{
    let la = lower_chars(chars_of(a).as_slice());
    let lb = lower_chars(chars_of(b).as_slice());
    if la.len() != lb.len() {
        return false;
    }
    let mut i: usize = 0;
    while i < la.len()
        invariant
            la@.len() == lb@.len(),
            la@ == ascii_lower_str(a@),
            lb@ == ascii_lower_str(b@),
            i <= la.len(),
            forall|k: int| 0 <= k < i ==> la@[k] == lb@[k],
        decreases la.len() - i,
    {
        if la[i] != lb[i] {
            assert(la@[i as int] != lb@[i as int]);
            return false;
        }
        i = i + 1;
    }
    assert(la@ =~= lb@);
    true
}

/// A copy of `cs`.
pub fn copy_chars(cs: &[char]) -> (r: Vec<char>)
    ensures
        r@ == cs@,
{
    let mut out: Vec<char> = Vec::new();
    let mut i: usize = 0;
    while i < cs.len()
        invariant
            i <= cs.len(),
            out@ == cs@.subrange(0, i as int),
        decreases cs.len() - i,
    {
        out.push(cs[i]);
        i = i + 1;
        assert(out@ =~= cs@.subrange(0, i as int));
    }
    assert(cs@.subrange(0, i as int) =~= cs@);
    out
}

/// Whether two character strings are equal.
pub fn chars_eq(a: &[char], b: &[char]) -> (r: bool)
    ensures
        r == (a@ == b@),
{
    if a.len() != b.len() {
        return false;
    }
    let mut i: usize = 0;
    while i < a.len()
        invariant
            a@.len() == b@.len(),
            i <= a.len(),
            forall|k: int| 0 <= k < i ==> a@[k] == b@[k],
        decreases a.len() - i,
    {
        if a[i] != b[i] {
            assert(a@[i as int] != b@[i as int]);
            return false;
        }
        i = i + 1;
    }
    assert(a@ =~= b@);
    true
}

/// Appends the characters of `t`.
pub fn push_text(out: &mut String, t: &str)
    ensures
        final(out)@ == old(out)@ + t@,
{
    let cs = chars_of(t);
    let ghost start = out@;
    let mut i: usize = 0;
    while i < cs.len()
        invariant
            i <= cs@.len(),
            cs@ == t@,
            out@ == start + cs@.subrange(0, i as int),
        decreases cs.len() - i,
    {
        push_char(out, cs[i]);
        i = i + 1;
        assert(out@ =~= start + cs@.subrange(0, i as int));
    }
    assert(cs@.subrange(0, i as int) =~= cs@);
}

/// Whether two strings are equal.
pub fn str_eq(a: &str, b: &str) -> (r: bool)
    ensures
        r == (a@ == b@),
{
    let x = chars_of(a);
    let y = chars_of(b);
    if x.len() != y.len() {
        return false;
    }
    let mut i: usize = 0;
    while i < x.len()
        invariant
            x@ == a@,
            y@ == b@,
            x@.len() == y@.len(),
            i <= x.len(),
            forall|k: int| 0 <= k < i ==> x@[k] == y@[k],
        decreases x.len() - i,
    {
        if x[i] != y[i] {
            assert(x@[i as int] != y@[i as int]);
            return false;
        }
        i = i + 1;
    }
    assert(x@ =~= y@);
    true
}

/// Whether `s` begins with `p`.
pub open spec fn seq_starts_with(s: Seq<char>, p: Seq<char>) -> bool {
    p.len() <= s.len() && s.subrange(0, p.len() as int) == p
}

/// Whether `p` occurs in `s`.
pub open spec fn seq_contains(s: Seq<char>, p: Seq<char>) -> bool {
    exists|i: int| 0 <= i && i + p.len() <= s.len() && #[trigger] s.subrange(i, i + p.len()) == p
}

fn matches_at(s: &[char], p: &[char], i: usize) -> (r: bool)
    requires
        i + p.len() <= s.len(),
    ensures
        r == (s@.subrange(i as int, i + p@.len()) == p@),
{
    let mut k: usize = 0;
    while k < p.len()
        invariant
            k <= p.len(),
            i + p.len() <= s.len(),
            forall|j: int| 0 <= j < k ==> s@[i + j] == p@[j],
        decreases p.len() - k,
    {
        if s[i + k] != p[k] {
            assert(s@.subrange(i as int, i + p@.len())[k as int] != p@[k as int]);
            return false;
        }
        k = k + 1;
    }
    assert(s@.subrange(i as int, i + p@.len()) =~= p@);
    true
}

/// Whether `s` begins with `p`.
pub fn starts_with_chars(s: &[char], p: &[char]) -> (r: bool)
    ensures
        r == seq_starts_with(s@, p@),
{
    if p.len() > s.len() {
        return false;
    }
    matches_at(s, p, 0)
}

/// Whether `p` occurs in `s`.
pub fn contains_chars(s: &[char], p: &[char]) -> (r: bool)
    ensures
        r == seq_contains(s@, p@),
{
    if p.len() > s.len() {
        return false;
    }
    let last = s.len() - p.len();
    let mut i: usize = 0;
    loop
        invariant
            p.len() <= s.len(),
            last == s.len() - p.len(),
            i <= last,
            forall|j: int| 0 <= j < i ==> #[trigger] s@.subrange(j, j + p@.len()) != p@,
        decreases last - i,
    {
        if matches_at(s, p, i) {
            return true;
        }
        if i == last {
            return false;
        }
        i = i + 1;
    }
}

/// The index of the first `c` in `s` at or after `i`.
pub fn find_char(s: &[char], c: char, i: usize) -> (r: Option<usize>)
    ensures
        r matches Some(k) ==> find_from(s@, c, i as int) == Some(k as int),
        r is None ==> find_from(s@, c, i as int) is None,
{
    let mut k = i;
    while k < s.len()
        invariant
            i <= k,
            find_from(s@, c, i as int) == find_from(s@, c, k as int),
        decreases s.len() - k,
    {
        if s[k] == c {
            return Some(k);
        }
        k = k + 1;
    }
    None
}

/// The characters of `s` from `start` to `end`.
pub fn slice_chars(s: &[char], start: usize, end: usize) -> (r: Vec<char>)
    requires
        start <= end <= s.len(),
    ensures
        r@ == s@.subrange(start as int, end as int),
{
    let mut out: Vec<char> = Vec::new();
    let mut k = start;
    while k < end
        invariant
            start <= k <= end,
            end <= s.len(),
            out@ == s@.subrange(start as int, k as int),
        decreases end - k,
    {
        out.push(s[k]);
        k = k + 1;
        assert(out@ =~= s@.subrange(start as int, k as int));
    }
    out
}

/// What `str::to_lowercase` makes of a string: Unicode lower case, which may change the
/// number of characters.
pub uninterp spec fn unicode_lowercase(s: Seq<char>) -> Seq<char>;

/// The Unicode lower case of `s` (`str::to_lowercase`).
#[verifier::external_body]
pub fn to_lowercase(s: &str) -> (r: String)
    ensures
        r@ == unicode_lowercase(s@),
{
    s.to_lowercase()
}

/// The value of the first pair whose key is `k`.
pub open spec fn pair_lookup(pairs: Seq<(String, String)>, k: Seq<char>) -> Option<Seq<char>>
    decreases pairs.len(),
{
    if pairs.len() == 0 {
        None
    } else if pairs[0].0@ == k {
        Some(pairs[0].1@)
    } else {
        pair_lookup(pairs.drop_first(), k)
    }
}

proof fn lemma_pair_lookup_push(s: Seq<(String, String)>, x: (String, String), k: Seq<char>)
    ensures
        pair_lookup(s.push(x), k) == match pair_lookup(s, k) {
            Some(v) => Some(v),
            None => if x.0@ == k { Some(x.1@) } else { None },
        },
    decreases s.len(),
{
    assert(s.push(x)[0] == if s.len() > 0 { s[0] } else { x });
    if s.len() > 0 {
        assert(s.push(x).drop_first() == s.drop_first().push(x));
        lemma_pair_lookup_push(s.drop_first(), x, k);
    } else {
        assert(s.push(x).drop_first() =~= Seq::<(String, String)>::empty());
        assert(pair_lookup(Seq::<(String, String)>::empty(), k) is None);
    }
}

/// Sets the value of `key` among string pairs, replacing the value it had.
pub fn pair_upsert(pairs: &mut Vec<(String, String)>, key: String, value: String)
    ensures
        forall|k: Seq<char>| #[trigger] pair_lookup(final(pairs)@, k) == if k == key@ {
            Some(value@)
        } else {
            pair_lookup(old(pairs)@, k)
        },
{
    let ghost k0 = key@;
    let ghost v0 = value@;
    let ghost old_pairs = pairs@;
    let probe = key.clone();
    let mut kept: Vec<(String, String)> = Vec::new();
    kept.push((key, value));
    let mut i: usize = 0;
    proof {
        assert(kept@.drop_first() =~= Seq::<(String, String)>::empty());
        assert(old_pairs.subrange(0, 0) =~= Seq::<(String, String)>::empty());
    }
    while i < pairs.len()
        invariant
            i <= pairs@.len(),
            pairs@ == old_pairs,
            probe@ == k0,
            kept@.len() >= 1,
            kept@[0].0@ == k0,
            kept@[0].1@ == v0,
            forall|k: Seq<char>| k != k0 ==> #[trigger] pair_lookup(kept@, k) == pair_lookup(
                old_pairs.subrange(0, i as int),
                k,
            ),
        decreases pairs.len() - i,
    {
        let ghost before = kept@;
        let ghost entry = old_pairs[i as int];
        proof {
            assert(old_pairs.subrange(0, i + 1) == old_pairs.subrange(0, i as int).push(entry));
        }
        if !str_eq(pairs[i].0.as_str(), probe.as_str()) {
            let e = (pairs[i].0.clone(), pairs[i].1.clone());
            kept.push(e);
            proof {
                assert forall|k: Seq<char>| k != k0 implies #[trigger] pair_lookup(kept@, k) == pair_lookup(
                    old_pairs.subrange(0, i + 1),
                    k,
                ) by {
                    lemma_pair_lookup_push(before, e, k);
                    lemma_pair_lookup_push(old_pairs.subrange(0, i as int), entry, k);
                }
            }
        } else {
            proof {
                assert forall|k: Seq<char>| k != k0 implies #[trigger] pair_lookup(kept@, k) == pair_lookup(
                    old_pairs.subrange(0, i + 1),
                    k,
                ) by {
                    lemma_pair_lookup_push(old_pairs.subrange(0, i as int), entry, k);
                }
            }
        }
        i = i + 1;
    }
    proof {
        assert(old_pairs.subrange(0, i as int) == old_pairs);
        assert(pair_lookup(kept@, k0) == Some(v0));
    }
    *pairs = kept;
}

} // verus!