//! The text form of a search filter (RFC 4515), as an LDAP library takes it.
use vstd::prelude::*;
use vstd::utf8::encode_utf8;
use crate::text::{chars_of, string_from_chars};
use crate::wire::concat_map;
use super::model::{Filter, FilterModel, Substring, SubstringModel, filters_model, substrings_model};

verus! {

/// The lower-case hexadecimal digit for `n`.
pub open spec fn hex_digit(n: int) -> char {
    if n < 10 {
        ((48 + n) as u8) as char
    } else {
        ((87 + n) as u8) as char
    }
}

/// A byte of a value in a filter: the characters `(`, `)`, `*`, `\` and NUL as `\` and two
/// hexadecimal digits, any other byte as the character of the same number.
pub open spec fn escape_byte(b: u8) -> Seq<char> {
    if b == 0x28 || b == 0x29 || b == 0x2a || b == 0x5c || b == 0 {
        seq!['\\', hex_digit(b as int / 16), hex_digit(b as int % 16)]
    } else {
        seq![b as char]
    }
}

/// A value escaped for a filter.
pub open spec fn escape_value(v: Seq<u8>) -> Seq<char> {
    concat_map(v, |b: u8| escape_byte(b))
}

/// The text of one substring assertion: its escaped value and a `*`.
pub open spec fn substring_text(s: SubstringModel) -> Seq<char> {
    match s {
        SubstringModel::Initial(v) => escape_value(encode_utf8(v)).push('*'),
        SubstringModel::Any(v) => escape_value(encode_utf8(v)).push('*'),
        SubstringModel::Final(v) => escape_value(encode_utf8(v)).push('*'),
    }
}

/// `(`, the attribute, the operator, the escaped value, `)`.
pub open spec fn simple_text(attr: Seq<char>, op: Seq<char>, value: Seq<u8>) -> Seq<char> {
    seq!['('] + attr + op + escape_value(value) + seq![')']
}

/// The text of a filter.
pub open spec fn filter_text(f: FilterModel) -> Seq<char>
    decreases f,
{
    match f {
        FilterModel::And(fs) => seq!['(', '&'] + filter_list_text(fs) + seq![')'],
        FilterModel::Or(fs) => seq!['(', '|'] + filter_list_text(fs) + seq![')'],
        FilterModel::Not(b) => seq!['(', '!'] + filter_text(*b) + seq![')'],
        FilterModel::Equality(a) => simple_text(a.attribute, seq!['='], a.value),
        FilterModel::Substrings(attr, subs) => seq!['('] + attr + seq!['='] + concat_map(
            subs,
            |s: SubstringModel| substring_text(s),
        ) + seq![')'],
        FilterModel::GreaterOrEqual(a) => simple_text(a.attribute, seq!['>', '='], a.value),
        FilterModel::LessOrEqual(a) => simple_text(a.attribute, seq!['<', '='], a.value),
        FilterModel::Present(attr) => seq!['('] + attr + seq!['=', '*', ')'],
        FilterModel::Approx(a) => simple_text(a.attribute, seq!['~', '='], a.value),
        FilterModel::Extensible(e) => seq!['('] + (match e.attribute {
            Some(a) => a,
            None => Seq::empty(),
        }) + seq![':'] + (if e.dn_attributes { seq![':', 'd', 'n'] } else { Seq::empty() }) + seq![':'] + (match e.matching_rule {
            Some(r) => r,
            None => Seq::empty(),
        }) + seq![':', '='] + escape_value(e.value) + seq![')'],
    }
}

/// The texts of filters, one after another.
pub open spec fn filter_list_text(fs: Seq<FilterModel>) -> Seq<char>
    decreases fs,
{
    if fs.len() == 0 {
        Seq::empty()
    } else {
        filter_list_text(fs.subrange(0, fs.len() - 1)) + filter_text(fs[fs.len() - 1])
    }
}

fn push_all(out: &mut Vec<char>, cs: &[char])
    ensures
        final(out)@ == old(out)@ + cs@,
{
    let ghost start = out@;
    let mut i: usize = 0;
    while i < cs.len()
        invariant
            i <= cs.len(),
            out@ == start + cs@.subrange(0, i as int),
        decreases cs.len() - i,
    {
        out.push(cs[i]);
        i = i + 1;
        assert(out@ =~= start + cs@.subrange(0, i as int));
    }
    assert(cs@.subrange(0, i as int) =~= cs@);
}

fn push_str_chars(out: &mut Vec<char>, s: &str)
    ensures
        final(out)@ == old(out)@ + s@,
{
    let cs = chars_of(s);
    push_all(out, cs.as_slice());
}

fn hex_char(n: u8) -> (c: char)
    requires
        n < 16,
    ensures
        c == hex_digit(n as int),
{
    if n < 10 {
        (48 + n) as char
    } else {
        (87 + n) as char
    }
}

fn push_escaped(out: &mut Vec<char>, v: &[u8])
    ensures
        final(out)@ == old(out)@ + escape_value(v@),
{
    let ghost start = out@;
    let mut i: usize = 0;
    while i < v.len()
        invariant
            i <= v.len(),
            out@ == start + escape_value(v@.subrange(0, i as int)),
        decreases v.len() - i,
    {
        let b = v[i];
        if b == 0x28 || b == 0x29 || b == 0x2a || b == 0x5c || b == 0 {
            out.push('\\');
            out.push(hex_char(b / 16));
            out.push(hex_char(b % 16));
        } else {
            out.push(b as char);
        }
        proof {
            crate::wire::lemma_concat_map_push(v@.subrange(0, i as int), b, |b: u8| escape_byte(b));
            assert(v@.subrange(0, i + 1) =~= v@.subrange(0, i as int).push(b));
        }
        i = i + 1;
        assert(out@ =~= start + escape_value(v@.subrange(0, i as int)));
    }
    assert(v@.subrange(0, i as int) =~= v@);
}

/// The filter value escaped (`\` and hexadecimal digits for special bytes).
pub fn ldap_escape_filter_value(value: &[u8]) -> (r: String)
    ensures
        r@ == escape_value(value@),
{
    let mut out: Vec<char> = Vec::new();
    push_escaped(&mut out, value);
    assert(out@ =~= escape_value(value@));
    string_from_chars(out.as_slice())
}

/// The text escaped as a filter value.
pub fn ldap_escape_filter_str(value: &str) -> (r: String)
    ensures
        r@ == escape_value(encode_utf8(value@)),
{
    ldap_escape_filter_value(value.as_bytes())
}

fn push_simple(out: &mut Vec<char>, attr: &str, op: &str, value: &[u8])
    ensures
        final(out)@ == old(out)@ + simple_text(attr@, op@, value@),
{
    let ghost start = out@;
    out.push('(');
    push_str_chars(out, attr);
    push_str_chars(out, op);
    push_escaped(out, value);
    out.push(')');
    assert(out@ =~= start + simple_text(attr@, op@, value@));
}

proof fn lemma_filter_list_text_push(fs: Seq<FilterModel>, f: FilterModel)
    ensures
        filter_list_text(fs.push(f)) == filter_list_text(fs) + filter_text(f),
{
    assert(fs.push(f).subrange(0, fs.len() as int) =~= fs);
}

fn push_filter_list_text(out: &mut Vec<char>, items: &Vec<Filter>)
    ensures
        final(out)@ == old(out)@ + filter_list_text(filters_model(items@)),
    decreases items,
{
    let ghost start = out@;
    let mut i: usize = 0;
    while i < items.len()
        invariant
            i <= items.len(),
            out@ == start + filter_list_text(filters_model(items@.subrange(0, i as int))),
        decreases items.len() - i,
    {
        assert(decreases_to!(items => items@[i as int]));
        push_filter_text(out, &items[i]);
        proof {
            let pre = items@.subrange(0, i as int);
            assert(items@.subrange(0, i + 1) =~= pre.push(items@[i as int]));
            assert(pre.push(items@[i as int]).subrange(0, pre.len() as int) =~= pre);
            assert(filters_model(pre.push(items@[i as int])) == filters_model(pre).push(items@[i as int]@));
            lemma_filter_list_text_push(filters_model(pre), items@[i as int]@);
        }
        i = i + 1;
    }
    assert(items@.subrange(0, i as int) =~= items@);
}

fn push_substrings_text(out: &mut Vec<char>, attribute: &str, substrings: &Vec<Substring>)
    ensures
        final(out)@ == old(out)@ + filter_text(FilterModel::Substrings(attribute@, substrings_model(substrings@))),
{
    let ghost start = out@;
    out.push('(');
    push_str_chars(out, attribute);
    out.push('=');
    let ghost mid = out@;
    let mut i: usize = 0;
    while i < substrings.len()
        invariant
            i <= substrings.len(),
            out@ == mid + concat_map(substrings_model(substrings@.subrange(0, i as int)), |s: SubstringModel| substring_text(s)),
        decreases substrings.len() - i,
    {
        let v: &str = match &substrings[i] {
            Substring::Initial(v) => v.as_str(),
            Substring::Any(v) => v.as_str(),
            Substring::Final(v) => v.as_str(),
        };
        push_escaped(out, v.as_bytes());
        out.push('*');
        proof {
            let pre = substrings_model(substrings@.subrange(0, i as int));
            crate::wire::lemma_concat_map_push(pre, substrings@[i as int]@, |s: SubstringModel| substring_text(s));
            assert(substrings_model(substrings@.subrange(0, i + 1)) =~= pre.push(substrings@[i as int]@));
        }
        i = i + 1;
    }
    assert(substrings@.subrange(0, i as int) =~= substrings@);
    out.push(')');
    assert(out@ =~= start + filter_text(FilterModel::Substrings(attribute@, substrings_model(substrings@))));
}

fn push_extensible_text(out: &mut Vec<char>, e: &super::model::ExtensibleMatch)
    ensures
        final(out)@ == old(out)@ + filter_text(FilterModel::Extensible(e@)),
{
    let ghost start = out@;
    out.push('(');
    if let Some(a) = &e.attribute {
        push_str_chars(out, a.as_str());
    }
    out.push(':');
    if e.dn_attributes {
        out.push(':');
        out.push('d');
        out.push('n');
    }
    out.push(':');
    if let Some(r) = &e.matching_rule {
        push_str_chars(out, r.as_str());
    }
    out.push(':');
    out.push('=');
    push_escaped(out, e.value.as_slice());
    out.push(')');
    assert(out@ =~= start + filter_text(FilterModel::Extensible(e@)));
}

#[verifier::rlimit(30)]
fn push_filter_text(out: &mut Vec<char>, f: &Filter)
    ensures
        final(out)@ == old(out)@ + filter_text(f@),
    decreases f,
{
    let ghost start = out@;
    match f {
        Filter::And(items) => {
            out.push('(');
            out.push('&');
            push_filter_list_text(out, items);
            out.push(')');
            assert(out@ =~= start + filter_text(f@));
        },
        Filter::Or(items) => {
            out.push('(');
            out.push('|');
            push_filter_list_text(out, items);
            out.push(')');
            assert(out@ =~= start + filter_text(f@));
        },
        Filter::Not(inner) => {
            out.push('(');
            out.push('!');
            let g: &Filter = inner;
            push_filter_text(out, g);
            out.push(')');
            assert(out@ =~= start + filter_text(f@));
        },
        Filter::Equality(a) => {
            proof {
                reveal_strlit("=");
            }
            assert("="@ =~= seq!['=']);
            push_simple(out, a.attribute.as_str(), "=", a.value.as_slice());
        },
        Filter::GreaterOrEqual(a) => {
            proof {
                reveal_strlit(">=");
            }
            assert(">="@ =~= seq!['>', '=']);
            push_simple(out, a.attribute.as_str(), ">=", a.value.as_slice());
        },
        Filter::LessOrEqual(a) => {
            proof {
                reveal_strlit("<=");
            }
            assert("<="@ =~= seq!['<', '=']);
            push_simple(out, a.attribute.as_str(), "<=", a.value.as_slice());
        },
        Filter::Approx(a) => {
            proof {
                reveal_strlit("~=");
            }
            assert("~="@ =~= seq!['~', '=']);
            push_simple(out, a.attribute.as_str(), "~=", a.value.as_slice());
        },
        Filter::Present(attr) => {
            out.push('(');
            push_str_chars(out, attr.as_str());
            out.push('=');
            out.push('*');
            out.push(')');
            assert(out@ =~= start + filter_text(f@));
        },
        Filter::Substrings { attribute, substrings } => push_substrings_text(out, attribute.as_str(), substrings),
        Filter::Extensible(e) => push_extensible_text(out, e),
    }
}

/// The text form of a filter.
pub fn ldap_filter_to_string(filter: &Filter) -> (r: String)
    ensures
        r@ == filter_text(filter@),
{
    let mut out: Vec<char> = Vec::new();
    push_filter_text(&mut out, filter);
    assert(out@ =~= filter_text(filter@));
    string_from_chars(out.as_slice())
}

} // verus!
