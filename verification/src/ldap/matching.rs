//! What a search filter selects, and which attributes a search returns.
use vstd::prelude::*;
use vstd::utf8::{valid_utf8, decode_utf8, encode_utf8};
use crate::text::{chars_eq, ascii_lower_str, chars_of, char_is_whitespace, eq_ignore_ascii_case, eq_ignore_case, is_whitespace, lossy_text, lower_chars, string_from_utf8, string_from_utf8_lossy};
use crate::wire::bytes_eq;
use super::model::{Attribute, AttributeModel, AttributeValueAssertion, AvaModel, EntryModel, ExtensibleModel, Filter, FilterModel, SearchResultEntry, Substring, SubstringModel, attributes_model, copy_bytes, filters_model, strings_model, substrings_model};

verus! {

/// Two values are equal: as text ignoring ASCII case when both are UTF-8, else as bytes.
pub open spec fn values_equal(a: Seq<u8>, b: Seq<u8>) -> bool {
    if valid_utf8(a) && valid_utf8(b) {
        eq_ignore_case(decode_utf8(a), decode_utf8(b))
    } else {
        a == b
    }
}

/// Text without white space, in ASCII lower case.
pub open spec fn approx_norm(s: Seq<char>) -> Seq<char> {
    ascii_lower_str(s.filter(|c: char| !is_whitespace(c)))
}

/// Two values are approximately equal: as text with white space removed and ASCII case
/// ignored when both are UTF-8, else as bytes.
pub open spec fn approx_equal(a: Seq<u8>, b: Seq<u8>) -> bool {
    if valid_utf8(a) && valid_utf8(b) {
        approx_norm(decode_utf8(a)) == approx_norm(decode_utf8(b))
    } else {
        a == b
    }
}

/// Lexicographic order of texts (the order of `String`).
pub open spec fn text_lt(a: Seq<char>, b: Seq<char>) -> bool
    decreases a.len(),
{
    if a.len() == 0 {
        b.len() > 0
    } else if b.len() == 0 {
        false
    } else if a[0] != b[0] {
        (a[0] as u32) < (b[0] as u32)
    } else {
        text_lt(a.drop_first(), b.drop_first())
    }
}

/// Whether `h` starts with `n`.
pub open spec fn starts_with_bytes(h: Seq<u8>, n: Seq<u8>) -> bool {
    n.len() <= h.len() && h.subrange(0, n.len() as int) == n
}

/// Whether `h` ends with `n`.
pub open spec fn ends_with_bytes(h: Seq<u8>, n: Seq<u8>) -> bool {
    n.len() <= h.len() && h.subrange(h.len() - n.len(), h.len() as int) == n
}

/// The first position at or after `i` where `n` occurs in `h`.
pub open spec fn find_bytes_from(h: Seq<u8>, n: Seq<u8>, i: int) -> Option<int>
    decreases h.len() - i,
{
    if i < 0 || i + n.len() > h.len() {
        None
    } else if h.subrange(i, i + n.len()) == n {
        Some(i)
    } else if i >= h.len() {
        None
    } else {
        find_bytes_from(h, n, i + 1)
    }
}

/// Whether `v` matches the substring assertions from position `pos` on: an initial part
/// must start the value, each middle part must follow the previous match, and a final
/// part must end what is left.
pub open spec fn subs_match(v: Seq<u8>, subs: Seq<SubstringModel>, pos: int) -> bool
    decreases subs.len(),
{
    if subs.len() == 0 {
        true
    } else {
        match subs[0] {
            SubstringModel::Initial(s) => starts_with_bytes(v, encode_utf8(s)) && subs_match(
                v,
                subs.drop_first(),
                encode_utf8(s).len() as int,
            ),
            SubstringModel::Any(s) => match find_bytes_from(v, encode_utf8(s), pos) {
                Some(f) => subs_match(v, subs.drop_first(), f + encode_utf8(s).len()),
                None => false,
            },
            SubstringModel::Final(s) => ends_with_bytes(v.subrange(pos, v.len() as int), encode_utf8(s)),
        }
    }
}

/// Some attribute named `name` (ignoring case) has a value equal to `value`.
pub open spec fn has_equal_value(e: EntryModel, name: Seq<char>, value: Seq<u8>) -> bool {
    exists|i: int, j: int|
        0 <= i < e.attributes.len() && eq_ignore_case(e.attributes[i].name, name) && 0 <= j < e.attributes[i].values.len()
            && values_equal(#[trigger] e.attributes[i].values[j], value)
}

/// Some attribute named `name` has a value approximately equal to `value`.
pub open spec fn has_approx_value(e: EntryModel, name: Seq<char>, value: Seq<u8>) -> bool {
    exists|i: int, j: int|
        0 <= i < e.attributes.len() && eq_ignore_case(e.attributes[i].name, name) && 0 <= j < e.attributes[i].values.len()
            && approx_equal(#[trigger] e.attributes[i].values[j], value)
}

/// Some attribute named `name` has a value whose text is at least (`ge`) or at most
/// (`!ge`) the text of `value`.
pub open spec fn has_ordered_value(e: EntryModel, name: Seq<char>, value: Seq<u8>, ge: bool) -> bool {
    exists|i: int, j: int|
        0 <= i < e.attributes.len() && eq_ignore_case(e.attributes[i].name, name) && 0 <= j < e.attributes[i].values.len()
            && (if ge {
            !text_lt(lossy_text(#[trigger] e.attributes[i].values[j]), lossy_text(value))
        } else {
            !text_lt(lossy_text(value), lossy_text(e.attributes[i].values[j]))
        })
}

/// Some attribute named `name` has a UTF-8 value that matches the substring assertions.
pub open spec fn has_substring_value(e: EntryModel, name: Seq<char>, subs: Seq<SubstringModel>) -> bool {
    exists|i: int, j: int|
        0 <= i < e.attributes.len() && eq_ignore_case(e.attributes[i].name, name) && 0 <= j < e.attributes[i].values.len()
            && valid_utf8(#[trigger] e.attributes[i].values[j]) && subs_match(e.attributes[i].values[j], subs, 0)
}

/// Some attribute is named `name`.
pub open spec fn has_attribute(e: EntryModel, name: Seq<char>) -> bool {
    exists|i: int| 0 <= i < e.attributes.len() && eq_ignore_case(#[trigger] e.attributes[i].name, name)
}

/// Whether the entry satisfies the filter.
pub open spec fn filter_matches(f: FilterModel, e: EntryModel) -> bool
    decreases f,
{
    match f {
        FilterModel::And(fs) => all_match(fs, e),
        FilterModel::Or(fs) => any_match(fs, e),
        FilterModel::Not(b) => !filter_matches(*b, e),
        FilterModel::Equality(a) => has_equal_value(e, a.attribute, a.value),
        FilterModel::GreaterOrEqual(a) => has_ordered_value(e, a.attribute, a.value, true),
        FilterModel::LessOrEqual(a) => has_ordered_value(e, a.attribute, a.value, false),
        FilterModel::Present(name) => has_attribute(e, name),
        FilterModel::Approx(a) => has_approx_value(e, a.attribute, a.value),
        FilterModel::Substrings(name, subs) => has_substring_value(e, name, subs),
        FilterModel::Extensible(x) => match x.attribute {
            Some(name) => has_equal_value(e, name, x.value),
            None => false,
        },
    }
}

/// Every filter of the list is satisfied.
pub open spec fn all_match(fs: Seq<FilterModel>, e: EntryModel) -> bool
    decreases fs,
{
    fs.len() == 0 || (filter_matches(fs[fs.len() - 1], e) && all_match(fs.subrange(0, fs.len() - 1), e))
}

/// Some filter of the list is satisfied.
pub open spec fn any_match(fs: Seq<FilterModel>, e: EntryModel) -> bool
    decreases fs,
{
    fs.len() > 0 && (filter_matches(fs[fs.len() - 1], e) || any_match(fs.subrange(0, fs.len() - 1), e))
}

/// Whether two values are equal in the sense of `values_equal`.
pub fn values_equal_exec(a: &Vec<u8>, b: &Vec<u8>) -> (r: bool)
    ensures
        r == values_equal(a@, b@),
{
    match (string_from_utf8(copy_bytes(a)), string_from_utf8(copy_bytes(b))) {
        (Some(sa), Some(sb)) => eq_ignore_ascii_case(sa.as_str(), sb.as_str()),
        _ => bytes_eq(a.as_slice(), b.as_slice()),
    }
}

fn approx_normalize(s: &str) -> (r: Vec<char>)
    ensures
        r@ == approx_norm(s@),
{
    let cs = chars_of(s);
    let mut kept: Vec<char> = Vec::new();
    let mut i: usize = 0;
    while i < cs.len()
        invariant
            i <= cs.len(),
            cs@ == s@,
            kept@ == cs@.subrange(0, i as int).filter(|c: char| !is_whitespace(c)),
        decreases cs.len() - i,
    {
        let c = cs[i];
        proof {
            reveal(Seq::filter);
            assert(cs@.subrange(0, i + 1).drop_last() =~= cs@.subrange(0, i as int));
        }
        if !char_is_whitespace(c) {
            kept.push(c);
        }
        i = i + 1;
    }
    assert(cs@.subrange(0, i as int) =~= cs@);
    lower_chars(kept.as_slice())
}

fn approx_equal_exec(a: &Vec<u8>, b: &Vec<u8>) -> (r: bool)
    ensures
        r == approx_equal(a@, b@),
{
    match (string_from_utf8(copy_bytes(a)), string_from_utf8(copy_bytes(b))) {
        (Some(sa), Some(sb)) => {
            let na = approx_normalize(sa.as_str());
            let nb = approx_normalize(sb.as_str());
            chars_eq(na.as_slice(), nb.as_slice())
        },
        _ => bytes_eq(a.as_slice(), b.as_slice()),
    }
}

fn text_less(a: &[char], b: &[char]) -> (r: bool)
    ensures
        r == text_lt(a@, b@),
{
    let mut i: usize = 0;
    assert(a@.subrange(0, a@.len() as int) =~= a@);
    assert(b@.subrange(0, b@.len() as int) =~= b@);
    while i < a.len() && i < b.len() && a[i] == b[i]
        invariant
            i <= a.len(),
            i <= b.len(),
            text_lt(a@, b@) == text_lt(a@.subrange(i as int, a@.len() as int), b@.subrange(i as int, b@.len() as int)),
        decreases a.len() - i,
    {
        proof {
            let sa = a@.subrange(i as int, a@.len() as int);
            let sb = b@.subrange(i as int, b@.len() as int);
            assert(sa.drop_first() =~= a@.subrange(i + 1, a@.len() as int));
            assert(sb.drop_first() =~= b@.subrange(i + 1, b@.len() as int));
        }
        i = i + 1;
    }
    let ghost sa = a@.subrange(i as int, a@.len() as int);
    if i == a.len() {
        i < b.len()
    } else if i == b.len() {
        false
    } else {
        assert(sa[0] == a@[i as int]);
        (a[i] as u32) < (b[i] as u32)
    }
}

fn ordered_holds(value: &Vec<u8>, target: &Vec<char>, ge: bool) -> (r: bool)
    ensures
        r == (if ge {
            !text_lt(lossy_text(value@), target@)
        } else {
            !text_lt(target@, lossy_text(value@))
        }),
{
    let s = string_from_utf8_lossy(value.as_slice());
    let vc = chars_of(s.as_str());
    if ge {
        !text_less(vc.as_slice(), target.as_slice())
    } else {
        !text_less(target.as_slice(), vc.as_slice())
    }
}

fn starts_with_exec(h: &[u8], n: &[u8]) -> (r: bool)
    ensures
        r == starts_with_bytes(h@, n@),
{
    if n.len() > h.len() {
        return false;
    }
    let prefix = &h[0..n.len()];
    let r = bytes_eq(prefix, n);
    assert(h@.subrange(0, n@.len() as int) == prefix@);
    r
}

fn find_from_exec(h: &[u8], n: &[u8], i: usize) -> (r: Option<usize>)
    requires
        i <= h.len(),
    ensures
        match r {
            Some(f) => find_bytes_from(h@, n@, i as int) == Some(f as int),
            None => find_bytes_from(h@, n@, i as int) is None,
        },
    decreases h.len() - i,
{
    if n.len() > h.len() - i {
        return None;
    }
    if bytes_eq(&h[i..i + n.len()], n) {
        Some(i)
    } else if i == h.len() {
        None
    } else {
        find_from_exec(h, n, i + 1)
    }
}

proof fn lemma_find_bytes(h: Seq<u8>, n: Seq<u8>, i: int)
    ensures
        find_bytes_from(h, n, i) matches Some(f) ==> i <= f && f + n.len() <= h.len(),
    decreases h.len() - i,
{
    if !(i < 0 || i + n.len() > h.len()) && h.subrange(i, i + n.len()) != n && i < h.len() {
        lemma_find_bytes(h, n, i + 1);
    }
}

fn subs_match_exec(v: &[u8], subs: &[Substring], k: usize, pos: usize) -> (r: bool)
    requires
        k <= subs.len(),
        pos <= v.len(),
    ensures
        r == subs_match(v@, substrings_model(subs@.subrange(k as int, subs@.len() as int)), pos as int),
    decreases subs.len() - k,
{
    let ghost rest = substrings_model(subs@.subrange(k as int, subs@.len() as int));
    if k == subs.len() {
        assert(rest.len() == 0);
        return true;
    }
    proof {
        assert(rest[0] == subs@[k as int]@);
        assert(rest.drop_first() =~= substrings_model(subs@.subrange(k + 1, subs@.len() as int)));
    }
    match &subs[k] {
        Substring::Initial(s) => {
            let sb = s.as_str().as_bytes();
            if !starts_with_exec(v, sb) {
                return false;
            }
            subs_match_exec(v, subs, k + 1, sb.len())
        },
        Substring::Any(s) => {
            let sb = s.as_str().as_bytes();
            match find_from_exec(v, sb, pos) {
                Some(f) => {
                    proof {
                        lemma_find_bytes(v@, sb@, pos as int);
                    }
                    subs_match_exec(v, subs, k + 1, f + sb.len())
                },
                None => false,
            }
        },
        Substring::Final(s) => {
            let sb = s.as_str().as_bytes();
            let tail = &v[pos..v.len()];
            if sb.len() > tail.len() {
                return false;
            }
            let r = bytes_eq(&tail[tail.len() - sb.len()..tail.len()], sb);
            assert(v@.subrange(pos as int, v@.len() as int) == tail@);
            r
        },
    }
}

/// How an entry's values are tested against a filter's value.
pub enum ValueTest {
    Equal,
    Approx,
    AtLeast,
    AtMost,
}

/// Whether some attribute named `name` has a value that passes the test against `value`.
fn attr_test(e: &SearchResultEntry, name: &str, value: &Vec<u8>, test: &ValueTest) -> (r: bool)
    ensures
        r == match test {
            ValueTest::Equal => has_equal_value(e@, name@, value@),
            ValueTest::Approx => has_approx_value(e@, name@, value@),
            ValueTest::AtLeast => has_ordered_value(e@, name@, value@, true),
            ValueTest::AtMost => has_ordered_value(e@, name@, value@, false),
        },
{
    let target = chars_of(string_from_utf8_lossy(value.as_slice()).as_str());
    let mut i: usize = 0;
    while i < e.attributes.len()
        invariant
            i <= e.attributes.len(),
            target@ == lossy_text(value@),
            forall|a: int, j: int|
                0 <= a < i && eq_ignore_case(e@.attributes[a].name, name@) && 0 <= j < e@.attributes[a].values.len()
                    ==> !(match test {
                    ValueTest::Equal => values_equal(e@.attributes[a].values[j], value@),
                    ValueTest::Approx => approx_equal(e@.attributes[a].values[j], value@),
                    ValueTest::AtLeast => !text_lt(lossy_text(e@.attributes[a].values[j]), lossy_text(value@)),
                    ValueTest::AtMost => !text_lt(lossy_text(value@), lossy_text(e@.attributes[a].values[j])),
                }),
        decreases e.attributes.len() - i,
    {
        let attr = &e.attributes[i];
        assert(e@.attributes[i as int] == attr@);
        if eq_ignore_ascii_case(attr.name.as_str(), name) {
            let mut j: usize = 0;
            while j < attr.values.len()
                invariant
                    j <= attr.values.len(),
                    i < e.attributes.len(),
                    attr@ == e@.attributes[i as int],
                    eq_ignore_case(attr@.name, name@),
                    target@ == lossy_text(value@),
                    forall|k: int|
                        0 <= k < j ==> !(match test {
                            ValueTest::Equal => values_equal(attr@.values[k], value@),
                            ValueTest::Approx => approx_equal(attr@.values[k], value@),
                            ValueTest::AtLeast => !text_lt(lossy_text(attr@.values[k]), lossy_text(value@)),
                            ValueTest::AtMost => !text_lt(lossy_text(value@), lossy_text(attr@.values[k])),
                        }),
                decreases attr.values.len() - j,
            {
                let v = &attr.values[j];
                assert(attr@.values[j as int] == v@);
                let hit = match test {
                    ValueTest::Equal => values_equal_exec(v, value),
                    ValueTest::Approx => approx_equal_exec(v, value),
                    ValueTest::AtLeast => ordered_holds(v, &target, true),
                    ValueTest::AtMost => ordered_holds(v, &target, false),
                };
                if hit {
                    assert(e@.attributes[i as int].values[j as int] == v@);
                    return true;
                }
                j = j + 1;
            }
        }
        i = i + 1;
    }
    false
}

/// Whether some attribute named `name` has a value equal to `value`.
pub fn attr_equal_pub(e: &SearchResultEntry, name: &str, value: &Vec<u8>) -> (r: bool)
    ensures
        r == has_equal_value(e@, name@, value@),
{
    attr_test(e, name, value, &ValueTest::Equal)
}

/// Whether some attribute named `name` has a UTF-8 value matching the substring assertions.
fn attr_substrings(e: &SearchResultEntry, name: &str, subs: &Vec<Substring>) -> (r: bool)
    ensures
        r == has_substring_value(e@, name@, substrings_model(subs@)),
{
    let mut i: usize = 0;
    while i < e.attributes.len()
        invariant
            i <= e.attributes.len(),
            forall|a: int, j: int|
                0 <= a < i && eq_ignore_case(e@.attributes[a].name, name@) && 0 <= j < e@.attributes[a].values.len()
                    ==> !(valid_utf8(e@.attributes[a].values[j]) && subs_match(e@.attributes[a].values[j], substrings_model(subs@), 0)),
        decreases e.attributes.len() - i,
    {
        let attr = &e.attributes[i];
        assert(e@.attributes[i as int] == attr@);
        if eq_ignore_ascii_case(attr.name.as_str(), name) {
            let mut j: usize = 0;
            while j < attr.values.len()
                invariant
                    j <= attr.values.len(),
                    i < e.attributes.len(),
                    attr@ == e@.attributes[i as int],
                    eq_ignore_case(attr@.name, name@),
                    forall|k: int|
                        0 <= k < j ==> !(valid_utf8(attr@.values[k]) && subs_match(attr@.values[k], substrings_model(subs@), 0)),
                decreases attr.values.len() - j,
            {
                let v = &attr.values[j];
                assert(attr@.values[j as int] == v@);
                if string_from_utf8(copy_bytes(v)).is_some() {
                    assert(subs@.subrange(0, subs@.len() as int) =~= subs@);
                    if subs_match_exec(v.as_slice(), subs.as_slice(), 0, 0) {
                        assert(e@.attributes[i as int].values[j as int] == v@);
                        return true;
                    }
                }
                j = j + 1;
            }
        }
        i = i + 1;
    }
    false
}

/// Whether some attribute is named `name`.
fn attr_present(e: &SearchResultEntry, name: &str) -> (r: bool)
    ensures
        r == has_attribute(e@, name@),
{
    let mut i: usize = 0;
    while i < e.attributes.len()
        invariant
            i <= e.attributes.len(),
            forall|a: int| 0 <= a < i ==> !eq_ignore_case(#[trigger] e@.attributes[a].name, name@),
        decreases e.attributes.len() - i,
    {
        assert(e@.attributes[i as int] == e.attributes[i as int]@);
        if eq_ignore_ascii_case(e.attributes[i].name.as_str(), name) {
            assert(eq_ignore_case(e@.attributes[i as int].name, name@));
            return true;
        }
        i = i + 1;
    }
    false
}

/// Whether the entry satisfies the filter.
pub fn filter_match(filter: &Filter, entry: &SearchResultEntry) -> (r: bool)
    ensures
        r == filter_matches(filter@, entry@),
    decreases filter,
{
    match filter {
        Filter::And(items) => all_filters(items, entry),
        Filter::Or(items) => any_filter(items, entry),
        Filter::Not(inner) => {
            let f: &Filter = inner;
            !filter_match(f, entry)
        },
        Filter::Equality(ava) => attr_test(entry, ava.attribute.as_str(), &ava.value, &ValueTest::Equal),
        Filter::GreaterOrEqual(ava) => attr_test(entry, ava.attribute.as_str(), &ava.value, &ValueTest::AtLeast),
        Filter::LessOrEqual(ava) => attr_test(entry, ava.attribute.as_str(), &ava.value, &ValueTest::AtMost),
        Filter::Present(attr) => attr_present(entry, attr.as_str()),
        Filter::Approx(ava) => attr_test(entry, ava.attribute.as_str(), &ava.value, &ValueTest::Approx),
        Filter::Substrings { attribute, substrings } => attr_substrings(entry, attribute.as_str(), substrings),
        Filter::Extensible(ext) => match &ext.attribute {
            Some(attr) => attr_test(entry, attr.as_str(), &ext.value, &ValueTest::Equal),
            None => false,
        },
    }
}

proof fn lemma_filters_model_len(s: Seq<Filter>)
    ensures
        filters_model(s).len() == s.len(),
    decreases s.len(),
{
    if s.len() > 0 {
        lemma_filters_model_len(s.subrange(0, s.len() - 1));
    }
}

fn all_filters(items: &Vec<Filter>, entry: &SearchResultEntry) -> (r: bool)
    ensures
        r == all_match(filters_model(items@), entry@),
    decreases items,
{
    let mut i: usize = 0;
    while i < items.len()
        invariant
            i <= items.len(),
            all_match(filters_model(items@.subrange(0, i as int)), entry@),
        decreases items.len() - i,
    {
        assert(decreases_to!(items => items@[i as int]));
        let ok = filter_match(&items[i], entry);
        proof {
            let pre = items@.subrange(0, i + 1);
            assert(pre.subrange(0, pre.len() - 1) =~= items@.subrange(0, i as int));
            lemma_filters_model_len(pre);
            lemma_filters_model_len(items@.subrange(0, i as int));
            assert(filters_model(pre).subrange(0, i as int) =~= filters_model(items@.subrange(0, i as int)));
        }
        if !ok {
            proof {
                lemma_filters_model_prefix(items@, i + 1);
                let fm = filters_model(items@);
                assert(fm.subrange(0, i + 1)[i as int] == items@[i as int]@);
                assert(!all_match(fm.subrange(0, i + 1), entry@));
                lemma_all_prefix(fm, i as int, entry@);
            }
            return false;
        }
        i = i + 1;
    }
    assert(items@.subrange(0, i as int) =~= items@);
    true
}

fn any_filter(items: &Vec<Filter>, entry: &SearchResultEntry) -> (r: bool)
    ensures
        r == any_match(filters_model(items@), entry@),
    decreases items,
{
    let mut i: usize = 0;
    while i < items.len()
        invariant
            i <= items.len(),
            !any_match(filters_model(items@.subrange(0, i as int)), entry@),
        decreases items.len() - i,
    {
        assert(decreases_to!(items => items@[i as int]));
        let ok = filter_match(&items[i], entry);
        proof {
            let pre = items@.subrange(0, i + 1);
            assert(pre.subrange(0, pre.len() - 1) =~= items@.subrange(0, i as int));
            lemma_filters_model_len(pre);
            lemma_filters_model_len(items@.subrange(0, i as int));
            assert(filters_model(pre).subrange(0, i as int) =~= filters_model(items@.subrange(0, i as int)));
        }
        if ok {
            proof {
                lemma_filters_model_prefix(items@, i + 1);
                let fm = filters_model(items@);
                assert(fm.subrange(0, i + 1)[i as int] == items@[i as int]@);
                assert(any_match(fm.subrange(0, i + 1), entry@));
                lemma_any_prefix(fm, i as int, entry@);
            }
            return true;
        }
        i = i + 1;
    }
    assert(items@.subrange(0, i as int) =~= items@);
    false
}

proof fn lemma_filters_model_prefix(s: Seq<Filter>, k: int)
    requires
        0 <= k <= s.len(),
    ensures
        filters_model(s).subrange(0, k) == filters_model(s.subrange(0, k)),
        filters_model(s).len() == s.len(),
        forall|j: int| 0 <= j < s.len() ==> filters_model(s)[j] == #[trigger] s[j]@,
    decreases s.len(),
{
    lemma_filters_model_len(s);
    if s.len() > 0 {
        let init = s.subrange(0, s.len() - 1);
        lemma_filters_model_prefix(init, if k < s.len() { k } else { init.len() as int });
        assert forall|j: int| 0 <= j < s.len() implies filters_model(s)[j] == #[trigger] s[j]@ by {
            if j < s.len() - 1 {
                assert(init[j] == s[j]);
            }
        }
        if k < s.len() {
            assert(init.subrange(0, k) =~= s.subrange(0, k));
        } else {
            assert(s.subrange(0, k) =~= s);
        }
        assert(filters_model(s).subrange(0, k) =~= filters_model(s.subrange(0, k)));
    } else {
        assert(s.subrange(0, k) =~= s);
    }
}

proof fn lemma_all_prefix(fs: Seq<FilterModel>, k: int, e: EntryModel)
    requires
        0 <= k < fs.len(),
        !all_match(fs.subrange(0, k + 1), e),
    ensures
        !all_match(fs, e),
    decreases fs.len(),
{
    if k + 1 < fs.len() {
        let init = fs.subrange(0, fs.len() - 1);
        assert(init.subrange(0, k + 1) =~= fs.subrange(0, k + 1));
        lemma_all_prefix(init, k, e);
    } else {
        assert(fs.subrange(0, k + 1) =~= fs);
    }
}

proof fn lemma_any_prefix(fs: Seq<FilterModel>, k: int, e: EntryModel)
    requires
        0 <= k < fs.len(),
        any_match(fs.subrange(0, k + 1), e),
    ensures
        any_match(fs, e),
    decreases fs.len(),
{
    if k + 1 < fs.len() {
        let init = fs.subrange(0, fs.len() - 1);
        assert(init.subrange(0, k + 1) =~= fs.subrange(0, k + 1));
        lemma_any_prefix(init, k, e);
    } else {
        assert(fs.subrange(0, k + 1) =~= fs);
    }
}

} // verus!
