//! Distinguished names: their normal form and the scope relations of a search.
use vstd::prelude::*;
use crate::text::{chars_eq, ascii_lower_str, chars_of, copy_chars, find_from, join_chars, join_with, lemma_find_from, lower_chars, split_chars, split_on, string_from_chars, trim, trim_chars};
use super::model::SearchScope;

verus! {

/// One relative name in normal form: type and value trimmed and lower-cased, joined by `=`
/// (the value is empty when there is no `=`).
pub open spec fn rdn_norm(t: Seq<char>) -> Seq<char> {
    match find_from(t, '=', 0) {
        None => ascii_lower_str(trim(t)).push('='),
        Some(k) => ascii_lower_str(trim(t.subrange(0, k))).push('=') + ascii_lower_str(
            trim(t.subrange(k + 1, t.len() as int)),
        ),
    }
}

/// The trimmed pieces that are not empty.
pub open spec fn nonempty_trimmed(ps: Seq<Seq<char>>) -> Seq<Seq<char>>
    decreases ps.len(),
{
    if ps.len() == 0 {
        Seq::empty()
    } else if trim(ps.last()).len() == 0 {
        nonempty_trimmed(ps.drop_last())
    } else {
        nonempty_trimmed(ps.drop_last()).push(trim(ps.last()))
    }
}

/// The normal form of a DN: its comma-separated parts, trimmed, empty ones dropped,
/// each in normal form, joined by commas.
pub open spec fn normalize_dn_spec(dn: Seq<char>) -> Seq<char> {
    join_with(nonempty_trimmed(split_on(dn, ',')).map_values(|r: Seq<char>| rdn_norm(r)), ',')
}

fn rdn_normalize(t: &[char]) -> (r: Vec<char>)
    ensures
        r@ == rdn_norm(t@),
{
    let mut k: usize = 0;
    while k < t.len() && t[k] != '='
        invariant
            k <= t.len(),
            forall|j: int| 0 <= j < k ==> t@[j] != '=',
        decreases t.len() - k,
    {
        k = k + 1;
    }
    proof {
        lemma_find_from(t@, '=', 0);
    }
    if k == t.len() {
        assert(find_from(t@, '=', 0) is None);
        let mut a = lower_chars(trim_chars(t).as_slice());
        a.push('=');
        a
    } else {
        assert(find_from(t@, '=', 0) == Some(k as int));
        let mut a = lower_chars(trim_chars(&t[0..k]).as_slice());
        a.push('=');
        let b = lower_chars(trim_chars(&t[k + 1..t.len()]).as_slice());
        let ghost a0 = a@;
        let mut j: usize = 0;
        while j < b.len()
            invariant
                j <= b.len(),
                a@ == a0 + b@.subrange(0, j as int),
            decreases b.len() - j,
        {
            a.push(b[j]);
            j = j + 1;
            assert(a@ =~= a0 + b@.subrange(0, j as int));
        }
        assert(b@.subrange(0, j as int) =~= b@);
        assert(t@.subrange(0, k as int) == t@.subrange(0, k as int));
        a
    }
}

/// The normal form of a DN.
pub fn normalize_dn(dn: &str) -> (r: String)
    ensures
        r@ == normalize_dn_spec(dn@),
{
    let cs = chars_of(dn);
    let parts = split_chars(cs.as_slice(), ',');
    let ghost ps = parts@.map_values(|p: Vec<char>| p@);
    let mut out: Vec<Vec<char>> = Vec::new();
    let mut i: usize = 0;
    while i < parts.len()
        invariant
            i <= parts.len(),
            ps == parts@.map_values(|p: Vec<char>| p@),
            out@.map_values(|p: Vec<char>| p@) == nonempty_trimmed(ps.subrange(0, i as int)).map_values(
                |r: Seq<char>| rdn_norm(r),
            ),
        decreases parts.len() - i,
    {
        let t = trim_chars(parts[i].as_slice());
        proof {
            assert(ps.subrange(0, i + 1).drop_last() =~= ps.subrange(0, i as int));
            assert(ps.subrange(0, i + 1).last() == parts@[i as int]@);
        }
        if t.len() > 0 {
            let n = rdn_normalize(t.as_slice());
            let ghost prev = out@.map_values(|p: Vec<char>| p@);
            let ghost nv = n@;
            out.push(n);
            proof {
                assert(out@.map_values(|p: Vec<char>| p@) =~= prev.push(nv));
                assert(nonempty_trimmed(ps.subrange(0, i + 1)) == nonempty_trimmed(ps.subrange(0, i as int)).push(t@));
                assert(nonempty_trimmed(ps.subrange(0, i + 1)).map_values(|r: Seq<char>| rdn_norm(r)) =~= nonempty_trimmed(
                    ps.subrange(0, i as int),
                ).map_values(|r: Seq<char>| rdn_norm(r)).push(rdn_norm(t@)));
            }
        } else {
            assert(nonempty_trimmed(ps.subrange(0, i + 1)) == nonempty_trimmed(ps.subrange(0, i as int)));
        }
        i = i + 1;
    }
    assert(ps.subrange(0, i as int) =~= ps);
    let joined = join_chars(&out, ',');
    string_from_chars(joined.as_slice())
}

/// The DN without its first part, if it has more than one.
pub open spec fn parent_dn_spec(dn: Seq<char>) -> Option<Seq<char>> {
    let ps = split_on(dn, ',');
    if ps.len() <= 1 {
        None
    } else {
        Some(join_with(ps.drop_first(), ','))
    }
}

/// Whether `s` ends with `t`.
pub open spec fn ends_with(s: Seq<char>, t: Seq<char>) -> bool {
    t.len() <= s.len() && s.subrange(s.len() - t.len(), s.len() as int) == t
}

/// Whether an entry of (normal) DN `dn` lies in the scope of a search from `base`.
pub open spec fn in_scope(base: Seq<char>, dn: Seq<char>, scope: SearchScope) -> bool {
    match scope {
        SearchScope::Base => dn == base,
        SearchScope::One => dn != base && parent_dn_spec(dn) == Some(base),
        SearchScope::Subtree => dn == base || ends_with(dn, seq![','] + base),
    }
}

/// The parent of a DN.
pub fn parent_dn(dn: &str) -> (r: Option<String>)
    ensures
        match r {
            Some(p) => parent_dn_spec(dn@) == Some(p@),
            None => parent_dn_spec(dn@) is None,
        },
{
    let cs = chars_of(dn);
    let parts = split_chars(cs.as_slice(), ',');
    if parts.len() <= 1 {
        return None;
    }
    let mut rest: Vec<Vec<char>> = Vec::new();
    let mut i: usize = 1;
    while i < parts.len()
        invariant
            1 <= i <= parts.len(),
            rest@.map_values(|p: Vec<char>| p@) == parts@.map_values(|p: Vec<char>| p@).subrange(1, i as int),
        decreases parts.len() - i,
    {
        let p = copy_chars(parts[i].as_slice());
        let ghost prev = rest@.map_values(|p: Vec<char>| p@);
        let ghost pv = p@;
        rest.push(p);
        assert(rest@.map_values(|p: Vec<char>| p@) =~= prev.push(pv));
        assert(pv == parts@[i as int]@);
        assert(parts@.map_values(|p: Vec<char>| p@).subrange(1, i + 1) =~= parts@.map_values(|p: Vec<char>| p@).subrange(
            1,
            i as int,
        ).push(parts@[i as int]@));
        i = i + 1;
    }
    let j = join_chars(&rest, ',');
    assert(parts@.map_values(|p: Vec<char>| p@).subrange(1, i as int) =~= parts@.map_values(|p: Vec<char>| p@).drop_first());
    Some(string_from_chars(j.as_slice()))
}

/// Whether an entry of DN `dn` lies in the scope of a search from `base` (both normal).
pub fn match_scope(base: &str, dn: &str, scope: SearchScope) -> (r: bool)
    ensures
        r == in_scope(base@, dn@, scope),
{
    let b = chars_of(base);
    let d = chars_of(dn);
    match scope {
        SearchScope::Base => chars_eq(d.as_slice(), b.as_slice()),
        SearchScope::One => {
            if chars_eq(d.as_slice(), b.as_slice()) {
                return false;
            }
            match parent_dn(dn) {
                Some(p) => {
                    let pc = chars_of(p.as_str());
                    chars_eq(pc.as_slice(), b.as_slice())
                },
                None => false,
            }
        },
        SearchScope::Subtree => {
            if chars_eq(d.as_slice(), b.as_slice()) {
                return true;
            }
            if b.len() >= d.len() {
                return false;
            }
            let n = b.len() + 1;
            let start = d.len() - n;
            if d[start] != ',' {
                assert((seq![','] + b@)[0] == ',');
                assert(d@.subrange(start as int, d@.len() as int)[0] == d@[start as int]);
                return false;
            }
            let tail = chars_eq(&d[start + 1..d.len()], b.as_slice());
            proof {
                let want = seq![','] + b@;
                let got = d@.subrange(start as int, d@.len() as int);
                if tail {
                    assert(got =~= want);
                } else {
                    if got == want {
                        assert(d@.subrange(start + 1, d@.len() as int) =~= got.subrange(1, got.len() as int));
                        assert(want.subrange(1, want.len() as int) =~= b@);
                    }
                }
            }
            tail
        },
    }
}

} // verus!
