//! A directory held in memory, and the server's answer to each request.
use vstd::prelude::*;
use vstd::utf8::{valid_utf8, decode_utf8};
use crate::error::{ProtoError, ProtoResult};
use crate::text::{chars_of, eq_ignore_ascii_case, eq_ignore_case, string_from_chars};
use crate::wire::bytes_eq;
use super::dn::{in_scope, normalize_dn, normalize_dn_spec, match_scope};
use super::matching::{filter_match, filter_matches, values_equal, values_equal_exec};
use super::model::{AddRequest, Attribute, AttributeModel, BindAuth, BindRequest, BindResponse, Change, ChangeModel, CompareRequest, EntryModel, ExtendedRequest, ExtendedResponse, LdapMessage, LdapResult, LdapResultModel, ModifyOp, ModifyRequest, ProtocolOp, ResultCode, SearchRequest, SearchRequestModel, SearchResultEntry, attributes_model, copy_bytes, strings_model, values_model};

verus! {

/// The result of a successful operation.
pub open spec fn success_model() -> LdapResultModel {
    LdapResultModel { code: ResultCode::Success, matched_dn: Seq::empty(), message: Seq::empty(), referrals: Seq::empty() }
}

impl Default for LdapResult {
    fn default() -> (r: LdapResult)
        ensures
            r@ == success_model(),
    {
        let referrals: Vec<String> = Vec::new();
        assert(strings_model(referrals@) =~= Seq::<Seq<char>>::empty());
        LdapResult { code: ResultCode::Success, matched_dn: String::new(), message: String::new(), referrals }
    }
}

/// The result of a successful operation.
pub fn ldap_success() -> (r: LdapResult)
    ensures
        r@ == success_model(),
{
    LdapResult::default()
}

fn result_with(code: ResultCode, matched_dn: String, message: String) -> (r: LdapResult)
    ensures
        r@ == (LdapResultModel { code, matched_dn: matched_dn@, message: message@, referrals: Seq::empty() }),
{
    let referrals: Vec<String> = Vec::new();
    assert(strings_model(referrals@) =~= Seq::<Seq<char>>::empty());
    LdapResult { code, matched_dn, message, referrals }
}

// ----- attributes -----

/// Where the first attribute named `name` (ignoring case) stands, from `i` on.
pub open spec fn attr_index_from(attrs: Seq<AttributeModel>, name: Seq<char>, i: int) -> Option<int>
    decreases attrs.len() - i,
{
    if i < 0 || i >= attrs.len() {
        None
    } else if eq_ignore_case(attrs[i].name, name) {
        Some(i)
    } else {
        attr_index_from(attrs, name, i + 1)
    }
}

/// `cur` with each value of `new` that it lacks appended, in order.
pub open spec fn add_values(cur: Seq<Seq<u8>>, new: Seq<Seq<u8>>) -> Seq<Seq<u8>>
    decreases new.len(),
{
    if new.len() == 0 {
        cur
    } else {
        add_values(if cur.contains(new[0]) { cur } else { cur.push(new[0]) }, new.drop_first())
    }
}

/// The attributes after one change.
pub open spec fn apply_change_spec(attrs: Seq<AttributeModel>, c: ChangeModel) -> Seq<AttributeModel> {
    let m = c.modification;
    match c.operation {
        ModifyOp::Add => match attr_index_from(attrs, m.name, 0) {
            Some(i) => attrs.update(i, AttributeModel { name: attrs[i].name, values: add_values(attrs[i].values, m.values) }),
            None => attrs.push(m),
        },
        ModifyOp::Delete => if m.values.len() == 0 {
            attrs.filter(|a: AttributeModel| !eq_ignore_case(a.name, m.name))
        } else {
            match attr_index_from(attrs, m.name, 0) {
                Some(i) => attrs.update(
                    i,
                    AttributeModel { name: attrs[i].name, values: attrs[i].values.filter(|v: Seq<u8>| !m.values.contains(v)) },
                ),
                None => attrs,
            }
        },
        ModifyOp::Replace => match attr_index_from(attrs, m.name, 0) {
            Some(i) => attrs.update(i, AttributeModel { name: attrs[i].name, values: m.values }),
            None => attrs.push(m),
        },
    }
}

/// The attributes after each change in turn.
pub open spec fn apply_changes_spec(attrs: Seq<AttributeModel>, cs: Seq<ChangeModel>) -> Seq<AttributeModel>
    decreases cs.len(),
{
    if cs.len() == 0 {
        attrs
    } else {
        apply_changes_spec(apply_change_spec(attrs, cs[0]), cs.drop_first())
    }
}

proof fn lemma_attr_index(attrs: Seq<AttributeModel>, name: Seq<char>, i: int)
    requires
        0 <= i,
    ensures
        attr_index_from(attrs, name, i) matches Some(k) ==> i <= k < attrs.len() && eq_ignore_case(attrs[k].name, name),
    decreases attrs.len() - i,
{
    if i < attrs.len() && !eq_ignore_case(attrs[i].name, name) {
        lemma_attr_index(attrs, name, i + 1);
    }
}

proof fn lemma_values_push(v: Seq<Vec<u8>>, x: Vec<u8>)
    ensures
        values_model(v.push(x)) == values_model(v).push(x@),
{
    assert(values_model(v.push(x)) =~= values_model(v).push(x@));
}

proof fn lemma_attrs_push(v: Seq<Attribute>, x: Attribute)
    ensures
        attributes_model(v.push(x)) == attributes_model(v).push(x@),
{
    assert(attributes_model(v.push(x)) =~= attributes_model(v).push(x@));
}

fn find_attr(attrs: &Vec<Attribute>, name: &str) -> (r: Option<usize>)
    ensures
        r matches Some(i) ==> i < attrs.len(),
        match r {
            Some(i) => attr_index_from(attributes_model(attrs@), name@, 0) == Some(i as int),
            None => attr_index_from(attributes_model(attrs@), name@, 0) is None,
        },
{
    let ghost m = attributes_model(attrs@);
    let mut i: usize = 0;
    while i < attrs.len()
        invariant
            i <= attrs.len(),
            m == attributes_model(attrs@),
            attr_index_from(m, name@, 0) == attr_index_from(m, name@, i as int),
        decreases attrs.len() - i,
    {
        assert(m[i as int] == attrs@[i as int]@);
        if eq_ignore_ascii_case(attrs[i].name.as_str(), name) {
            return Some(i);
        }
        i = i + 1;
    }
    None
}

fn vec_contains(vs: &Vec<Vec<u8>>, v: &Vec<u8>) -> (r: bool)
    ensures
        r == values_model(vs@).contains(v@),
{
    let mut i: usize = 0;
    while i < vs.len()
        invariant
            i <= vs.len(),
            forall|k: int| 0 <= k < i ==> vs@[k]@ != v@,
        decreases vs.len() - i,
    {
        if bytes_eq(vs[i].as_slice(), v.as_slice()) {
            assert(values_model(vs@)[i as int] == v@);
            return true;
        }
        i = i + 1;
    }
    proof {
        if values_model(vs@).contains(v@) {
            let k = choose|k: int| 0 <= k < values_model(vs@).len() && values_model(vs@)[k] == v@;
            assert(vs@[k]@ == v@);
        }
    }
    false
}

fn clone_attribute(a: &Attribute) -> (r: Attribute)
    ensures
        r@ == a@,
{
    let mut values: Vec<Vec<u8>> = Vec::new();
    let mut i: usize = 0;
    while i < a.values.len()
        invariant
            i <= a.values.len(),
            values_model(values@) == values_model(a.values@.subrange(0, i as int)),
        decreases a.values.len() - i,
    {
        let c = copy_bytes(&a.values[i]);
        proof {
            lemma_values_push(values@, c);
            lemma_values_push(a.values@.subrange(0, i as int), a.values@[i as int]);
            assert(a.values@.subrange(0, i + 1) =~= a.values@.subrange(0, i as int).push(a.values@[i as int]));
        }
        values.push(c);
        i = i + 1;
    }
    assert(a.values@.subrange(0, i as int) =~= a.values@);
    Attribute { name: a.name.clone(), values }
}

fn clone_attributes(s: &Vec<Attribute>) -> (r: Vec<Attribute>)
    ensures
        attributes_model(r@) == attributes_model(s@),
{
    let mut out: Vec<Attribute> = Vec::new();
    let mut i: usize = 0;
    while i < s.len()
        invariant
            i <= s.len(),
            attributes_model(out@) == attributes_model(s@.subrange(0, i as int)),
        decreases s.len() - i,
    {
        let c = clone_attribute(&s[i]);
        proof {
            lemma_attrs_push(out@, c);
            lemma_attrs_push(s@.subrange(0, i as int), s@[i as int]);
            assert(s@.subrange(0, i + 1) =~= s@.subrange(0, i as int).push(s@[i as int]));
        }
        out.push(c);
        i = i + 1;
    }
    assert(s@.subrange(0, i as int) =~= s@);
    out
}

/// A copy of the attributes.
pub fn clone_attributes_pub(s: &Vec<Attribute>) -> (r: Vec<Attribute>)
    ensures
        attributes_model(r@) == attributes_model(s@),
{
    clone_attributes(s)
}

fn clone_entry(e: &SearchResultEntry) -> (r: SearchResultEntry)
    ensures
        r@ == e@,
{
    SearchResultEntry { dn: e.dn.clone(), attributes: clone_attributes(&e.attributes) }
}

/// Applies one change to the entry's attributes.
pub fn apply_change(entry: &mut SearchResultEntry, change: &Change)
    ensures
        final(entry)@ == (EntryModel { dn: old(entry)@.dn, attributes: apply_change_spec(old(entry)@.attributes, change@) }),
{
    let m = &change.modification;
    let ghost attrs0 = attributes_model(entry.attributes@);
    match change.operation {
        ModifyOp::Add | ModifyOp::Replace => {
            match find_attr(&entry.attributes, m.name.as_str()) {
                Some(i) => {
                    let ghost old_vals = values_model(entry.attributes@[i as int].values@);
                    let mut attr = clone_attribute(&entry.attributes[i]);
                    let ghost old_name = attr@.name;
                    if matches!(change.operation, ModifyOp::Replace) {
                        let mut values: Vec<Vec<u8>> = Vec::new();
                        let mut k: usize = 0;
                        while k < m.values.len()
                            invariant
                                k <= m.values.len(),
                                values_model(values@) == values_model(m.values@.subrange(0, k as int)),
                            decreases m.values.len() - k,
                        {
                            let c = copy_bytes(&m.values[k]);
                            proof {
                                lemma_values_push(values@, c);
                                lemma_values_push(m.values@.subrange(0, k as int), m.values@[k as int]);
                                assert(m.values@.subrange(0, k + 1) =~= m.values@.subrange(0, k as int).push(m.values@[k as int]));
                            }
                            values.push(c);
                            k = k + 1;
                        }
                        assert(m.values@.subrange(0, k as int) =~= m.values@);
                        attr.values = values;
                    } else {
                        let mut k: usize = 0;
                        assert(values_model(m.values@).subrange(0, m.values@.len() as int) =~= values_model(m.values@));
                        while k < m.values.len()
                            invariant
                                k <= m.values.len(),
                                attr@.name == old_name,
                                add_values(old_vals, values_model(m.values@)) == add_values(
                                    values_model(attr.values@),
                                    values_model(m.values@).subrange(k as int, m.values@.len() as int),
                                ),
                            decreases m.values.len() - k,
                        {
                            let ghost rest = values_model(m.values@).subrange(k as int, m.values@.len() as int);
                            assert(rest[0] == m.values@[k as int]@);
                            assert(rest.drop_first() =~= values_model(m.values@).subrange(k + 1, m.values@.len() as int));
                            if !vec_contains(&attr.values, &m.values[k]) {
                                let ghost before = values_model(attr.values@);
                                attr.values.push(copy_bytes(&m.values[k]));
                                assert(values_model(attr.values@) =~= before.push(m.values@[k as int]@));
                            }
                            k = k + 1;
                        }
                        assert(values_model(m.values@).subrange(k as int, m.values@.len() as int) =~= Seq::<Seq<u8>>::empty());
                        assert(values_model(m.values@).subrange(0, m.values@.len() as int) =~= values_model(m.values@));
                    }
                    assert(attr@.name == attrs0[i as int].name);
                    assert(old_vals == attrs0[i as int].values);
                    let ghost new_attr = attr@;
                    let ghost pre_attrs = entry.attributes@;
                    entry.attributes.set(i, attr);
                    assert(entry.attributes@ == pre_attrs.update(i as int, attr));
                    assert(attributes_model(entry.attributes@) =~= attrs0.update(i as int, new_attr));
                    assert(attributes_model(entry.attributes@) =~= apply_change_spec(attrs0, change@));
                },
                None => {
                    entry.attributes.push(clone_attribute(m));
                    assert(attributes_model(entry.attributes@) =~= apply_change_spec(attrs0, change@));
                },
            }
        },
        ModifyOp::Delete => {
            if m.values.len() == 0 {
                let mut kept: Vec<Attribute> = Vec::new();
                let mut k: usize = 0;
                while k < entry.attributes.len()
                    invariant
                        k <= entry.attributes.len(),
                        attrs0 == attributes_model(entry.attributes@),
                        attributes_model(kept@) == attributes_model(entry.attributes@.subrange(0, k as int)).filter(
                            |a: AttributeModel| !eq_ignore_case(a.name, m@.name),
                        ),
                    decreases entry.attributes.len() - k,
                {
                    proof {
                        reveal(Seq::filter);
                        assert(attributes_model(entry.attributes@.subrange(0, k + 1)).drop_last() =~= attributes_model(
                            entry.attributes@.subrange(0, k as int),
                        ));
                    }
                    if !eq_ignore_ascii_case(entry.attributes[k].name.as_str(), m.name.as_str()) {
                        let ghost before = attributes_model(kept@);
                        kept.push(clone_attribute(&entry.attributes[k]));
                        assert(attributes_model(kept@) =~= before.push(entry.attributes@[k as int]@));
                    }
                    k = k + 1;
                }
                assert(entry.attributes@.subrange(0, k as int) =~= entry.attributes@);
                entry.attributes = kept;
            } else {
                match find_attr(&entry.attributes, m.name.as_str()) {
                    Some(i) => {
                        let old_attr = &entry.attributes[i];
                        let mut values: Vec<Vec<u8>> = Vec::new();
                        let mut k: usize = 0;
                        while k < old_attr.values.len()
                            invariant
                                k <= old_attr.values.len(),
                                values_model(values@) == values_model(old_attr.values@.subrange(0, k as int)).filter(
                                    |v: Seq<u8>| !values_model(m.values@).contains(v),
                                ),
                            decreases old_attr.values.len() - k,
                        {
                            proof {
                                reveal(Seq::filter);
                                assert(values_model(old_attr.values@.subrange(0, k + 1)).drop_last() =~= values_model(
                                    old_attr.values@.subrange(0, k as int),
                                ));
                            }
                            if !vec_contains(&m.values, &old_attr.values[k]) {
                                let ghost before = values_model(values@);
                                values.push(copy_bytes(&old_attr.values[k]));
                                assert(values_model(values@) =~= before.push(old_attr.values@[k as int]@));
                            }
                            k = k + 1;
                        }
                        assert(old_attr.values@.subrange(0, k as int) =~= old_attr.values@);
                        let attr = Attribute { name: old_attr.name.clone(), values };
                        entry.attributes.set(i, attr);
                        assert(attributes_model(entry.attributes@) =~= apply_change_spec(attrs0, change@));
                    },
                    None => {},
                }
            }
        },
    }
}

/// The attributes a search returns when it names `requested`: all of them for `*`,
/// none for `1.1`, else those named (ignoring case).
pub open spec fn select_attributes(attrs: Seq<AttributeModel>, requested: Seq<Seq<char>>) -> Seq<AttributeModel> {
    if requested.contains("*"@) {
        attrs
    } else if requested.contains("1.1"@) {
        Seq::empty()
    } else {
        attrs.filter(|a: AttributeModel| exists|k: int| 0 <= k < requested.len() && eq_ignore_case(#[trigger] requested[k], a.name))
    }
}

fn requests_literal(requested: &Vec<String>, lit: &str) -> (r: bool)
    ensures
        r == strings_model(requested@).contains(lit@),
{
    let lc = chars_of(lit);
    let mut i: usize = 0;
    while i < requested.len()
        invariant
            i <= requested.len(),
            lc@ == lit@,
            forall|k: int| 0 <= k < i ==> requested@[k]@ != lit@,
        decreases requested.len() - i,
    {
        let rc = chars_of(requested[i].as_str());
        if rc.len() == lc.len() {
            let mut j: usize = 0;
            let mut same = true;
            while j < rc.len()
                invariant
                    rc@.len() == lc@.len(),
                    j <= rc.len(),
                    same == (forall|q: int| 0 <= q < j ==> rc@[q] == lc@[q]),
                decreases rc.len() - j,
            {
                if rc[j] != lc[j] {
                    same = false;
                }
                j = j + 1;
            }
            if same {
                assert(rc@ =~= lc@);
                assert(strings_model(requested@)[i as int] == lit@);
                return true;
            } else {
                assert(rc@ != lc@);
            }
        }
        i = i + 1;
    }
    proof {
        if strings_model(requested@).contains(lit@) {
            let k = choose|k: int| 0 <= k < strings_model(requested@).len() && strings_model(requested@)[k] == lit@;
            assert(requested@[k]@ == lit@);
        }
    }
    false
}

/// The attributes a search returns.
pub fn filter_attributes(attrs: &Vec<Attribute>, requested: &Vec<String>) -> (r: Vec<Attribute>)
    ensures
        attributes_model(r@) == select_attributes(attributes_model(attrs@), strings_model(requested@)),
{
    if requests_literal(requested, "*") {
        return clone_attributes(attrs);
    }
    if requests_literal(requested, "1.1") {
        let out: Vec<Attribute> = Vec::new();
        assert(attributes_model(out@) =~= Seq::<AttributeModel>::empty());
        return out;
    }
    let ghost req = strings_model(requested@);
    let mut out: Vec<Attribute> = Vec::new();
    let mut i: usize = 0;
    while i < attrs.len()
        invariant
            i <= attrs.len(),
            req == strings_model(requested@),
            attributes_model(out@) == attributes_model(attrs@.subrange(0, i as int)).filter(
                |a: AttributeModel| exists|k: int| 0 <= k < req.len() && eq_ignore_case(#[trigger] req[k], a.name),
            ),
        decreases attrs.len() - i,
    {
        proof {
            reveal(Seq::filter);
            assert(attributes_model(attrs@.subrange(0, i + 1)).drop_last() =~= attributes_model(attrs@.subrange(0, i as int)));
        }
        let mut hit = false;
        let mut k: usize = 0;
        while k < requested.len()
            invariant
                k <= requested.len(),
                i < attrs.len(),
                req == strings_model(requested@),
                hit == (exists|q: int| 0 <= q < k && eq_ignore_case(#[trigger] req[q], attrs@[i as int]@.name)),
            decreases requested.len() - k,
        {
            if eq_ignore_ascii_case(requested[k].as_str(), attrs[i].name.as_str()) {
                assert(eq_ignore_case(req[k as int], attrs@[i as int]@.name));
                hit = true;
            }
            k = k + 1;
        }
        if hit {
            let ghost before = attributes_model(out@);
            out.push(clone_attribute(&attrs[i]));
            assert(attributes_model(out@) =~= before.push(attrs@[i as int]@));
        }
        i = i + 1;
    }
    assert(attrs@.subrange(0, i as int) =~= attrs@);
    out
}

} // verus!
