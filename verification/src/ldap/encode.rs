//! Encoding LDAP messages as BER.
use vstd::prelude::*;
use vstd::utf8::encode_utf8;
use crate::wire::{concat_map, lemma_concat_map_push, push_bytes};
use super::ber::{TAG_BOOLEAN, TAG_ENUM, TAG_INTEGER, TAG_OCTET_STRING, TAG_SEQUENCE, TAG_SET, encode_integer_content, int_min, push_tagged, tlv};
use super::codec::{TAG_ABANDON_REQUEST, TAG_ADD_REQUEST, TAG_ADD_RESPONSE, TAG_BIND_REQUEST, TAG_BIND_RESPONSE, TAG_COMPARE_REQUEST, TAG_COMPARE_RESPONSE, TAG_DEL_REQUEST, TAG_DEL_RESPONSE, TAG_EXTENDED_REQUEST, TAG_EXTENDED_RESPONSE, TAG_FILTER_AND, TAG_FILTER_APPROX, TAG_FILTER_EQUALITY, TAG_FILTER_EXTENSIBLE, TAG_FILTER_GE, TAG_FILTER_LE, TAG_FILTER_NOT, TAG_FILTER_OR, TAG_FILTER_PRESENT, TAG_FILTER_SUBSTRINGS, TAG_MODDN_REQUEST, TAG_MODDN_RESPONSE, TAG_MODIFY_REQUEST, TAG_MODIFY_RESPONSE, TAG_SEARCH_DONE, TAG_SEARCH_ENTRY, TAG_SEARCH_REF, TAG_SEARCH_REQUEST, TAG_UNBIND_REQUEST, changes_model, controls_model, result_code_value};
use super::model::{Attribute, AttributeModel, AttributeValueAssertion, AvaModel, BindAuth, BindAuthModel, BindRequest, BindRequestModel, BindResponse, BindResponseModel, Change, ChangeModel, CompareModel, Control, ControlModel, DerefAliases, EntryModel, ExtendedRequestModel, ExtendedResponseModel, ExtensibleModel, Filter, FilterModel, LdapMessage, LdapResult, LdapResultModel, MessageModel, ModifyDnModel, ModifyOp, ModifyRequestModel, OpModel, ProtocolOp, SearchRequestModel, SearchScope, Substring, SubstringModel, AddRequestModel, attributes_model, filters_model, strings_model, substrings_model, values_model};

verus! {

/// An OCTET STRING holding UTF-8 text.
pub open spec fn enc_str(s: Seq<char>) -> Seq<u8> {
    tlv(TAG_OCTET_STRING, encode_utf8(s))
}

/// An OCTET STRING.
pub open spec fn enc_bytes(b: Seq<u8>) -> Seq<u8> {
    tlv(TAG_OCTET_STRING, b)
}

/// An INTEGER.
pub open spec fn enc_int(v: int) -> Seq<u8> {
    tlv(TAG_INTEGER, int_min(v))
}

/// An ENUMERATED.
pub open spec fn enc_enum(v: u32) -> Seq<u8> {
    tlv(TAG_ENUM, int_min(v as int))
}

/// A BOOLEAN.
pub open spec fn enc_bool(b: bool) -> Seq<u8> {
    tlv(TAG_BOOLEAN, seq![if b { 0xffu8 } else { 0u8 }])
}

/// Text strings, one OCTET STRING after another.
pub open spec fn enc_strs(ss: Seq<Seq<char>>) -> Seq<u8> {
    concat_map(ss, |s: Seq<char>| enc_str(s))
}

/// The content of an LDAPResult; referrals, when there are any, as a `[3]` element
/// that holds a SEQUENCE of them.
pub open spec fn ldap_result_content(r: LdapResultModel) -> Seq<u8> {
    enc_enum(result_code_value(r.code)) + enc_str(r.matched_dn) + enc_str(r.message) + if r.referrals.len() > 0 {
        tlv(0xa3, tlv(TAG_SEQUENCE, enc_strs(r.referrals)))
    } else {
        Seq::empty()
    }
}

/// A PartialAttribute: SEQUENCE of its type and the SET of its values.
pub open spec fn attribute_bytes(a: AttributeModel) -> Seq<u8> {
    tlv(TAG_SEQUENCE, enc_str(a.name) + tlv(TAG_SET, concat_map(a.values, |v: Seq<u8>| enc_bytes(v))))
}

/// A SEQUENCE of PartialAttributes.
pub open spec fn attribute_list_bytes(s: Seq<AttributeModel>) -> Seq<u8> {
    tlv(TAG_SEQUENCE, concat_map(s, |a: AttributeModel| attribute_bytes(a)))
}

/// An AttributeValueAssertion: SEQUENCE of the type and the value.
pub open spec fn ava_bytes(a: AvaModel) -> Seq<u8> {
    tlv(TAG_SEQUENCE, enc_str(a.attribute) + enc_bytes(a.value))
}

/// One substring assertion, tagged by its position.
pub open spec fn substring_bytes(s: SubstringModel) -> Seq<u8> {
    match s {
        SubstringModel::Initial(v) => tlv(0x80, encode_utf8(v)),
        SubstringModel::Any(v) => tlv(0x81, encode_utf8(v)),
        SubstringModel::Final(v) => tlv(0x82, encode_utf8(v)),
    }
}

/// The components of an extensible match that are present.
pub open spec fn extensible_content(e: ExtensibleModel) -> Seq<u8> {
    (match e.matching_rule {
        Some(r) => tlv(0x81, encode_utf8(r)),
        None => Seq::empty(),
    }) + (match e.attribute {
        Some(a) => tlv(0x82, encode_utf8(a)),
        None => Seq::empty(),
    }) + tlv(0x83, e.value) + if e.dn_attributes {
        tlv(0x84, seq![0xffu8])
    } else {
        Seq::empty()
    }
}

/// The image of a filter: conjunctions and disjunctions hold a SEQUENCE of their parts.
pub open spec fn filter_bytes(f: FilterModel) -> Seq<u8>
    decreases f,
{
    match f {
        FilterModel::And(fs) => tlv(TAG_FILTER_AND, tlv(TAG_SEQUENCE, filter_list_bytes(fs))),
        FilterModel::Or(fs) => tlv(TAG_FILTER_OR, tlv(TAG_SEQUENCE, filter_list_bytes(fs))),
        FilterModel::Not(b) => tlv(TAG_FILTER_NOT, filter_bytes(*b)),
        FilterModel::Equality(a) => tlv(TAG_FILTER_EQUALITY, ava_bytes(a)),
        FilterModel::Substrings(attr, subs) => tlv(
            TAG_FILTER_SUBSTRINGS,
            tlv(TAG_SEQUENCE, enc_str(attr) + tlv(TAG_SEQUENCE, concat_map(subs, |s: SubstringModel| substring_bytes(s)))),
        ),
        FilterModel::GreaterOrEqual(a) => tlv(TAG_FILTER_GE, ava_bytes(a)),
        FilterModel::LessOrEqual(a) => tlv(TAG_FILTER_LE, ava_bytes(a)),
        FilterModel::Present(s) => tlv(TAG_FILTER_PRESENT, encode_utf8(s)),
        FilterModel::Approx(a) => tlv(TAG_FILTER_APPROX, ava_bytes(a)),
        FilterModel::Extensible(e) => tlv(TAG_FILTER_EXTENSIBLE, tlv(TAG_SEQUENCE, extensible_content(e))),
    }
}

/// The images of filters, one after another.
pub open spec fn filter_list_bytes(fs: Seq<FilterModel>) -> Seq<u8>
    decreases fs,
{
    if fs.len() == 0 {
        Seq::empty()
    } else {
        filter_list_bytes(fs.subrange(0, fs.len() - 1)) + filter_bytes(fs[fs.len() - 1])
    }
}

/// The wire value of a search scope.
pub open spec fn scope_value(s: SearchScope) -> u32 {
    match s {
        SearchScope::Base => 0,
        SearchScope::One => 1,
        SearchScope::Subtree => 2,
    }
}

/// The wire value of alias dereferencing.
pub open spec fn deref_value(d: DerefAliases) -> u32 {
    match d {
        DerefAliases::Never => 0,
        DerefAliases::InSearching => 1,
        DerefAliases::FindingBase => 2,
        DerefAliases::Always => 3,
    }
}

/// The wire value of a modification.
pub open spec fn modify_op_value(o: ModifyOp) -> u32 {
    match o {
        ModifyOp::Add => 0,
        ModifyOp::Delete => 1,
        ModifyOp::Replace => 2,
    }
}

/// The image of a BindRequest.
pub open spec fn bind_request_bytes(r: BindRequestModel) -> Seq<u8> {
    tlv(
        TAG_BIND_REQUEST,
        enc_int(r.version as int) + enc_str(r.name) + match r.auth {
            BindAuthModel::Simple(s) => tlv(0x80, s),
            BindAuthModel::Sasl { mechanism, credentials } => tlv(
                0xa3,
                tlv(TAG_SEQUENCE, enc_str(mechanism) + match credentials {
                    Some(c) => enc_bytes(c),
                    None => Seq::empty(),
                }),
            ),
        },
    )
}

/// The image of a SearchRequest.
pub open spec fn search_request_bytes(r: SearchRequestModel) -> Seq<u8> {
    tlv(
        TAG_SEARCH_REQUEST,
        enc_str(r.base_dn) + enc_enum(scope_value(r.scope)) + enc_enum(deref_value(r.deref)) + enc_int(
            r.size_limit as int,
        ) + enc_int(r.time_limit as int) + enc_bool(r.types_only) + filter_bytes(r.filter) + tlv(
            TAG_SEQUENCE,
            enc_strs(r.attributes),
        ),
    )
}

/// The image of one change: SEQUENCE of the operation and the attribute.
pub open spec fn change_bytes(c: ChangeModel) -> Seq<u8> {
    tlv(TAG_SEQUENCE, enc_enum(modify_op_value(c.operation)) + attribute_bytes(c.modification))
}

/// The image of one control: SEQUENCE of the OID, `TRUE` when critical, and the value.
pub open spec fn control_bytes(c: ControlModel) -> Seq<u8> {
    tlv(
        TAG_SEQUENCE,
        enc_str(c.oid) + (if c.critical { enc_bool(true) } else { Seq::empty() }) + match c.value {
            Some(v) => enc_bytes(v),
            None => Seq::empty(),
        },
    )
}

/// The image of an op.
pub open spec fn op_bytes(op: OpModel) -> Seq<u8> {
    match op {
        OpModel::BindRequest(r) => bind_request_bytes(r),
        OpModel::BindResponse(r) => tlv(
            TAG_BIND_RESPONSE,
            ldap_result_content(r.result) + match r.server_sasl_creds {
                Some(c) => tlv(0x87, c),
                None => Seq::empty(),
            },
        ),
        OpModel::UnbindRequest => tlv(TAG_UNBIND_REQUEST, Seq::empty()),
        OpModel::SearchRequest(r) => search_request_bytes(r),
        OpModel::SearchResultEntry(e) => tlv(TAG_SEARCH_ENTRY, enc_str(e.dn) + attribute_list_bytes(e.attributes)),
        OpModel::SearchResultDone(r) => tlv(TAG_SEARCH_DONE, ldap_result_content(r)),
        OpModel::SearchResultReference(uris) => tlv(TAG_SEARCH_REF, enc_strs(uris)),
        OpModel::ModifyRequest(r) => tlv(
            TAG_MODIFY_REQUEST,
            enc_str(r.dn) + tlv(TAG_SEQUENCE, concat_map(r.changes, |c: ChangeModel| change_bytes(c))),
        ),
        OpModel::ModifyResponse(r) => tlv(TAG_MODIFY_RESPONSE, ldap_result_content(r)),
        OpModel::AddRequest(r) => tlv(TAG_ADD_REQUEST, enc_str(r.dn) + attribute_list_bytes(r.attributes)),
        OpModel::AddResponse(r) => tlv(TAG_ADD_RESPONSE, ldap_result_content(r)),
        OpModel::DelRequest(dn) => tlv(TAG_DEL_REQUEST, encode_utf8(dn)),
        OpModel::DelResponse(r) => tlv(TAG_DEL_RESPONSE, ldap_result_content(r)),
        OpModel::ModifyDnRequest(r) => tlv(
            TAG_MODDN_REQUEST,
            enc_str(r.dn) + enc_str(r.new_rdn) + enc_bool(r.delete_old_rdn) + match r.new_superior {
                Some(s) => tlv(0x80, encode_utf8(s)),
                None => Seq::empty(),
            },
        ),
        OpModel::ModifyDnResponse(r) => tlv(TAG_MODDN_RESPONSE, ldap_result_content(r)),
        OpModel::CompareRequest(r) => tlv(TAG_COMPARE_REQUEST, enc_str(r.dn) + ava_bytes(r.ava)),
        OpModel::CompareResponse(r) => tlv(TAG_COMPARE_RESPONSE, ldap_result_content(r)),
        OpModel::AbandonRequest(id) => tlv(TAG_ABANDON_REQUEST, int_min(id as int)),
        OpModel::ExtendedRequest(r) => tlv(
            TAG_EXTENDED_REQUEST,
            tlv(0x80, encode_utf8(r.name)) + match r.value {
                Some(v) => tlv(0x81, v),
                None => Seq::empty(),
            },
        ),
        OpModel::ExtendedResponse(r) => tlv(
            TAG_EXTENDED_RESPONSE,
            ldap_result_content(r.result) + (match r.name {
                Some(n) => tlv(0x8a, encode_utf8(n)),
                None => Seq::empty(),
            }) + match r.value {
                Some(v) => tlv(0x8b, v),
                None => Seq::empty(),
            },
        ),
    }
}

/// The image of a message: SEQUENCE of the ID, the op and, when there are any, the controls.
pub open spec fn message_bytes(m: MessageModel) -> Seq<u8> {
    tlv(
        TAG_SEQUENCE,
        enc_int(m.message_id as int) + op_bytes(m.op) + if m.controls.len() > 0 {
            tlv(0xa0, tlv(TAG_SEQUENCE, concat_map(m.controls, |c: ControlModel| control_bytes(c))))
        } else {
            Seq::empty()
        },
    )
}

// ----- list images, one item more -----

proof fn lemma_strs_push(ss: Seq<Seq<char>>, s: Seq<char>)
    ensures
        enc_strs(ss.push(s)) == enc_strs(ss) + enc_str(s),
{
    lemma_concat_map_push(ss, s, |s: Seq<char>| enc_str(s));
}

proof fn lemma_values_push(vs: Seq<Seq<u8>>, v: Seq<u8>)
    ensures
        concat_map(vs.push(v), |v: Seq<u8>| enc_bytes(v)) == concat_map(vs, |v: Seq<u8>| enc_bytes(v)) + enc_bytes(v),
{
    lemma_concat_map_push(vs, v, |v: Seq<u8>| enc_bytes(v));
}

proof fn lemma_attrs_push(s: Seq<AttributeModel>, a: AttributeModel)
    ensures
        concat_map(s.push(a), |a: AttributeModel| attribute_bytes(a)) == concat_map(s, |a: AttributeModel| attribute_bytes(a))
            + attribute_bytes(a),
{
    lemma_concat_map_push(s, a, |a: AttributeModel| attribute_bytes(a));
}

// ----- primitives -----

/// Appends an OCTET STRING holding the text of `s`.
pub fn push_str(out: &mut Vec<u8>, s: &str)
    ensures
        final(out)@ == old(out)@ + enc_str(s@),
{
    push_tagged(out, TAG_OCTET_STRING, s.as_bytes());
}

/// Appends an OCTET STRING.
pub fn push_octets(out: &mut Vec<u8>, b: &[u8])
    ensures
        final(out)@ == old(out)@ + enc_bytes(b@),
{
    push_tagged(out, TAG_OCTET_STRING, b);
}

/// Appends an INTEGER.
pub fn push_integer(out: &mut Vec<u8>, v: i64)
    ensures
        final(out)@ == old(out)@ + enc_int(v as int),
{
    let c = encode_integer_content(v);
    push_tagged(out, TAG_INTEGER, c.as_slice());
}

/// Appends an ENUMERATED.
pub fn push_enumerated(out: &mut Vec<u8>, v: u32)
    ensures
        final(out)@ == old(out)@ + enc_enum(v),
{
    let c = encode_integer_content(v as i64);
    push_tagged(out, TAG_ENUM, c.as_slice());
}

/// Appends a BOOLEAN.
pub fn push_boolean(out: &mut Vec<u8>, b: bool)
    ensures
        final(out)@ == old(out)@ + enc_bool(b),
{
    let c: [u8; 1] = [if b { 0xffu8 } else { 0u8 }];
    assert(c@ =~= seq![if b { 0xffu8 } else { 0u8 }]);
    push_tagged(out, TAG_BOOLEAN, c.as_slice());
}

/// Appends OCTET STRINGs holding the texts, one after another.
pub fn push_strs(out: &mut Vec<u8>, v: &Vec<String>)
    ensures
        final(out)@ == old(out)@ + enc_strs(strings_model(v@)),
{
    let ghost start = out@;
    let mut i: usize = 0;
    while i < v.len()
        invariant
            i <= v.len(),
            out@ == start + enc_strs(strings_model(v@.subrange(0, i as int))),
        decreases v.len() - i,
    {
        push_str(out, v[i].as_str());
        proof {
            lemma_strs_push(strings_model(v@.subrange(0, i as int)), v@[i as int]@);
            assert(strings_model(v@.subrange(0, i + 1)) =~= strings_model(v@.subrange(0, i as int)).push(v@[i as int]@));
        }
        i = i + 1;
    }
    assert(v@.subrange(0, i as int) =~= v@);
}

/// Appends the content of an LDAPResult.
pub fn push_result_content(out: &mut Vec<u8>, r: &LdapResult)
    ensures
        final(out)@ == old(out)@ + ldap_result_content(r@),
{
    let ghost start = out@;
    push_enumerated(out, r.code.to_u32());
    push_str(out, r.matched_dn.as_str());
    push_str(out, r.message.as_str());
    if r.referrals.len() > 0 {
        let mut list: Vec<u8> = Vec::new();
        push_strs(&mut list, &r.referrals);
        let mut seq: Vec<u8> = Vec::new();
        push_tagged(&mut seq, TAG_SEQUENCE, list.as_slice());
        push_tagged(out, 0xa3, seq.as_slice());
    }
    assert(out@ =~= start + ldap_result_content(r@));
}

/// Appends a PartialAttribute.
pub fn push_attribute(out: &mut Vec<u8>, a: &Attribute)
    ensures
        final(out)@ == old(out)@ + attribute_bytes(a@),
{
    let mut values: Vec<u8> = Vec::new();
    let mut i: usize = 0;
    while i < a.values.len()
        invariant
            i <= a.values.len(),
            values@ == concat_map(values_model(a.values@.subrange(0, i as int)), |v: Seq<u8>| enc_bytes(v)),
        decreases a.values.len() - i,
    {
        push_octets(&mut values, a.values[i].as_slice());
        proof {
            lemma_values_push(values_model(a.values@.subrange(0, i as int)), a.values@[i as int]@);
            assert(values_model(a.values@.subrange(0, i + 1)) =~= values_model(a.values@.subrange(0, i as int)).push(
                a.values@[i as int]@,
            ));
        }
        i = i + 1;
    }
    assert(a.values@.subrange(0, i as int) =~= a.values@);
    let mut content: Vec<u8> = Vec::new();
    push_str(&mut content, a.name.as_str());
    push_tagged(&mut content, TAG_SET, values.as_slice());
    push_tagged(out, TAG_SEQUENCE, content.as_slice());
    assert(content@ =~= enc_str(a.name@) + tlv(TAG_SET, concat_map(a@.values, |v: Seq<u8>| enc_bytes(v))));
}

/// Appends a SEQUENCE of PartialAttributes.
pub fn push_attribute_list(out: &mut Vec<u8>, s: &Vec<Attribute>)
    ensures
        final(out)@ == old(out)@ + attribute_list_bytes(attributes_model(s@)),
{
    let mut content: Vec<u8> = Vec::new();
    let mut i: usize = 0;
    while i < s.len()
        invariant
            i <= s.len(),
            content@ == concat_map(attributes_model(s@.subrange(0, i as int)), |a: AttributeModel| attribute_bytes(a)),
        decreases s.len() - i,
    {
        push_attribute(&mut content, &s[i]);
        proof {
            lemma_attrs_push(attributes_model(s@.subrange(0, i as int)), s@[i as int]@);
            assert(attributes_model(s@.subrange(0, i + 1)) =~= attributes_model(s@.subrange(0, i as int)).push(
                s@[i as int]@,
            ));
        }
        i = i + 1;
    }
    assert(s@.subrange(0, i as int) =~= s@);
    push_tagged(out, TAG_SEQUENCE, content.as_slice());
}

/// Appends an AttributeValueAssertion.
pub fn push_ava(out: &mut Vec<u8>, a: &AttributeValueAssertion)
    ensures
        final(out)@ == old(out)@ + ava_bytes(a@),
{
    let mut content: Vec<u8> = Vec::new();
    push_str(&mut content, a.attribute.as_str());
    push_octets(&mut content, a.value.as_slice());
    assert(content@ =~= enc_str(a.attribute@) + enc_bytes(a.value@));
    push_tagged(out, TAG_SEQUENCE, content.as_slice());
}

// ----- filters -----

proof fn lemma_filters_model_push(s: Seq<Filter>, f: Filter)
    ensures
        filters_model(s.push(f)) == filters_model(s).push(f@),
{
    assert(s.push(f).subrange(0, s.len() as int) =~= s);
}

proof fn lemma_filter_list_push(fs: Seq<FilterModel>, f: FilterModel)
    ensures
        filter_list_bytes(fs.push(f)) == filter_list_bytes(fs) + filter_bytes(f),
{
    assert(fs.push(f).subrange(0, fs.len() as int) =~= fs);
}

fn push_substrings(out: &mut Vec<u8>, subs: &Vec<Substring>)
    ensures
        final(out)@ == old(out)@ + concat_map(substrings_model(subs@), |s: SubstringModel| substring_bytes(s)),
{
    let ghost start = out@;
    let mut i: usize = 0;
    while i < subs.len()
        invariant
            i <= subs.len(),
            out@ == start + concat_map(substrings_model(subs@.subrange(0, i as int)), |s: SubstringModel| substring_bytes(s)),
        decreases subs.len() - i,
    {
        match &subs[i] {
            Substring::Initial(v) => push_tagged(out, 0x80, v.as_str().as_bytes()),
            Substring::Any(v) => push_tagged(out, 0x81, v.as_str().as_bytes()),
            Substring::Final(v) => push_tagged(out, 0x82, v.as_str().as_bytes()),
        }
        proof {
            lemma_concat_map_push(
                substrings_model(subs@.subrange(0, i as int)),
                subs@[i as int]@,
                |s: SubstringModel| substring_bytes(s),
            );
            assert(substrings_model(subs@.subrange(0, i + 1)) =~= substrings_model(subs@.subrange(0, i as int)).push(
                subs@[i as int]@,
            ));
        }
        i = i + 1;
    }
    assert(subs@.subrange(0, i as int) =~= subs@);
}

fn push_extensible(out: &mut Vec<u8>, e: &super::model::ExtensibleMatch)
    ensures
        final(out)@ == old(out)@ + extensible_content(e@),
{
    let ghost start = out@;
    if let Some(rule) = &e.matching_rule {
        push_tagged(out, 0x81, rule.as_str().as_bytes());
    }
    if let Some(attr) = &e.attribute {
        push_tagged(out, 0x82, attr.as_str().as_bytes());
    }
    push_tagged(out, 0x83, e.value.as_slice());
    if e.dn_attributes {
        let c: [u8; 1] = [0xffu8];
        assert(c@ =~= seq![0xffu8]);
        push_tagged(out, 0x84, c.as_slice());
    }
    assert(out@ =~= start + extensible_content(e@));
}

fn push_filter_seq(list: &mut Vec<u8>, items: &Vec<Filter>)
    ensures
        final(list)@ == old(list)@ + filter_list_bytes(filters_model(items@)),
    decreases items,
{
    let ghost start = list@;
    let mut i: usize = 0;
    while i < items.len()
        invariant
            i <= items.len(),
            list@ == start + filter_list_bytes(filters_model(items@.subrange(0, i as int))),
        decreases items.len() - i,
    {
        assert(decreases_to!(items => items@[i as int]));
        push_filter(list, &items[i]);
        proof {
            let pre = items@.subrange(0, i as int);
            assert(items@.subrange(0, i + 1) =~= pre.push(items@[i as int]));
            lemma_filters_model_push(pre, items@[i as int]);
            lemma_filter_list_push(filters_model(pre), items@[i as int]@);
        }
        i = i + 1;
    }
    assert(items@.subrange(0, i as int) =~= items@);
}

/// Appends the image of a filter.
pub fn push_filter(out: &mut Vec<u8>, f: &Filter)
    ensures
        final(out)@ == old(out)@ + filter_bytes(f@),
    decreases f,
{
    match f {
        Filter::And(items) => {
            let mut list: Vec<u8> = Vec::new();
            push_filter_seq(&mut list, items);
            let mut seq: Vec<u8> = Vec::new();
            push_tagged(&mut seq, TAG_SEQUENCE, list.as_slice());
            push_tagged(out, TAG_FILTER_AND, seq.as_slice());
        },
        Filter::Or(items) => {
            let mut list: Vec<u8> = Vec::new();
            push_filter_seq(&mut list, items);
            let mut seq: Vec<u8> = Vec::new();
            push_tagged(&mut seq, TAG_SEQUENCE, list.as_slice());
            push_tagged(out, TAG_FILTER_OR, seq.as_slice());
        },
        Filter::Not(inner) => {
            let mut c: Vec<u8> = Vec::new();
            let g: &Filter = inner;
            push_filter(&mut c, g);
            assert(c@ =~= filter_bytes(g@));
            push_tagged(out, TAG_FILTER_NOT, c.as_slice());
        },
        Filter::Equality(a) => {
            let mut c: Vec<u8> = Vec::new();
            push_ava(&mut c, a);
            assert(c@ =~= ava_bytes(a@));
            push_tagged(out, TAG_FILTER_EQUALITY, c.as_slice());
        },
        Filter::Substrings { attribute, substrings } => {
            let mut list: Vec<u8> = Vec::new();
            push_substrings(&mut list, substrings);
            assert(list@ =~= concat_map(substrings_model(substrings@), |s: SubstringModel| substring_bytes(s)));
            let mut content: Vec<u8> = Vec::new();
            push_str(&mut content, attribute.as_str());
            push_tagged(&mut content, TAG_SEQUENCE, list.as_slice());
            let mut seq: Vec<u8> = Vec::new();
            push_tagged(&mut seq, TAG_SEQUENCE, content.as_slice());
            assert(content@ =~= enc_str(attribute@) + tlv(TAG_SEQUENCE, list@));
            push_tagged(out, TAG_FILTER_SUBSTRINGS, seq.as_slice());
        },
        Filter::GreaterOrEqual(a) => {
            let mut c: Vec<u8> = Vec::new();
            push_ava(&mut c, a);
            assert(c@ =~= ava_bytes(a@));
            push_tagged(out, TAG_FILTER_GE, c.as_slice());
        },
        Filter::LessOrEqual(a) => {
            let mut c: Vec<u8> = Vec::new();
            push_ava(&mut c, a);
            assert(c@ =~= ava_bytes(a@));
            push_tagged(out, TAG_FILTER_LE, c.as_slice());
        },
        Filter::Present(attr) => {
            push_tagged(out, TAG_FILTER_PRESENT, attr.as_str().as_bytes());
        },
        Filter::Approx(a) => {
            let mut c: Vec<u8> = Vec::new();
            push_ava(&mut c, a);
            assert(c@ =~= ava_bytes(a@));
            push_tagged(out, TAG_FILTER_APPROX, c.as_slice());
        },
        Filter::Extensible(e) => {
            let mut content: Vec<u8> = Vec::new();
            push_extensible(&mut content, e);
            assert(content@ =~= extensible_content(e@));
            let mut seq: Vec<u8> = Vec::new();
            push_tagged(&mut seq, TAG_SEQUENCE, content.as_slice());
            push_tagged(out, TAG_FILTER_EXTENSIBLE, seq.as_slice());
        },
    }
}

// ----- operations -----

fn scope_to_u32(s: SearchScope) -> (r: u32)
    ensures
        r == scope_value(s),
{
    match s {
        SearchScope::Base => 0,
        SearchScope::One => 1,
        SearchScope::Subtree => 2,
    }
}

fn deref_to_u32(d: DerefAliases) -> (r: u32)
    ensures
        r == deref_value(d),
{
    match d {
        DerefAliases::Never => 0,
        DerefAliases::InSearching => 1,
        DerefAliases::FindingBase => 2,
        DerefAliases::Always => 3,
    }
}

fn modify_op_to_u32(o: ModifyOp) -> (r: u32)
    ensures
        r == modify_op_value(o),
{
    match o {
        ModifyOp::Add => 0,
        ModifyOp::Delete => 1,
        ModifyOp::Replace => 2,
    }
}

fn push_bind_request(out: &mut Vec<u8>, r: &BindRequest)
    ensures
        final(out)@ == old(out)@ + bind_request_bytes(r@),
{
    let mut c: Vec<u8> = Vec::new();
    push_integer(&mut c, r.version as i64);
    push_str(&mut c, r.name.as_str());
    let ghost head = c@;
    match &r.auth {
        BindAuth::Simple(secret) => {
            push_tagged(&mut c, 0x80, secret.as_slice());
        },
        BindAuth::Sasl { mechanism, credentials } => {
            let mut sasl: Vec<u8> = Vec::new();
            push_str(&mut sasl, mechanism.as_str());
            if let Some(creds) = credentials {
                push_octets(&mut sasl, creds.as_slice());
            }
            let mut seq: Vec<u8> = Vec::new();
            push_tagged(&mut seq, TAG_SEQUENCE, sasl.as_slice());
            push_tagged(&mut c, 0xa3, seq.as_slice());
            assert(sasl@ =~= enc_str(mechanism@) + match super::model::opt_bytes(*credentials) {
                Some(x) => enc_bytes(x),
                None => Seq::empty(),
            });
        },
    }
    assert(c@ =~= enc_int(r.version as int) + enc_str(r.name@) + match r@.auth {
        BindAuthModel::Simple(s) => tlv(0x80, s),
        BindAuthModel::Sasl { mechanism, credentials } => tlv(
            0xa3,
            tlv(TAG_SEQUENCE, enc_str(mechanism) + match credentials {
                Some(x) => enc_bytes(x),
                None => Seq::empty(),
            }),
        ),
    });
    push_tagged(out, TAG_BIND_REQUEST, c.as_slice());
}

fn push_search_request(out: &mut Vec<u8>, r: &super::model::SearchRequest)
    ensures
        final(out)@ == old(out)@ + search_request_bytes(r@),
{
    let mut c: Vec<u8> = Vec::new();
    push_str(&mut c, r.base_dn.as_str());
    push_enumerated(&mut c, scope_to_u32(r.scope));
    push_enumerated(&mut c, deref_to_u32(r.deref));
    push_integer(&mut c, r.size_limit as i64);
    push_integer(&mut c, r.time_limit as i64);
    push_boolean(&mut c, r.types_only);
    push_filter(&mut c, &r.filter);
    let mut attrs: Vec<u8> = Vec::new();
    push_strs(&mut attrs, &r.attributes);
    assert(attrs@ =~= enc_strs(strings_model(r.attributes@)));
    push_tagged(&mut c, TAG_SEQUENCE, attrs.as_slice());
    assert(c@ =~= enc_str(r.base_dn@) + enc_enum(scope_value(r.scope)) + enc_enum(deref_value(r.deref)) + enc_int(
        r.size_limit as int,
    ) + enc_int(r.time_limit as int) + enc_bool(r.types_only) + filter_bytes(r.filter@) + tlv(
        TAG_SEQUENCE,
        enc_strs(strings_model(r.attributes@)),
    ));
    push_tagged(out, TAG_SEARCH_REQUEST, c.as_slice());
}

fn push_change_list(out: &mut Vec<u8>, changes: &Vec<Change>)
    ensures
        final(out)@ == old(out)@ + tlv(TAG_SEQUENCE, concat_map(changes_model(changes@), |c: ChangeModel| change_bytes(c))),
{
    let mut list: Vec<u8> = Vec::new();
    let mut i: usize = 0;
    while i < changes.len()
        invariant
            i <= changes.len(),
            list@ == concat_map(changes_model(changes@.subrange(0, i as int)), |c: ChangeModel| change_bytes(c)),
        decreases changes.len() - i,
    {
        let ch = &changes[i];
        let mut c: Vec<u8> = Vec::new();
        push_enumerated(&mut c, modify_op_to_u32(ch.operation));
        push_attribute(&mut c, &ch.modification);
        assert(c@ =~= enc_enum(modify_op_value(ch.operation)) + attribute_bytes(ch.modification@));
        push_tagged(&mut list, TAG_SEQUENCE, c.as_slice());
        proof {
            lemma_concat_map_push(changes_model(changes@.subrange(0, i as int)), ch@, |c: ChangeModel| change_bytes(c));
            assert(changes_model(changes@.subrange(0, i + 1)) =~= changes_model(changes@.subrange(0, i as int)).push(ch@));
        }
        i = i + 1;
    }
    assert(changes@.subrange(0, i as int) =~= changes@);
    push_tagged(out, TAG_SEQUENCE, list.as_slice());
}

fn push_result_op(out: &mut Vec<u8>, tag: u8, r: &LdapResult)
    ensures
        final(out)@ == old(out)@ + tlv(tag, ldap_result_content(r@)),
{
    let mut c: Vec<u8> = Vec::new();
    push_result_content(&mut c, r);
    assert(c@ =~= ldap_result_content(r@));
    push_tagged(out, tag, c.as_slice());
}

fn push_entry_op(out: &mut Vec<u8>, tag: u8, dn: &String, attributes: &Vec<Attribute>)
    ensures
        final(out)@ == old(out)@ + tlv(tag, enc_str(dn@) + attribute_list_bytes(attributes_model(attributes@))),
{
    let mut c: Vec<u8> = Vec::new();
    push_str(&mut c, dn.as_str());
    push_attribute_list(&mut c, attributes);
    assert(c@ =~= enc_str(dn@) + attribute_list_bytes(attributes_model(attributes@)));
    push_tagged(out, tag, c.as_slice());
}

/// Appends the image of an op.
#[verifier::rlimit(40)]
pub fn push_op(out: &mut Vec<u8>, op: &ProtocolOp)
    ensures
        final(out)@ == old(out)@ + op_bytes(op@),
{
    let ghost start = out@;
    match op {
        ProtocolOp::BindRequest(r) => push_bind_request(out, r),
        ProtocolOp::BindResponse(r) => {
            let mut c: Vec<u8> = Vec::new();
            push_result_content(&mut c, &r.result);
            if let Some(creds) = &r.server_sasl_creds {
                push_tagged(&mut c, 0x87, creds.as_slice());
            }
            assert(c@ =~= ldap_result_content(r.result@) + match super::model::opt_bytes(r.server_sasl_creds) {
                Some(x) => tlv(0x87, x),
                None => Seq::empty(),
            });
            push_tagged(out, TAG_BIND_RESPONSE, c.as_slice());
        },
        ProtocolOp::UnbindRequest => {
            let c: Vec<u8> = Vec::new();
            assert(c@ =~= Seq::<u8>::empty());
            push_tagged(out, TAG_UNBIND_REQUEST, c.as_slice());
        },
        ProtocolOp::SearchRequest(r) => push_search_request(out, r),
        ProtocolOp::SearchResultEntry(e) => push_entry_op(out, TAG_SEARCH_ENTRY, &e.dn, &e.attributes),
        ProtocolOp::SearchResultDone(r) => push_result_op(out, TAG_SEARCH_DONE, r),
        ProtocolOp::SearchResultReference(uris) => {
            let mut c: Vec<u8> = Vec::new();
            push_strs(&mut c, uris);
            assert(c@ =~= enc_strs(strings_model(uris@)));
            push_tagged(out, TAG_SEARCH_REF, c.as_slice());
        },
        ProtocolOp::ModifyRequest(r) => {
            let mut c: Vec<u8> = Vec::new();
            push_str(&mut c, r.dn.as_str());
            push_change_list(&mut c, &r.changes);
            assert(c@ =~= enc_str(r.dn@) + tlv(TAG_SEQUENCE, concat_map(changes_model(r.changes@), |c: ChangeModel| change_bytes(c))));
            push_tagged(out, TAG_MODIFY_REQUEST, c.as_slice());
        },
        ProtocolOp::ModifyResponse(r) => push_result_op(out, TAG_MODIFY_RESPONSE, r),
        ProtocolOp::AddRequest(r) => push_entry_op(out, TAG_ADD_REQUEST, &r.dn, &r.attributes),
        ProtocolOp::AddResponse(r) => push_result_op(out, TAG_ADD_RESPONSE, r),
        ProtocolOp::DelRequest(dn) => push_tagged(out, TAG_DEL_REQUEST, dn.as_str().as_bytes()),
        ProtocolOp::DelResponse(r) => push_result_op(out, TAG_DEL_RESPONSE, r),
        ProtocolOp::ModifyDnRequest(r) => {
            let mut c: Vec<u8> = Vec::new();
            push_str(&mut c, r.dn.as_str());
            push_str(&mut c, r.new_rdn.as_str());
            push_boolean(&mut c, r.delete_old_rdn);
            if let Some(sup) = &r.new_superior {
                push_tagged(&mut c, 0x80, sup.as_str().as_bytes());
            }
            assert(c@ =~= enc_str(r.dn@) + enc_str(r.new_rdn@) + enc_bool(r.delete_old_rdn) + match super::model::opt_string(
                r.new_superior,
            ) {
                Some(x) => tlv(0x80, encode_utf8(x)),
                None => Seq::empty(),
            });
            push_tagged(out, TAG_MODDN_REQUEST, c.as_slice());
        },
        ProtocolOp::ModifyDnResponse(r) => push_result_op(out, TAG_MODDN_RESPONSE, r),
        ProtocolOp::CompareRequest(r) => {
            let mut c: Vec<u8> = Vec::new();
            push_str(&mut c, r.dn.as_str());
            push_ava(&mut c, &r.ava);
            assert(c@ =~= enc_str(r.dn@) + ava_bytes(r.ava@));
            push_tagged(out, TAG_COMPARE_REQUEST, c.as_slice());
        },
        ProtocolOp::CompareResponse(r) => push_result_op(out, TAG_COMPARE_RESPONSE, r),
        ProtocolOp::AbandonRequest(id) => {
            let c = encode_integer_content(*id as i64);
            push_tagged(out, TAG_ABANDON_REQUEST, c.as_slice());
        },
        ProtocolOp::ExtendedRequest(r) => {
            let mut c: Vec<u8> = Vec::new();
            push_tagged(&mut c, 0x80, r.name.as_str().as_bytes());
            if let Some(v) = &r.value {
                push_tagged(&mut c, 0x81, v.as_slice());
            }
            assert(c@ =~= tlv(0x80, encode_utf8(r.name@)) + match super::model::opt_bytes(r.value) {
                Some(x) => tlv(0x81, x),
                None => Seq::empty(),
            });
            push_tagged(out, TAG_EXTENDED_REQUEST, c.as_slice());
        },
        ProtocolOp::ExtendedResponse(r) => {
            let mut c: Vec<u8> = Vec::new();
            push_result_content(&mut c, &r.result);
            if let Some(n) = &r.name {
                push_tagged(&mut c, 0x8a, n.as_str().as_bytes());
            }
            if let Some(v) = &r.value {
                push_tagged(&mut c, 0x8b, v.as_slice());
            }
            assert(c@ =~= ldap_result_content(r.result@) + (match super::model::opt_string(r.name) {
                Some(x) => tlv(0x8a, encode_utf8(x)),
                None => Seq::empty(),
            }) + match super::model::opt_bytes(r.value) {
                Some(x) => tlv(0x8b, x),
                None => Seq::empty(),
            });
            push_tagged(out, TAG_EXTENDED_RESPONSE, c.as_slice());
        },
    }
}

fn push_controls(out: &mut Vec<u8>, controls: &Vec<Control>)
    ensures
        final(out)@ == old(out)@ + tlv(0xa0, tlv(TAG_SEQUENCE, concat_map(controls_model(controls@), |c: ControlModel| control_bytes(c)))),
{
    let mut list: Vec<u8> = Vec::new();
    let mut i: usize = 0;
    while i < controls.len()
        invariant
            i <= controls.len(),
            list@ == concat_map(controls_model(controls@.subrange(0, i as int)), |c: ControlModel| control_bytes(c)),
        decreases controls.len() - i,
    {
        let ctl = &controls[i];
        let mut c: Vec<u8> = Vec::new();
        push_str(&mut c, ctl.oid.as_str());
        if ctl.critical {
            push_boolean(&mut c, true);
        }
        if let Some(v) = &ctl.value {
            push_octets(&mut c, v.as_slice());
        }
        assert(c@ =~= enc_str(ctl.oid@) + (if ctl.critical { enc_bool(true) } else { Seq::empty() }) + match super::model::opt_bytes(
            ctl.value,
        ) {
            Some(x) => enc_bytes(x),
            None => Seq::empty(),
        });
        push_tagged(&mut list, TAG_SEQUENCE, c.as_slice());
        proof {
            lemma_concat_map_push(controls_model(controls@.subrange(0, i as int)), ctl@, |c: ControlModel| control_bytes(c));
            assert(controls_model(controls@.subrange(0, i + 1)) =~= controls_model(controls@.subrange(0, i as int)).push(ctl@));
        }
        i = i + 1;
    }
    assert(controls@.subrange(0, i as int) =~= controls@);
    let mut seq: Vec<u8> = Vec::new();
    push_tagged(&mut seq, TAG_SEQUENCE, list.as_slice());
    push_tagged(out, 0xa0, seq.as_slice());
}

impl LdapMessage {
    /// Encodes the message; this never fails.
    pub fn encode(&self) -> (r: crate::error::ProtoResult<Vec<u8>>)
        ensures
            r matches Ok(b) && b@ == message_bytes(self@),
    {
        let mut c: Vec<u8> = Vec::new();
        push_integer(&mut c, self.message_id as i64);
        push_op(&mut c, &self.op);
        if self.controls.len() > 0 {
            push_controls(&mut c, &self.controls);
        }
        assert(c@ =~= enc_int(self.message_id as int) + op_bytes(self.op@) + if self@.controls.len() > 0 {
            tlv(0xa0, tlv(TAG_SEQUENCE, concat_map(self@.controls, |c: ControlModel| control_bytes(c))))
        } else {
            Seq::empty()
        });
        let mut out: Vec<u8> = Vec::new();
        push_tagged(&mut out, TAG_SEQUENCE, c.as_slice());
        assert(out@ =~= message_bytes(self@));
        Ok(out)
    }
}

} // verus!