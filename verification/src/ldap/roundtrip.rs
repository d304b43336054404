//! Decoding the image of an LDAP message gives the message back, for the messages whose
//! every part the decoder reads back as it was written.
use vstd::prelude::*;
use vstd::utf8::{decode_utf8, encode_utf8, valid_utf8};
use crate::wire::{at, concat_map, lemma_at_split, lemma_concat_map_front};
use super::ber::{
    ber_int_decode, ber_read, int_min, lemma_integer_roundtrip, lemma_tlv_roundtrip, tlv, MAX_BER_MESSAGE_SIZE,
    TAG_BOOLEAN, TAG_ENUM, TAG_INTEGER, TAG_OCTET_STRING, TAG_SEQUENCE, TAG_SET,
};
use super::codec::{
    dec_attribute, dec_change, dec_control, lemma_result_code_roundtrip, modify_op_of, rd_attr_list, rd_bool, rd_bytes,
    rd_change_list, rd_content_list, rd_control_list, rd_control_tail, rd_enum, rd_int, rd_ldap_result, rd_str,
    rd_str_list, result_code_of, result_code_value, dec_filter, dec_protocol_op, dec_message, dec_controls,
    dec_ava, dec_search_entry, dec_bind_request, dec_bind_response, dec_search_request, dec_modify_request,
    dec_add_request, dec_moddn_request, dec_compare_request, dec_extended_request, dec_extended_response,
    rd_ext_response_tail, scope_of, deref_of, TAG_FILTER_NOT, TAG_FILTER_PRESENT, TAG_BIND_REQUEST,
    TAG_BIND_RESPONSE, TAG_UNBIND_REQUEST, TAG_SEARCH_REQUEST, TAG_SEARCH_ENTRY, TAG_SEARCH_DONE, TAG_SEARCH_REF,
    TAG_MODIFY_REQUEST, TAG_MODIFY_RESPONSE, TAG_ADD_REQUEST, TAG_ADD_RESPONSE, TAG_DEL_REQUEST, TAG_DEL_RESPONSE,
    TAG_MODDN_REQUEST, TAG_MODDN_RESPONSE, TAG_COMPARE_REQUEST, TAG_COMPARE_RESPONSE, TAG_ABANDON_REQUEST,
    TAG_EXTENDED_REQUEST, TAG_EXTENDED_RESPONSE,
};
use super::model::{
    AttributeModel, AvaModel, BindAuthModel, ChangeModel, ControlModel, DerefAliases, EntryModel, FilterModel,
    LdapResultModel, MessageModel, OpModel, ResultCode, SearchScope, ModifyRequestModel, CompareModel, ModifyDnModel,
    SearchRequestModel,
};
use super::encode::{
    attribute_bytes, change_bytes, control_bytes, enc_bool, enc_bytes, enc_enum, enc_int, enc_str, enc_strs,
    ldap_result_content, modify_op_value, filter_bytes, op_bytes, message_bytes, scope_value, deref_value,
    ava_bytes, attribute_list_bytes, bind_request_bytes, search_request_bytes,
};
use crate::text::{lemma_lossy_of_utf8, lossy_text};

verus! {

/// An element written at `p` reads back as its tag and content, and the position after it.
pub proof fn lemma_read_at(d: Seq<u8>, p: int, tag: u8, c: Seq<u8>)
    requires
        d.len() <= MAX_BER_MESSAGE_SIZE,
        at(d, p, tlv(tag, c)),
    ensures
        ber_read(d, p) == Some((tag, c, p + tlv(tag, c).len())),
        c.len() + 2 <= tlv(tag, c).len(),
{
    let t = tlv(tag, c);
    let pre = d.subrange(0, p);
    let post = d.subrange(p + t.len(), d.len() as int);
    assert(d =~= pre + t + post);
    lemma_tlv_roundtrip(pre, tag, c, post);
}

/// The whole of `d` stands at its start.
pub proof fn lemma_at_whole(d: Seq<u8>)
    ensures
        at(d, 0, d),
{
    assert(d.subrange(0, d.len() as int) =~= d);
}

/// A text string reads back.
pub proof fn lemma_rd_str(d: Seq<u8>, p: int, s: Seq<char>)
    requires
        d.len() <= MAX_BER_MESSAGE_SIZE,
        at(d, p, enc_str(s)),
    ensures
        rd_str(d, p) == Some((s, p + enc_str(s).len())),
{
    broadcast use vstd::utf8::encode_utf8_decode_utf8, vstd::utf8::encode_utf8_valid_utf8;
    lemma_read_at(d, p, TAG_OCTET_STRING, encode_utf8(s));
}

/// A byte string reads back.
pub proof fn lemma_rd_bytes(d: Seq<u8>, p: int, b: Seq<u8>)
    requires
        d.len() <= MAX_BER_MESSAGE_SIZE,
        at(d, p, enc_bytes(b)),
    ensures
        rd_bytes(d, p) == Some((b, p + enc_bytes(b).len())),
{
    lemma_read_at(d, p, TAG_OCTET_STRING, b);
}

/// An INTEGER reads back.
pub proof fn lemma_rd_int(d: Seq<u8>, p: int, v: i64)
    requires
        d.len() <= MAX_BER_MESSAGE_SIZE,
        at(d, p, enc_int(v as int)),
    ensures
        rd_int(d, p) == Some((v, p + enc_int(v as int).len())),
{
    lemma_read_at(d, p, TAG_INTEGER, int_min(v as int));
    lemma_integer_roundtrip(v);
}

/// An ENUMERATED reads back.
pub proof fn lemma_rd_enum(d: Seq<u8>, p: int, v: u32)
    requires
        d.len() <= MAX_BER_MESSAGE_SIZE,
        at(d, p, enc_enum(v)),
    ensures
        rd_enum(d, p) == Some((v, p + enc_enum(v).len())),
{
    lemma_read_at(d, p, TAG_ENUM, int_min(v as int));
    lemma_integer_roundtrip(v as i64);
    assert((v as i64) as u32 == v);
}

/// A BOOLEAN reads back.
pub proof fn lemma_rd_bool(d: Seq<u8>, p: int, b: bool)
    requires
        d.len() <= MAX_BER_MESSAGE_SIZE,
        at(d, p, enc_bool(b)),
    ensures
        rd_bool(d, p) == Some((b, p + enc_bool(b).len())),
{
    lemma_read_at(d, p, TAG_BOOLEAN, seq![if b { 0xffu8 } else { 0u8 }]);
}

/// Text strings written up to the end read back.
pub proof fn lemma_rd_str_list(d: Seq<u8>, p: int, ss: Seq<Seq<char>>)
    requires
        d.len() <= MAX_BER_MESSAGE_SIZE,
        at(d, p, enc_strs(ss)),
        p + enc_strs(ss).len() == d.len(),
    ensures
        rd_str_list(d, p) == Some(ss),
    decreases ss.len(),
{
    if ss.len() > 0 {
        let f = |s: Seq<char>| enc_str(s);
        lemma_concat_map_front(ss, f);
        lemma_at_split(d, p, enc_str(ss[0]), enc_strs(ss.drop_first()));
        lemma_rd_str(d, p, ss[0]);
        lemma_read_at(d, p, TAG_OCTET_STRING, encode_utf8(ss[0]));
        lemma_rd_str_list(d, p + enc_str(ss[0]).len(), ss.drop_first());
        assert(seq![ss[0]] + ss.drop_first() =~= ss);
    } else {
        assert(p >= d.len());
    }
}

/// Byte strings written up to the end read back as the elements' contents.
pub proof fn lemma_rd_content_list(d: Seq<u8>, p: int, vs: Seq<Seq<u8>>)
    requires
        d.len() <= MAX_BER_MESSAGE_SIZE,
        at(d, p, concat_map(vs, |v: Seq<u8>| enc_bytes(v))),
        p + concat_map(vs, |v: Seq<u8>| enc_bytes(v)).len() == d.len(),
    ensures
        rd_content_list(d, p) == Some(vs),
    decreases vs.len(),
{
    if vs.len() > 0 {
        let f = |v: Seq<u8>| enc_bytes(v);
        lemma_concat_map_front(vs, f);
        lemma_at_split(d, p, enc_bytes(vs[0]), concat_map(vs.drop_first(), f));
        lemma_read_at(d, p, TAG_OCTET_STRING, vs[0]);
        lemma_rd_content_list(d, p + enc_bytes(vs[0]).len(), vs.drop_first());
        assert(seq![vs[0]] + vs.drop_first() =~= vs);
    } else {
        assert(p >= d.len());
    }
}

/// The content of a PartialAttribute: its type and the SET of its values.
pub open spec fn attribute_content(a: AttributeModel) -> Seq<u8> {
    enc_str(a.name) + tlv(TAG_SET, concat_map(a.values, |v: Seq<u8>| enc_bytes(v)))
}

/// A PartialAttribute's content reads back.
pub proof fn lemma_dec_attribute(a: AttributeModel)
    requires
        attribute_content(a).len() <= MAX_BER_MESSAGE_SIZE,
    ensures
        dec_attribute(attribute_content(a)) == Some(a),
        attribute_bytes(a) == tlv(TAG_SEQUENCE, attribute_content(a)),
{
    let c = attribute_content(a);
    let vals = concat_map(a.values, |v: Seq<u8>| enc_bytes(v));
    lemma_at_whole(c);
    lemma_at_split(c, 0, enc_str(a.name), tlv(TAG_SET, vals));
    lemma_rd_str(c, 0, a.name);
    lemma_read_at(c, enc_str(a.name).len() as int, TAG_SET, vals);
    lemma_at_whole(vals);
    lemma_rd_content_list(vals, 0, a.values);
}

/// PartialAttributes written up to the end read back.
pub proof fn lemma_rd_attr_list(d: Seq<u8>, p: int, s: Seq<AttributeModel>)
    requires
        d.len() <= MAX_BER_MESSAGE_SIZE,
        at(d, p, concat_map(s, |a: AttributeModel| attribute_bytes(a))),
        p + concat_map(s, |a: AttributeModel| attribute_bytes(a)).len() == d.len(),
    ensures
        rd_attr_list(d, p) == Some(s),
    decreases s.len(),
{
    if s.len() > 0 {
        let f = |a: AttributeModel| attribute_bytes(a);
        lemma_concat_map_front(s, f);
        let a = s[0];
        lemma_at_split(d, p, attribute_bytes(a), concat_map(s.drop_first(), f));
        lemma_dec_attribute_len(a);
        lemma_read_at(d, p, TAG_SEQUENCE, attribute_content(a));
        lemma_dec_attribute(a);
        lemma_rd_attr_list(d, p + attribute_bytes(a).len(), s.drop_first());
        assert(seq![a] + s.drop_first() =~= s);
    } else {
        assert(p >= d.len());
    }
}

proof fn lemma_dec_attribute_len(a: AttributeModel)
    ensures
        attribute_bytes(a) == tlv(TAG_SEQUENCE, attribute_content(a)),
{
}

/// The content of one change: the operation and the attribute.
pub open spec fn change_content(c: ChangeModel) -> Seq<u8> {
    enc_enum(modify_op_value(c.operation)) + attribute_bytes(c.modification)
}

/// A change's content reads back.
pub proof fn lemma_dec_change(ch: ChangeModel)
    requires
        change_content(ch).len() <= MAX_BER_MESSAGE_SIZE,
    ensures
        dec_change(change_content(ch)) == Some(ch),
{
    let c = change_content(ch);
    let e = enc_enum(modify_op_value(ch.operation));
    lemma_at_whole(c);
    lemma_at_split(c, 0, e, attribute_bytes(ch.modification));
    lemma_rd_enum(c, 0, modify_op_value(ch.operation));
    assert(modify_op_of(modify_op_value(ch.operation)) == Some(ch.operation));
    lemma_read_at(c, e.len() as int, TAG_SEQUENCE, attribute_content(ch.modification));
    lemma_dec_attribute(ch.modification);
}

/// Changes written up to the end read back.
pub proof fn lemma_rd_change_list(d: Seq<u8>, p: int, s: Seq<ChangeModel>)
    requires
        d.len() <= MAX_BER_MESSAGE_SIZE,
        at(d, p, concat_map(s, |c: ChangeModel| change_bytes(c))),
        p + concat_map(s, |c: ChangeModel| change_bytes(c)).len() == d.len(),
    ensures
        rd_change_list(d, p) == Some(s),
    decreases s.len(),
{
    if s.len() > 0 {
        let f = |c: ChangeModel| change_bytes(c);
        lemma_concat_map_front(s, f);
        let ch = s[0];
        lemma_at_split(d, p, change_bytes(ch), concat_map(s.drop_first(), f));
        lemma_read_at(d, p, TAG_SEQUENCE, change_content(ch));
        lemma_dec_change(ch);
        lemma_rd_change_list(d, p + change_bytes(ch).len(), s.drop_first());
        assert(seq![ch] + s.drop_first() =~= s);
    } else {
        assert(p >= d.len());
    }
}

/// The parts of a control after its OID.
pub open spec fn control_tail_bytes(c: ControlModel) -> Seq<u8> {
    (if c.critical { enc_bool(true) } else { Seq::empty() }) + match c.value {
        Some(v) => enc_bytes(v),
        None => Seq::empty(),
    }
}

/// The content of one control.
pub open spec fn control_content(c: ControlModel) -> Seq<u8> {
    enc_str(c.oid) + control_tail_bytes(c)
}

/// A control's content reads back.
pub proof fn lemma_dec_control(ctl: ControlModel)
    requires
        control_content(ctl).len() <= MAX_BER_MESSAGE_SIZE,
    ensures
        dec_control(control_content(ctl)) == Some(ctl),
        control_bytes(ctl) == tlv(TAG_SEQUENCE, control_content(ctl)),
{
    let c = control_content(ctl);
    let o = enc_str(ctl.oid);
    let cb = if ctl.critical { enc_bool(true) } else { Seq::empty() };
    let vb = match ctl.value {
        Some(v) => enc_bytes(v),
        None => Seq::<u8>::empty(),
    };
    assert(c == o + cb + vb);
    lemma_at_whole(c);
    lemma_at_split(c, 0, o + cb, vb);
    lemma_at_split(c, 0, o, cb);
    lemma_rd_str(c, 0, ctl.oid);
    let p1 = o.len() as int;
    let p2 = p1 + cb.len();
    assert(rd_control_tail(c, c.len() as int, ctl.critical, ctl.value) == Some((ctl.critical, ctl.value)));
    if let Some(v) = ctl.value {
        lemma_read_at(c, p2, TAG_OCTET_STRING, v);
        assert(rd_control_tail(c, p2, ctl.critical, None) == Some((ctl.critical, ctl.value)));
    } else {
        assert(p2 == c.len());
    }
    assert(rd_control_tail(c, p2, ctl.critical, None) == Some((ctl.critical, ctl.value)));
    if ctl.critical {
        lemma_read_at(c, p1, TAG_BOOLEAN, seq![0xffu8]);
        assert(rd_control_tail(c, p1, false, None) == rd_control_tail(c, p2, true, None));
    }
}

/// Controls written up to the end read back.
pub proof fn lemma_rd_control_list(d: Seq<u8>, p: int, s: Seq<ControlModel>)
    requires
        d.len() <= MAX_BER_MESSAGE_SIZE,
        at(d, p, concat_map(s, |c: ControlModel| control_bytes(c))),
        p + concat_map(s, |c: ControlModel| control_bytes(c)).len() == d.len(),
    ensures
        rd_control_list(d, p) == Some(s),
    decreases s.len(),
{
    if s.len() > 0 {
        let f = |c: ControlModel| control_bytes(c);
        lemma_concat_map_front(s, f);
        let ctl = s[0];
        assert(control_bytes(ctl) == tlv(TAG_SEQUENCE, control_content(ctl)));
        lemma_at_split(d, p, control_bytes(ctl), concat_map(s.drop_first(), f));
        lemma_read_at(d, p, TAG_SEQUENCE, control_content(ctl));
        lemma_dec_control(ctl);
        lemma_rd_control_list(d, p + control_bytes(ctl).len(), s.drop_first());
        assert(seq![ctl] + s.drop_first() =~= s);
    } else {
        assert(p >= d.len());
    }
}

/// A result the decoder reads back: no referrals, and a code outside the named ones only
/// by a number none of them has.
pub open spec fn result_rt(r: LdapResultModel) -> bool {
    &&& r.referrals.len() == 0
    &&& (r.code matches ResultCode::Other(v) ==> result_code_of(v) == r.code)
}

/// An LDAPResult without referrals, written up to the end, reads back.
pub proof fn lemma_rd_ldap_result(d: Seq<u8>, p: int, r: LdapResultModel)
    requires
        d.len() <= MAX_BER_MESSAGE_SIZE,
        result_rt(r),
        at(d, p, ldap_result_content(r)),
        p + ldap_result_content(r).len() == d.len(),
    ensures
        rd_ldap_result(d, p) == Some((r, d.len() as int)),
{
    let e = enc_enum(result_code_value(r.code));
    let m = enc_str(r.matched_dn);
    let g = enc_str(r.message);
    assert(ldap_result_content(r) == e + m + g + Seq::<u8>::empty());
    assert(e + m + g + Seq::<u8>::empty() =~= e + m + g);
    lemma_at_split(d, p, e + m, g);
    lemma_at_split(d, p, e, m);
    lemma_rd_enum(d, p, result_code_value(r.code));
    lemma_rd_str(d, p + e.len(), r.matched_dn);
    lemma_rd_str(d, p + e.len() + m.len(), r.message);
    lemma_result_code_roundtrip(r.code);
    assert(r.referrals =~= Seq::<Seq<char>>::empty());
}

/// A filter the decoder reads back: a presence test, or the negation of one it reads back.
pub open spec fn filter_rt(f: FilterModel) -> bool
    decreases f,
{
    match f {
        FilterModel::Present(_) => true,
        FilterModel::Not(b) => filter_rt(*b),
        _ => false,
    }
}

/// The tag of a filter the decoder reads back.
pub open spec fn filter_tag(f: FilterModel) -> u8 {
    match f {
        FilterModel::Not(_) => TAG_FILTER_NOT,
        _ => TAG_FILTER_PRESENT,
    }
}

/// The content of a filter the decoder reads back.
pub open spec fn filter_content(f: FilterModel) -> Seq<u8> {
    match f {
        FilterModel::Not(b) => filter_bytes(*b),
        FilterModel::Present(s) => encode_utf8(s),
        _ => Seq::empty(),
    }
}

/// A filter the decoder reads back does.
pub proof fn lemma_filter_rt(f: FilterModel)
    requires
        filter_rt(f),
        filter_bytes(f).len() <= MAX_BER_MESSAGE_SIZE,
    ensures
        filter_bytes(f) == tlv(filter_tag(f), filter_content(f)),
        dec_filter(filter_tag(f), filter_content(f)) == Some(f),
    decreases f,
{
    match f {
        FilterModel::Present(s) => {
            lemma_lossy_of_utf8(s);
        },
        FilterModel::Not(b) => {
            let inner = filter_bytes(*b);
            assert(filter_bytes(f) == tlv(TAG_FILTER_NOT, inner));
            lemma_filter_rt(*b);
            lemma_at_whole(inner);
            lemma_read_at(inner, 0, filter_tag(*b), filter_content(*b));
        },
        _ => {},
    }
}

/// An op the decoder reads back: simple binds, filters it reads back, results without
/// referrals, and no SASL credentials, response name or response value after a result.
pub open spec fn op_rt(op: OpModel) -> bool {
    match op {
        OpModel::BindRequest(r) => r.auth is Simple,
        OpModel::BindResponse(r) => result_rt(r.result) && r.server_sasl_creds is None,
        OpModel::SearchRequest(r) => filter_rt(r.filter),
        OpModel::SearchResultDone(r) => result_rt(r),
        OpModel::ModifyResponse(r) => result_rt(r),
        OpModel::AddResponse(r) => result_rt(r),
        OpModel::DelResponse(r) => result_rt(r),
        OpModel::ModifyDnResponse(r) => result_rt(r),
        OpModel::CompareResponse(r) => result_rt(r),
        OpModel::ExtendedResponse(r) => result_rt(r.result) && r.name is None && r.value is None,
        _ => true,
    }
}

/// The tag of an op's element.
pub open spec fn op_tag(op: OpModel) -> u8 {
    match op {
        OpModel::BindRequest(_) => TAG_BIND_REQUEST,
        OpModel::BindResponse(_) => TAG_BIND_RESPONSE,
        OpModel::UnbindRequest => TAG_UNBIND_REQUEST,
        OpModel::SearchRequest(_) => TAG_SEARCH_REQUEST,
        OpModel::SearchResultEntry(_) => TAG_SEARCH_ENTRY,
        OpModel::SearchResultDone(_) => TAG_SEARCH_DONE,
        OpModel::SearchResultReference(_) => TAG_SEARCH_REF,
        OpModel::ModifyRequest(_) => TAG_MODIFY_REQUEST,
        OpModel::ModifyResponse(_) => TAG_MODIFY_RESPONSE,
        OpModel::AddRequest(_) => TAG_ADD_REQUEST,
        OpModel::AddResponse(_) => TAG_ADD_RESPONSE,
        OpModel::DelRequest(_) => TAG_DEL_REQUEST,
        OpModel::DelResponse(_) => TAG_DEL_RESPONSE,
        OpModel::ModifyDnRequest(_) => TAG_MODDN_REQUEST,
        OpModel::ModifyDnResponse(_) => TAG_MODDN_RESPONSE,
        OpModel::CompareRequest(_) => TAG_COMPARE_REQUEST,
        OpModel::CompareResponse(_) => TAG_COMPARE_RESPONSE,
        OpModel::AbandonRequest(_) => TAG_ABANDON_REQUEST,
        OpModel::ExtendedRequest(_) => TAG_EXTENDED_REQUEST,
        OpModel::ExtendedResponse(_) => TAG_EXTENDED_RESPONSE,
    }
}

/// The content of an op's element.
pub open spec fn op_content(op: OpModel) -> Seq<u8> {
    match op {
        OpModel::BindRequest(r) => enc_int(r.version as int) + enc_str(r.name) + match r.auth {
            BindAuthModel::Simple(s) => tlv(0x80, s),
            BindAuthModel::Sasl { mechanism, credentials } => tlv(
                0xa3,
                tlv(TAG_SEQUENCE, enc_str(mechanism) + match credentials {
                    Some(c) => enc_bytes(c),
                    None => Seq::empty(),
                }),
            ),
        },
        OpModel::BindResponse(r) => ldap_result_content(r.result) + match r.server_sasl_creds {
            Some(c) => tlv(0x87, c),
            None => Seq::empty(),
        },
        OpModel::UnbindRequest => Seq::empty(),
        OpModel::SearchRequest(r) => enc_str(r.base_dn) + enc_enum(scope_value(r.scope)) + enc_enum(
            deref_value(r.deref),
        ) + enc_int(r.size_limit as int) + enc_int(r.time_limit as int) + enc_bool(r.types_only) + filter_bytes(
            r.filter,
        ) + tlv(TAG_SEQUENCE, enc_strs(r.attributes)),
        OpModel::SearchResultEntry(e) => enc_str(e.dn) + attribute_list_bytes(e.attributes),
        OpModel::SearchResultDone(r) => ldap_result_content(r),
        OpModel::SearchResultReference(uris) => enc_strs(uris),
        OpModel::ModifyRequest(r) => enc_str(r.dn) + tlv(
            TAG_SEQUENCE,
            concat_map(r.changes, |c: ChangeModel| change_bytes(c)),
        ),
        OpModel::ModifyResponse(r) => ldap_result_content(r),
        OpModel::AddRequest(r) => enc_str(r.dn) + attribute_list_bytes(r.attributes),
        OpModel::AddResponse(r) => ldap_result_content(r),
        OpModel::DelRequest(dn) => encode_utf8(dn),
        OpModel::DelResponse(r) => ldap_result_content(r),
        OpModel::ModifyDnRequest(r) => enc_str(r.dn) + enc_str(r.new_rdn) + enc_bool(r.delete_old_rdn) + match r.new_superior {
            Some(s) => tlv(0x80, encode_utf8(s)),
            None => Seq::empty(),
        },
        OpModel::ModifyDnResponse(r) => ldap_result_content(r),
        OpModel::CompareRequest(r) => enc_str(r.dn) + ava_bytes(r.ava),
        OpModel::CompareResponse(r) => ldap_result_content(r),
        OpModel::AbandonRequest(id) => int_min(id as int),
        OpModel::ExtendedRequest(r) => tlv(0x80, encode_utf8(r.name)) + match r.value {
            Some(v) => tlv(0x81, v),
            None => Seq::empty(),
        },
        OpModel::ExtendedResponse(r) => ldap_result_content(r.result) + (match r.name {
            Some(n) => tlv(0x8a, encode_utf8(n)),
            None => Seq::empty(),
        }) + match r.value {
            Some(v) => tlv(0x8b, v),
            None => Seq::empty(),
        },
    }
}

/// An op's image is its element.
pub proof fn lemma_op_bytes(op: OpModel)
    ensures
        op_bytes(op) == tlv(op_tag(op), op_content(op)),
{
}

/// Whether an op answers with a result alone.
pub open spec fn result_op(op: OpModel) -> bool {
    ||| op is BindResponse
    ||| op is SearchResultDone
    ||| op is ModifyResponse
    ||| op is AddResponse
    ||| op is DelResponse
    ||| op is ModifyDnResponse
    ||| op is CompareResponse
    ||| op is ExtendedResponse
}

/// The result an answering op carries.
pub open spec fn op_result(op: OpModel) -> LdapResultModel {
    match op {
        OpModel::BindResponse(r) => r.result,
        OpModel::SearchResultDone(r) => r,
        OpModel::ModifyResponse(r) => r,
        OpModel::AddResponse(r) => r,
        OpModel::DelResponse(r) => r,
        OpModel::ModifyDnResponse(r) => r,
        OpModel::CompareResponse(r) => r,
        OpModel::ExtendedResponse(r) => r.result,
        _ => LdapResultModel { code: ResultCode::Success, matched_dn: Seq::empty(), message: Seq::empty(), referrals: Seq::empty() },
    }
}

#[verifier::spinoff_prover]
#[verifier::rlimit(40)]
proof fn lemma_result_op_rt(op: OpModel)
    requires
        op_rt(op),
        result_op(op),
        op_content(op).len() <= MAX_BER_MESSAGE_SIZE,
    ensures
        dec_protocol_op(op_tag(op), op_content(op)) == Some(op),
{
    let c = op_content(op);
    let r = op_result(op);
    assert(c =~= ldap_result_content(r));
    lemma_at_whole(c);
    lemma_rd_ldap_result(c, 0, r);
    if let OpModel::ExtendedResponse(x) = op {
        assert(rd_ext_response_tail(c, c.len() as int, None, None) == Some((x.name, x.value)));
        assert(dec_extended_response(c) == Some(x));
    }
    if let OpModel::BindResponse(x) = op {
        assert(dec_bind_response(c) == Some(x));
    }
}

#[verifier::spinoff_prover]
#[verifier::rlimit(40)]
proof fn lemma_plain_op_rt(op: OpModel)
    requires
        op_rt(op),
        op is BindRequest || op is UnbindRequest || op is DelRequest || op is AbandonRequest || op is ExtendedRequest
            || op is SearchResultReference,
        op_content(op).len() <= MAX_BER_MESSAGE_SIZE,
    ensures
        dec_protocol_op(op_tag(op), op_content(op)) == Some(op),
{
    let c = op_content(op);
    lemma_at_whole(c);
    match op {
        OpModel::BindRequest(r) => {
            let i = enc_int(r.version as int);
            let n = enc_str(r.name);
            let s = r.auth->Simple_0;
            lemma_at_split(c, 0, i + n, tlv(0x80, s));
            lemma_at_split(c, 0, i, n);
            lemma_rd_int(c, 0, r.version as i64);
            lemma_rd_str(c, i.len() as int, r.name);
            lemma_read_at(c, (i.len() + n.len()) as int, 0x80, s);
            assert(((r.version as i64) as u8) == r.version);
            assert(dec_bind_request(c) == Some(r));
        },
        OpModel::DelRequest(dn) => {
            lemma_lossy_of_utf8(dn);
        },
        OpModel::AbandonRequest(id) => {
            lemma_integer_roundtrip(id as i64);
            assert(((id as i64) as i32) == id);
        },
        OpModel::ExtendedRequest(r) => {
            let nb = tlv(0x80, encode_utf8(r.name));
            lemma_lossy_of_utf8(r.name);
            match r.value {
                Some(v) => {
                    lemma_at_split(c, 0, nb, tlv(0x81, v));
                    lemma_read_at(c, 0, 0x80, encode_utf8(r.name));
                    lemma_read_at(c, nb.len() as int, 0x81, v);
                },
                None => {
                    assert(c =~= nb);
                    lemma_read_at(c, 0, 0x80, encode_utf8(r.name));
                },
            }
            assert(dec_extended_request(c) == Some(r));
        },
        OpModel::SearchResultReference(uris) => {
            lemma_rd_str_list(c, 0, uris);
        },
        _ => {},
    }
}

/// A DN followed by the SEQUENCE of an entry's attributes reads back as the entry.
proof fn lemma_entry_rt(dn: Seq<char>, attrs: Seq<AttributeModel>)
    requires
        (enc_str(dn) + attribute_list_bytes(attrs)).len() <= MAX_BER_MESSAGE_SIZE,
    ensures
        dec_search_entry(enc_str(dn) + attribute_list_bytes(attrs)) == Some(EntryModel { dn, attributes: attrs }),
{
    let c = enc_str(dn) + attribute_list_bytes(attrs);
    let l = concat_map(attrs, |a: AttributeModel| attribute_bytes(a));
    lemma_at_whole(c);
    lemma_at_split(c, 0, enc_str(dn), tlv(TAG_SEQUENCE, l));
    lemma_rd_str(c, 0, dn);
    lemma_read_at(c, enc_str(dn).len() as int, TAG_SEQUENCE, l);
    lemma_at_whole(l);
    lemma_rd_attr_list(l, 0, attrs);
}

proof fn lemma_modify_rt(r: ModifyRequestModel)
    requires
        op_content(OpModel::ModifyRequest(r)).len() <= MAX_BER_MESSAGE_SIZE,
    ensures
        dec_modify_request(op_content(OpModel::ModifyRequest(r))) == Some(r),
{
    let c = op_content(OpModel::ModifyRequest(r));
    lemma_at_whole(c);
    let l = concat_map(r.changes, |c: ChangeModel| change_bytes(c));
    lemma_at_split(c, 0, enc_str(r.dn), tlv(TAG_SEQUENCE, l));
    lemma_rd_str(c, 0, r.dn);
    lemma_read_at(c, enc_str(r.dn).len() as int, TAG_SEQUENCE, l);
    lemma_at_whole(l);
    lemma_rd_change_list(l, 0, r.changes);
}

proof fn lemma_compare_rt(r: CompareModel)
    requires
        op_content(OpModel::CompareRequest(r)).len() <= MAX_BER_MESSAGE_SIZE,
    ensures
        dec_compare_request(op_content(OpModel::CompareRequest(r))) == Some(r),
{
    let c = op_content(OpModel::CompareRequest(r));
    lemma_at_whole(c);
    let a = enc_str(r.ava.attribute) + enc_bytes(r.ava.value);
    lemma_at_split(c, 0, enc_str(r.dn), tlv(TAG_SEQUENCE, a));
    lemma_rd_str(c, 0, r.dn);
    lemma_read_at(c, enc_str(r.dn).len() as int, TAG_SEQUENCE, a);
    lemma_at_whole(a);
    lemma_at_split(a, 0, enc_str(r.ava.attribute), enc_bytes(r.ava.value));
    lemma_rd_str(a, 0, r.ava.attribute);
    lemma_rd_bytes(a, enc_str(r.ava.attribute).len() as int, r.ava.value);
    assert(dec_ava(a) == Some(r.ava));
}

#[verifier::spinoff_prover]
proof fn lemma_moddn_rt(r: ModifyDnModel)
    requires
        op_content(OpModel::ModifyDnRequest(r)).len() <= MAX_BER_MESSAGE_SIZE,
    ensures
        dec_moddn_request(op_content(OpModel::ModifyDnRequest(r))) == Some(r),
{
    let c = op_content(OpModel::ModifyDnRequest(r));
    lemma_at_whole(c);
    let x = enc_str(r.dn);
    let y = enc_str(r.new_rdn);
    let z = enc_bool(r.delete_old_rdn);
    let w = match r.new_superior {
        Some(s) => tlv(0x80, encode_utf8(s)),
        None => Seq::<u8>::empty(),
    };
    assert(c == x + y + z + w);
    lemma_at_split(c, 0, x + y + z, w);
    lemma_at_split(c, 0, x + y, z);
    lemma_at_split(c, 0, x, y);
    lemma_rd_str(c, 0, r.dn);
    lemma_rd_str(c, x.len() as int, r.new_rdn);
    lemma_rd_bool(c, (x.len() + y.len()) as int, r.delete_old_rdn);
    if let Some(s) = r.new_superior {
        lemma_read_at(c, (x.len() + y.len() + z.len()) as int, 0x80, encode_utf8(s));
        lemma_lossy_of_utf8(s);
    } else {
        assert(c.len() == x.len() + y.len() + z.len());
    }
}

#[verifier::spinoff_prover]
#[verifier::rlimit(60)]
proof fn lemma_request_op_rt(op: OpModel)
    requires
        op is SearchResultEntry || op is AddRequest || op is ModifyRequest || op is CompareRequest || op is ModifyDnRequest,
        op_content(op).len() <= MAX_BER_MESSAGE_SIZE,
    ensures
        dec_protocol_op(op_tag(op), op_content(op)) == Some(op),
{
    match op {
        OpModel::SearchResultEntry(e) => {
            lemma_entry_rt(e.dn, e.attributes);
            assert(op_content(op) == enc_str(e.dn) + attribute_list_bytes(e.attributes));
        },
        OpModel::AddRequest(r) => {
            lemma_entry_rt(r.dn, r.attributes);
            assert(op_content(op) == enc_str(r.dn) + attribute_list_bytes(r.attributes));
            assert(dec_add_request(op_content(op)) == Some(r));
        },
        OpModel::ModifyRequest(r) => {
            lemma_modify_rt(r);
        },
        OpModel::CompareRequest(r) => {
            lemma_compare_rt(r);
        },
        OpModel::ModifyDnRequest(r) => {
            lemma_moddn_rt(r);
        },
        _ => {},
    }
}

#[verifier::spinoff_prover]
#[verifier::rlimit(60)]
proof fn lemma_search_rt(r: SearchRequestModel)
    requires
        filter_rt(r.filter),
        op_content(OpModel::SearchRequest(r)).len() <= MAX_BER_MESSAGE_SIZE,
    ensures
        dec_search_request(op_content(OpModel::SearchRequest(r))) == Some(r),
{
    let c = op_content(OpModel::SearchRequest(r));
    let x1 = enc_str(r.base_dn);
    let x2 = enc_enum(scope_value(r.scope));
    let x3 = enc_enum(deref_value(r.deref));
    let x4 = enc_int(r.size_limit as int);
    let x5 = enc_int(r.time_limit as int);
    let x6 = enc_bool(r.types_only);
    let x7 = filter_bytes(r.filter);
    let x8 = tlv(TAG_SEQUENCE, enc_strs(r.attributes));
    let y2 = x1 + x2;
    let y3 = y2 + x3;
    let y4 = y3 + x4;
    let y5 = y4 + x5;
    let y6 = y5 + x6;
    let y7 = y6 + x7;
    assert(c == y7 + x8);
    lemma_at_whole(c);
    lemma_at_split(c, 0, y7, x8);
    lemma_at_split(c, 0, y6, x7);
    lemma_at_split(c, 0, y5, x6);
    lemma_at_split(c, 0, y4, x5);
    lemma_at_split(c, 0, y3, x4);
    lemma_at_split(c, 0, y2, x3);
    lemma_at_split(c, 0, x1, x2);
    lemma_rd_str(c, 0, r.base_dn);
    lemma_rd_enum(c, x1.len() as int, scope_value(r.scope));
    lemma_rd_enum(c, y2.len() as int, deref_value(r.deref));
    lemma_rd_int(c, y3.len() as int, r.size_limit as i64);
    lemma_rd_int(c, y4.len() as int, r.time_limit as i64);
    lemma_rd_bool(c, y5.len() as int, r.types_only);
    lemma_filter_rt(r.filter);
    lemma_read_at(c, y6.len() as int, filter_tag(r.filter), filter_content(r.filter));
    lemma_read_at(c, y7.len() as int, TAG_SEQUENCE, enc_strs(r.attributes));
    lemma_at_whole(enc_strs(r.attributes));
    lemma_rd_str_list(enc_strs(r.attributes), 0, r.attributes);
    assert(scope_of(scope_value(r.scope)) == Some(r.scope));
    assert(deref_of(deref_value(r.deref)) == Some(r.deref));
    assert(((r.size_limit as i64) as u32) == r.size_limit);
    assert(((r.time_limit as i64) as u32) == r.time_limit);
}

/// An op the decoder reads back does.
pub proof fn lemma_op_rt(op: OpModel)
    requires
        op_rt(op),
        op_content(op).len() <= MAX_BER_MESSAGE_SIZE,
    ensures
        dec_protocol_op(op_tag(op), op_content(op)) == Some(op),
{
    if result_op(op) {
        lemma_result_op_rt(op);
    } else if op is SearchRequest {
        lemma_search_rt(op->SearchRequest_0);
    } else if op is SearchResultEntry || op is AddRequest || op is ModifyRequest || op is CompareRequest
        || op is ModifyDnRequest {
        lemma_request_op_rt(op);
    } else {
        lemma_plain_op_rt(op);
    }
}

/// A message the decoder reads back: a message ID that is not negative, an op it reads
/// back, and an image within the largest element the decoder takes.
pub open spec fn message_rt(m: MessageModel) -> bool {
    &&& m.message_id >= 0
    &&& op_rt(m.op)
    &&& message_bytes(m).len() <= MAX_BER_MESSAGE_SIZE
}

/// Decoding the image of a message gives the message back, for every message whose
/// parts the decoder reads back as they were written.
#[verifier::spinoff_prover]
#[verifier::rlimit(60)]
pub proof fn lemma_message_roundtrip(m: MessageModel)
    requires
        message_rt(m),
    ensures
        dec_message(message_bytes(m)) == Some(m),
{
    let d = message_bytes(m);
    let i = enc_int(m.message_id as int);
    let o = op_bytes(m.op);
    let l = concat_map(m.controls, |c: ControlModel| control_bytes(c));
    let k = if m.controls.len() > 0 { tlv(0xa0, tlv(TAG_SEQUENCE, l)) } else { Seq::<u8>::empty() };
    let c = i + o + k;
    assert(d == tlv(TAG_SEQUENCE, c));
    lemma_at_whole(d);
    lemma_read_at(d, 0, TAG_SEQUENCE, c);
    lemma_at_whole(c);
    lemma_at_split(c, 0, i + o, k);
    lemma_at_split(c, 0, i, o);
    lemma_rd_int(c, 0, m.message_id as i64);
    lemma_op_bytes(m.op);
    lemma_read_at(c, i.len() as int, op_tag(m.op), op_content(m.op));
    lemma_op_rt(m.op);
    if m.controls.len() > 0 {
        lemma_read_at(c, (i.len() + o.len()) as int, 0xa0, tlv(TAG_SEQUENCE, l));
        let cc = tlv(TAG_SEQUENCE, l);
        lemma_at_whole(cc);
        lemma_read_at(cc, 0, TAG_SEQUENCE, l);
        lemma_at_whole(l);
        lemma_rd_control_list(l, 0, m.controls);
        assert(dec_controls(0xa0, cc) == Some(m.controls));
    } else {
        assert(m.controls =~= Seq::<ControlModel>::empty());
    }
    assert(((m.message_id as i64) as i32) == m.message_id);
}

} // verus!
