//! Decoding LDAP messages from BER.
use vstd::prelude::*;
use vstd::utf8::{valid_utf8, decode_utf8};
use crate::error::{ProtoError, ProtoResult};
use crate::text::{lossy_text, string_from_utf8, string_from_utf8_lossy};
use super::ber::{BerElement, TAG_BOOLEAN, TAG_ENUM, TAG_INTEGER, TAG_OCTET_STRING, TAG_SEQUENCE, TAG_SET, ber_int_decode, ber_read, decode_boolean_content, decode_integer_content, read_element};
use super::model::{Attribute, AttributeModel, AttributeValueAssertion, AvaModel, BindAuth, BindAuthModel, BindRequest, BindRequestModel, BindResponse, BindResponseModel, Change, ChangeModel, CompareModel, CompareRequest, Control, ControlModel, DerefAliases, EntryModel, ExtendedRequest, ExtendedRequestModel, ExtendedResponse, ExtendedResponseModel, ExtensibleMatch, ExtensibleModel, Filter, FilterModel, LdapMessage, LdapResult, LdapResultModel, MessageModel, ModifyDnModel, ModifyDnRequest, ModifyOp, ModifyRequest, ModifyRequestModel, OpModel, ProtocolOp, ResultCode, SearchRequest, SearchRequestModel, SearchResultEntry, SearchScope, Substring, SubstringModel, AddRequest, AddRequestModel, attributes_model, filter_model, filters_model, opt_bytes, opt_string, strings_model, substrings_model, values_model};

verus! {

// ----- primitive readers -----

/// An element with the given tag: its content and the position after it.
pub open spec fn rd_tagged(d: Seq<u8>, p: int, tag: u8) -> Option<(Seq<u8>, int)> {
    match ber_read(d, p) {
        Some((t, c, q)) => if t == tag {
            Some((c, q))
        } else {
            None
        },
        None => None,
    }
}

/// An INTEGER.
pub open spec fn rd_int(d: Seq<u8>, p: int) -> Option<(i64, int)> {
    match rd_tagged(d, p, TAG_INTEGER) {
        Some((c, q)) => match ber_int_decode(c) {
            Some(v) => Some((v, q)),
            None => None,
        },
        None => None,
    }
}

/// An ENUMERATED, cut to 32 bits.
pub open spec fn rd_enum(d: Seq<u8>, p: int) -> Option<(u32, int)> {
    match rd_tagged(d, p, TAG_ENUM) {
        Some((c, q)) => match ber_int_decode(c) {
            Some(v) => Some((v as u32, q)),
            None => None,
        },
        None => None,
    }
}

/// A BOOLEAN of one content byte.
pub open spec fn rd_bool(d: Seq<u8>, p: int) -> Option<(bool, int)> {
    match rd_tagged(d, p, TAG_BOOLEAN) {
        Some((c, q)) => if c.len() == 1 {
            Some((c[0] != 0, q))
        } else {
            None
        },
        None => None,
    }
}

/// An OCTET STRING holding UTF-8 text.
pub open spec fn rd_str(d: Seq<u8>, p: int) -> Option<(Seq<char>, int)> {
    match rd_tagged(d, p, TAG_OCTET_STRING) {
        Some((c, q)) => if valid_utf8(c) {
            Some((decode_utf8(c), q))
        } else {
            None
        },
        None => None,
    }
}

/// An OCTET STRING.
pub open spec fn rd_bytes(d: Seq<u8>, p: int) -> Option<(Seq<u8>, int)> {
    rd_tagged(d, p, TAG_OCTET_STRING)
}

/// Text strings, one after another, up to the end.
pub open spec fn rd_str_list(d: Seq<u8>, p: int) -> Option<Seq<Seq<char>>>
    decreases d.len() - p,
{
    if p >= d.len() {
        Some(Seq::empty())
    } else {
        match rd_str(d, p) {
            Some((s, q)) => if q <= p {
                None
            } else {
                match rd_str_list(d, q) {
                    Some(rest) => Some(seq![s] + rest),
                    None => None,
                }
            },
            None => None,
        }
    }
}

/// The contents of the elements, one after another, up to the end.
pub open spec fn rd_content_list(d: Seq<u8>, p: int) -> Option<Seq<Seq<u8>>>
    decreases d.len() - p,
{
    if p >= d.len() {
        Some(Seq::empty())
    } else {
        match ber_read(d, p) {
            Some((_, c, q)) => if q <= p {
                None
            } else {
                match rd_content_list(d, q) {
                    Some(rest) => Some(seq![c] + rest),
                    None => None,
                }
            },
            None => None,
        }
    }
}

proof fn lemma_ber_read_advances(d: Seq<u8>, p: int)
    ensures
        ber_read(d, p) matches Some((_, _, q)) ==> p + 2 <= q <= d.len(),
{
}

// ----- exec readers -----

/// Reads the element at `pos`; the position after it lies further on.
pub fn read_at(data: &[u8], pos: usize) -> (r: ProtoResult<(BerElement, usize)>)
    requires
        pos <= data.len(),
    ensures
        match r {
            Ok((e, q)) => ber_read(data@, pos as int) == Some((e.tag, e.content@, q as int)) && pos + 2 <= q
                <= data.len(),
            Err(x) => ber_read(data@, pos as int) is None && x is Parse,
        },
{
    let r = read_element(data, pos);
    proof {
        lemma_ber_read_advances(data@, pos as int);
    }
    r
}

fn read_tagged(data: &[u8], pos: usize, tag: u8) -> (r: ProtoResult<(Vec<u8>, usize)>)
    requires
        pos <= data.len(),
    ensures
        match r {
            Ok((c, q)) => rd_tagged(data@, pos as int, tag) == Some((c@, q as int)) && pos + 2 <= q <= data.len(),
            Err(x) => rd_tagged(data@, pos as int, tag) is None && x is Parse,
        },
{
    let (e, q) = read_at(data, pos)?;
    if e.tag != tag {
        return Err(ProtoError::Parse("unexpected tag"));
    }
    Ok((e.content, q))
}

fn read_integer(data: &[u8], pos: usize) -> (r: ProtoResult<(i64, usize)>)
    requires
        pos <= data.len(),
    ensures
        match r {
            Ok((v, q)) => rd_int(data@, pos as int) == Some((v, q as int)) && pos + 2 <= q <= data.len(),
            Err(x) => rd_int(data@, pos as int) is None && x is Parse,
        },
{
    let (c, q) = read_tagged(data, pos, TAG_INTEGER)?;
    let v = decode_integer_content(c.as_slice())?;
    Ok((v, q))
}

fn read_enum(data: &[u8], pos: usize) -> (r: ProtoResult<(u32, usize)>)
    requires
        pos <= data.len(),
    ensures
        match r {
            Ok((v, q)) => rd_enum(data@, pos as int) == Some((v, q as int)) && pos + 2 <= q <= data.len(),
            Err(x) => rd_enum(data@, pos as int) is None && x is Parse,
        },
{
    let (c, q) = read_tagged(data, pos, TAG_ENUM)?;
    let v = decode_integer_content(c.as_slice())?;
    Ok((v as u32, q))
}

fn read_boolean(data: &[u8], pos: usize) -> (r: ProtoResult<(bool, usize)>)
    requires
        pos <= data.len(),
    ensures
        match r {
            Ok((v, q)) => rd_bool(data@, pos as int) == Some((v, q as int)) && pos + 2 <= q <= data.len(),
            Err(x) => rd_bool(data@, pos as int) is None && x is Parse,
        },
{
    let (c, q) = read_tagged(data, pos, TAG_BOOLEAN)?;
    let v = decode_boolean_content(c.as_slice())?;
    Ok((v, q))
}

fn read_string(data: &[u8], pos: usize) -> (r: ProtoResult<(String, usize)>)
    requires
        pos <= data.len(),
    ensures
        match r {
            Ok((v, q)) => rd_str(data@, pos as int) == Some((v@, q as int)) && pos + 2 <= q <= data.len(),
            Err(x) => rd_str(data@, pos as int) is None && x is Parse,
        },
{
    let (c, q) = read_tagged(data, pos, TAG_OCTET_STRING)?;
    match string_from_utf8(c) {
        Some(s) => Ok((s, q)),
        None => Err(ProtoError::Parse("invalid utf-8 string")),
    }
}

fn read_bytes(data: &[u8], pos: usize) -> (r: ProtoResult<(Vec<u8>, usize)>)
    requires
        pos <= data.len(),
    ensures
        match r {
            Ok((v, q)) => rd_bytes(data@, pos as int) == Some((v@, q as int)) && pos + 2 <= q <= data.len(),
            Err(x) => rd_bytes(data@, pos as int) is None && x is Parse,
        },
{
    read_tagged(data, pos, TAG_OCTET_STRING)
}

fn read_string_list(data: &[u8], pos: usize) -> (r: ProtoResult<Vec<String>>)
    requires
        pos <= data.len(),
    ensures
        match r {
            Ok(v) => rd_str_list(data@, pos as int) == Some(strings_model(v@)),
            Err(x) => rd_str_list(data@, pos as int) is None && x is Parse,
        },
{
    let mut out: Vec<String> = Vec::new();
    let mut p = pos;
    while p < data.len()
        invariant
            pos <= p <= data.len(),
            rd_str_list(data@, pos as int) == match rd_str_list(data@, p as int) {
                Some(rest) => Some(strings_model(out@) + rest),
                None => None::<Seq<Seq<char>>>,
            },
        decreases data.len() - p,
    {
        let (s, q) = read_string(data, p)?;
        proof {
            assert(strings_model(out@.push(s)) =~= strings_model(out@).push(s@));
            match rd_str_list(data@, q as int) {
                Some(rest) => {
                    assert(strings_model(out@) + (seq![s@] + rest) =~= strings_model(out@).push(s@) + rest);
                },
                None => {},
            }
        }
        out.push(s);
        p = q;
    }
    assert(strings_model(out@) + Seq::<Seq<char>>::empty() =~= strings_model(out@));
    Ok(out)
}

fn read_content_list(data: &[u8], pos: usize) -> (r: ProtoResult<Vec<Vec<u8>>>)
    requires
        pos <= data.len(),
    ensures
        match r {
            Ok(v) => rd_content_list(data@, pos as int) == Some(values_model(v@)),
            Err(x) => rd_content_list(data@, pos as int) is None && x is Parse,
        },
{
    let mut out: Vec<Vec<u8>> = Vec::new();
    let mut p = pos;
    while p < data.len()
        invariant
            pos <= p <= data.len(),
            rd_content_list(data@, pos as int) == match rd_content_list(data@, p as int) {
                Some(rest) => Some(values_model(out@) + rest),
                None => None::<Seq<Seq<u8>>>,
            },
        decreases data.len() - p,
    {
        let (e, q) = read_at(data, p)?;
        proof {
            assert(values_model(out@.push(e.content)) =~= values_model(out@).push(e.content@));
            match rd_content_list(data@, q as int) {
                Some(rest) => {
                    assert(values_model(out@) + (seq![e.content@] + rest) =~= values_model(out@).push(e.content@)
                        + rest);
                },
                None => {},
            }
        }
        out.push(e.content);
        p = q;
    }
    assert(values_model(out@) + Seq::<Seq<u8>>::empty() =~= values_model(out@));
    Ok(out)
}

// ----- LDAPResult -----

/// The result code a wire value names.
pub open spec fn result_code_of(v: u32) -> ResultCode {
    if v == 0 { ResultCode::Success }
    else if v == 1 { ResultCode::OperationsError }
    else if v == 2 { ResultCode::ProtocolError }
    else if v == 3 { ResultCode::TimeLimitExceeded }
    else if v == 4 { ResultCode::SizeLimitExceeded }
    else if v == 5 { ResultCode::CompareFalse }
    else if v == 6 { ResultCode::CompareTrue }
    else if v == 7 { ResultCode::AuthMethodNotSupported }
    else if v == 8 { ResultCode::StrongAuthRequired }
    else if v == 10 { ResultCode::Referral }
    else if v == 11 { ResultCode::AdminLimitExceeded }
    else if v == 12 { ResultCode::UnavailableCriticalExtension }
    else if v == 13 { ResultCode::ConfidentialityRequired }
    else if v == 14 { ResultCode::SaslBindInProgress }
    else if v == 16 { ResultCode::NoSuchAttribute }
    else if v == 17 { ResultCode::UndefinedAttributeType }
    else if v == 19 { ResultCode::ConstraintViolation }
    else if v == 20 { ResultCode::AttributeOrValueExists }
    else if v == 21 { ResultCode::InvalidAttributeSyntax }
    else if v == 32 { ResultCode::NoSuchObject }
    else if v == 33 { ResultCode::AliasProblem }
    else if v == 34 { ResultCode::InvalidDNSyntax }
    else if v == 36 { ResultCode::AliasDereferencingProblem }
    else if v == 48 { ResultCode::InappropriateAuthentication }
    else if v == 49 { ResultCode::InvalidCredentials }
    else if v == 50 { ResultCode::InsufficientAccess }
    else if v == 51 { ResultCode::Busy }
    else if v == 52 { ResultCode::Unavailable }
    else if v == 53 { ResultCode::UnwillingToPerform }
    else if v == 54 { ResultCode::LoopDetect }
    else if v == 64 { ResultCode::NamingViolation }
    else if v == 65 { ResultCode::ObjectClassViolation }
    else if v == 66 { ResultCode::NotAllowedOnNonLeaf }
    else if v == 67 { ResultCode::NotAllowedOnRDN }
    else if v == 68 { ResultCode::EntryAlreadyExists }
    else if v == 69 { ResultCode::ObjectClassModsProhibited }
    else { ResultCode::Other(v) }
}

/// The wire value of a result code.
pub open spec fn result_code_value(c: ResultCode) -> u32 {
    match c {
        ResultCode::Success => 0,
        ResultCode::OperationsError => 1,
        ResultCode::ProtocolError => 2,
        ResultCode::TimeLimitExceeded => 3,
        ResultCode::SizeLimitExceeded => 4,
        ResultCode::CompareFalse => 5,
        ResultCode::CompareTrue => 6,
        ResultCode::AuthMethodNotSupported => 7,
        ResultCode::StrongAuthRequired => 8,
        ResultCode::Referral => 10,
        ResultCode::AdminLimitExceeded => 11,
        ResultCode::UnavailableCriticalExtension => 12,
        ResultCode::ConfidentialityRequired => 13,
        ResultCode::SaslBindInProgress => 14,
        ResultCode::NoSuchAttribute => 16,
        ResultCode::UndefinedAttributeType => 17,
        ResultCode::ConstraintViolation => 19,
        ResultCode::AttributeOrValueExists => 20,
        ResultCode::InvalidAttributeSyntax => 21,
        ResultCode::NoSuchObject => 32,
        ResultCode::AliasProblem => 33,
        ResultCode::InvalidDNSyntax => 34,
        ResultCode::AliasDereferencingProblem => 36,
        ResultCode::InappropriateAuthentication => 48,
        ResultCode::InvalidCredentials => 49,
        ResultCode::InsufficientAccess => 50,
        ResultCode::Busy => 51,
        ResultCode::Unavailable => 52,
        ResultCode::UnwillingToPerform => 53,
        ResultCode::LoopDetect => 54,
        ResultCode::NamingViolation => 64,
        ResultCode::ObjectClassViolation => 65,
        ResultCode::NotAllowedOnNonLeaf => 66,
        ResultCode::NotAllowedOnRDN => 67,
        ResultCode::EntryAlreadyExists => 68,
        ResultCode::ObjectClassModsProhibited => 69,
        ResultCode::Other(v) => v,
    }
}

impl ResultCode {
    /// The wire value of the code.
    pub fn to_u32(self) -> (r: u32)
        ensures
            r == result_code_value(self),
    {
        match self {
            ResultCode::Success => 0,
            ResultCode::OperationsError => 1,
            ResultCode::ProtocolError => 2,
            ResultCode::TimeLimitExceeded => 3,
            ResultCode::SizeLimitExceeded => 4,
            ResultCode::CompareFalse => 5,
            ResultCode::CompareTrue => 6,
            ResultCode::AuthMethodNotSupported => 7,
            ResultCode::StrongAuthRequired => 8,
            ResultCode::Referral => 10,
            ResultCode::AdminLimitExceeded => 11,
            ResultCode::UnavailableCriticalExtension => 12,
            ResultCode::ConfidentialityRequired => 13,
            ResultCode::SaslBindInProgress => 14,
            ResultCode::NoSuchAttribute => 16,
            ResultCode::UndefinedAttributeType => 17,
            ResultCode::ConstraintViolation => 19,
            ResultCode::AttributeOrValueExists => 20,
            ResultCode::InvalidAttributeSyntax => 21,
            ResultCode::NoSuchObject => 32,
            ResultCode::AliasProblem => 33,
            ResultCode::InvalidDNSyntax => 34,
            ResultCode::AliasDereferencingProblem => 36,
            ResultCode::InappropriateAuthentication => 48,
            ResultCode::InvalidCredentials => 49,
            ResultCode::InsufficientAccess => 50,
            ResultCode::Busy => 51,
            ResultCode::Unavailable => 52,
            ResultCode::UnwillingToPerform => 53,
            ResultCode::LoopDetect => 54,
            ResultCode::NamingViolation => 64,
            ResultCode::ObjectClassViolation => 65,
            ResultCode::NotAllowedOnNonLeaf => 66,
            ResultCode::NotAllowedOnRDN => 67,
            ResultCode::EntryAlreadyExists => 68,
            ResultCode::ObjectClassModsProhibited => 69,
            ResultCode::Other(value) => value,
        }
    }

    /// The code a wire value names.
    pub fn from_u32(value: u32) -> (r: ResultCode)
        ensures
            r == result_code_of(value),
    {
        match value {
            0 => ResultCode::Success,
            1 => ResultCode::OperationsError,
            2 => ResultCode::ProtocolError,
            3 => ResultCode::TimeLimitExceeded,
            4 => ResultCode::SizeLimitExceeded,
            5 => ResultCode::CompareFalse,
            6 => ResultCode::CompareTrue,
            7 => ResultCode::AuthMethodNotSupported,
            8 => ResultCode::StrongAuthRequired,
            10 => ResultCode::Referral,
            11 => ResultCode::AdminLimitExceeded,
            12 => ResultCode::UnavailableCriticalExtension,
            13 => ResultCode::ConfidentialityRequired,
            14 => ResultCode::SaslBindInProgress,
            16 => ResultCode::NoSuchAttribute,
            17 => ResultCode::UndefinedAttributeType,
            19 => ResultCode::ConstraintViolation,
            20 => ResultCode::AttributeOrValueExists,
            21 => ResultCode::InvalidAttributeSyntax,
            32 => ResultCode::NoSuchObject,
            33 => ResultCode::AliasProblem,
            34 => ResultCode::InvalidDNSyntax,
            36 => ResultCode::AliasDereferencingProblem,
            48 => ResultCode::InappropriateAuthentication,
            49 => ResultCode::InvalidCredentials,
            50 => ResultCode::InsufficientAccess,
            51 => ResultCode::Busy,
            52 => ResultCode::Unavailable,
            53 => ResultCode::UnwillingToPerform,
            54 => ResultCode::LoopDetect,
            64 => ResultCode::NamingViolation,
            65 => ResultCode::ObjectClassViolation,
            66 => ResultCode::NotAllowedOnNonLeaf,
            67 => ResultCode::NotAllowedOnRDN,
            68 => ResultCode::EntryAlreadyExists,
            69 => ResultCode::ObjectClassModsProhibited,
            other => ResultCode::Other(other),
        }
    }
}

/// Naming a code by its wire value and reading it back gives the same code,
/// except for an `Other` that carries the value of a named code.
pub proof fn lemma_result_code_roundtrip(c: ResultCode)
    requires
        c matches ResultCode::Other(v) ==> result_code_of(v) == c,
    ensures
        result_code_of(result_code_value(c)) == c,
{
}

/// An LDAPResult read from `p`: code, matched DN, message, and referrals when
/// the next element is tagged as such; and the position after what was read.
pub open spec fn rd_ldap_result(d: Seq<u8>, p: int) -> Option<(LdapResultModel, int)> {
    match rd_enum(d, p) {
        None => None,
        Some((code, p1)) => match rd_str(d, p1) {
            None => None,
            Some((matched, p2)) => match rd_str(d, p2) {
                None => None,
                Some((message, p3)) => if p3 >= d.len() {
                    Some((LdapResultModel { code: result_code_of(code), matched_dn: matched, message, referrals: Seq::empty() }, p3))
                } else {
                    match ber_read(d, p3) {
                        None => None,
                        Some((t, c, p4)) => if t == 0xa3 {
                            match rd_str_list(c, 0) {
                                None => None,
                                Some(refs) => Some((LdapResultModel { code: result_code_of(code), matched_dn: matched, message, referrals: refs }, p4)),
                            }
                        } else {
                            Some((LdapResultModel { code: result_code_of(code), matched_dn: matched, message, referrals: Seq::empty() }, p4))
                        },
                    }
                },
            },
        },
    }
}

fn read_ldap_result(data: &[u8], pos: usize) -> (r: ProtoResult<(LdapResult, usize)>)
    requires
        pos <= data.len(),
    ensures
        match r {
            Ok((v, q)) => rd_ldap_result(data@, pos as int) == Some((v@, q as int)) && pos <= q <= data.len(),
            Err(x) => rd_ldap_result(data@, pos as int) is None && x is Parse,
        },
{
    let (code, p1) = read_enum(data, pos)?;
    let (matched_dn, p2) = read_string(data, p1)?;
    let (message, p3) = read_string(data, p2)?;
    let code = ResultCode::from_u32(code);
    if p3 >= data.len() {
        let referrals: Vec<String> = Vec::new();
        assert(strings_model(referrals@) =~= Seq::<Seq<char>>::empty());
        return Ok((LdapResult { code, matched_dn, message, referrals }, p3));
    }
    let (e, p4) = read_at(data, p3)?;
    if e.tag == 0xa3 {
        let referrals = read_string_list(e.content.as_slice(), 0)?;
        Ok((LdapResult { code, matched_dn, message, referrals }, p4))
    } else {
        let referrals: Vec<String> = Vec::new();
        assert(strings_model(referrals@) =~= Seq::<Seq<char>>::empty());
        Ok((LdapResult { code, matched_dn, message, referrals }, p4))
    }
}

// ----- attributes and assertions -----

/// A PartialAttribute: its type, then the contents of its value elements.
pub open spec fn dec_attribute(c: Seq<u8>) -> Option<AttributeModel> {
    match rd_str(c, 0) {
        None => None,
        Some((name, p1)) => match ber_read(c, p1) {
            None => None,
            Some((_, vc, _)) => match rd_content_list(vc, 0) {
                None => None,
                Some(values) => Some(AttributeModel { name, values }),
            },
        },
    }
}

/// PartialAttributes, one element after another, up to the end.
pub open spec fn rd_attr_list(d: Seq<u8>, p: int) -> Option<Seq<AttributeModel>>
    decreases d.len() - p,
{
    if p >= d.len() {
        Some(Seq::empty())
    } else {
        match ber_read(d, p) {
            None => None,
            Some((_, c, q)) => if q <= p {
                None
            } else {
                match dec_attribute(c) {
                    None => None,
                    Some(a) => match rd_attr_list(d, q) {
                        Some(rest) => Some(seq![a] + rest),
                        None => None,
                    },
                }
            },
        }
    }
}

/// An AttributeValueAssertion: the attribute type and the value.
pub open spec fn dec_ava(c: Seq<u8>) -> Option<AvaModel> {
    match rd_str(c, 0) {
        None => None,
        Some((attribute, p1)) => match rd_bytes(c, p1) {
            None => None,
            Some((value, _)) => Some(AvaModel { attribute, value }),
        },
    }
}

fn decode_attribute(c: &[u8]) -> (r: ProtoResult<Attribute>)
    ensures
        match r {
            Ok(a) => dec_attribute(c@) == Some(a@),
            Err(x) => dec_attribute(c@) is None && x is Parse,
        },
{
    let (name, p1) = read_string(c, 0)?;
    let (e, _) = read_at(c, p1)?;
    let values = read_content_list(e.content.as_slice(), 0)?;
    Ok(Attribute { name, values })
}

fn decode_attribute_list(data: &[u8], pos: usize) -> (r: ProtoResult<Vec<Attribute>>)
    requires
        pos <= data.len(),
    ensures
        match r {
            Ok(v) => rd_attr_list(data@, pos as int) == Some(attributes_model(v@)),
            Err(x) => rd_attr_list(data@, pos as int) is None && x is Parse,
        },
{
    let mut out: Vec<Attribute> = Vec::new();
    let mut p = pos;
    while p < data.len()
        invariant
            pos <= p <= data.len(),
            rd_attr_list(data@, pos as int) == match rd_attr_list(data@, p as int) {
                Some(rest) => Some(attributes_model(out@) + rest),
                None => None::<Seq<AttributeModel>>,
            },
        decreases data.len() - p,
    {
        let (e, q) = read_at(data, p)?;
        let a = decode_attribute(e.content.as_slice())?;
        proof {
            assert(attributes_model(out@.push(a)) =~= attributes_model(out@).push(a@));
            match rd_attr_list(data@, q as int) {
                Some(rest) => {
                    assert(attributes_model(out@) + (seq![a@] + rest) =~= attributes_model(out@).push(a@) + rest);
                },
                None => {},
            }
        }
        out.push(a);
        p = q;
    }
    assert(attributes_model(out@) + Seq::<AttributeModel>::empty() =~= attributes_model(out@));
    Ok(out)
}

fn decode_ava(c: &[u8]) -> (r: ProtoResult<AttributeValueAssertion>)
    ensures
        match r {
            Ok(a) => dec_ava(c@) == Some(a@),
            Err(x) => dec_ava(c@) is None && x is Parse,
        },
{
    let (attribute, p1) = read_string(c, 0)?;
    let (value, _) = read_bytes(c, p1)?;
    Ok(AttributeValueAssertion { attribute, value })
}

// ----- filters -----

pub const TAG_FILTER_AND: u8 = 0xa0;
pub const TAG_FILTER_OR: u8 = 0xa1;
pub const TAG_FILTER_NOT: u8 = 0xa2;
pub const TAG_FILTER_EQUALITY: u8 = 0xa3;
pub const TAG_FILTER_SUBSTRINGS: u8 = 0xa4;
pub const TAG_FILTER_GE: u8 = 0xa5;
pub const TAG_FILTER_LE: u8 = 0xa6;
pub const TAG_FILTER_PRESENT: u8 = 0x87;
pub const TAG_FILTER_APPROX: u8 = 0xa8;
pub const TAG_FILTER_EXTENSIBLE: u8 = 0xa9;

/// An element's content is shorter than the bytes it was read from.
pub proof fn lemma_content_shorter(d: Seq<u8>, p: int)
    ensures
        ber_read(d, p) matches Some((_, c, q)) ==> c.len() + 2 <= q - p && q <= d.len() && c.len() < d.len(),
{
}

/// Substring assertions, one element after another; elements of other tags are skipped.
pub open spec fn rd_substrings(d: Seq<u8>, p: int) -> Option<Seq<SubstringModel>>
    decreases d.len() - p,
{
    if p >= d.len() {
        Some(Seq::empty())
    } else {
        match ber_read(d, p) {
            None => None,
            Some((t, c, q)) => if q <= p {
                None
            } else {
                match rd_substrings(d, q) {
                    None => None,
                    Some(rest) => if t == 0x80 {
                        Some(seq![SubstringModel::Initial(lossy_text(c))] + rest)
                    } else if t == 0x81 {
                        Some(seq![SubstringModel::Any(lossy_text(c))] + rest)
                    } else if t == 0x82 {
                        Some(seq![SubstringModel::Final(lossy_text(c))] + rest)
                    } else {
                        Some(rest)
                    },
                }
            },
        }
    }
}

/// The components of an extensible match, each later element overriding an earlier
/// one of the same tag; elements of other tags are skipped.
pub open spec fn rd_extensible(d: Seq<u8>, p: int, acc: ExtensibleModel) -> Option<ExtensibleModel>
    decreases d.len() - p,
{
    if p >= d.len() {
        Some(acc)
    } else {
        match ber_read(d, p) {
            None => None,
            Some((t, c, q)) => if q <= p {
                None
            } else {
                let next = if t == 0x81 {
                    ExtensibleModel { matching_rule: Some(lossy_text(c)), ..acc }
                } else if t == 0x82 {
                    ExtensibleModel { attribute: Some(lossy_text(c)), ..acc }
                } else if t == 0x83 {
                    ExtensibleModel { value: c, ..acc }
                } else if t == 0x84 {
                    ExtensibleModel { dn_attributes: c.len() > 0 && c[0] != 0, ..acc }
                } else {
                    acc
                };
                rd_extensible(d, q, next)
            },
        }
    }
}

/// The filter an element of tag `t` and content `c` holds.
pub open spec fn dec_filter(t: u8, c: Seq<u8>) -> Option<FilterModel>
    decreases c.len(), c.len() + 1,
{
    if t == TAG_FILTER_AND {
        match rd_filter_list(c, 0) {
            None => None,
            Some(fs) => Some(FilterModel::And(fs)),
        }
    } else if t == TAG_FILTER_OR {
        match rd_filter_list(c, 0) {
            None => None,
            Some(fs) => Some(FilterModel::Or(fs)),
        }
    } else if t == TAG_FILTER_NOT {
        match ber_read(c, 0) {
            None => None,
            Some((t2, c2, _)) => {
                proof {
                    lemma_content_shorter(c, 0);
                }
                match dec_filter(t2, c2) {
                    None => None,
                    Some(f) => Some(FilterModel::Not(Box::new(f))),
                }
            },
        }
    } else if t == TAG_FILTER_EQUALITY {
        match dec_ava(c) {
            None => None,
            Some(a) => Some(FilterModel::Equality(a)),
        }
    } else if t == TAG_FILTER_SUBSTRINGS {
        match rd_str(c, 0) {
            None => None,
            Some((attribute, p1)) => match ber_read(c, p1) {
                None => None,
                Some((_, sc, _)) => match rd_substrings(sc, 0) {
                    None => None,
                    Some(subs) => Some(FilterModel::Substrings(attribute, subs)),
                },
            },
        }
    } else if t == TAG_FILTER_GE {
        match dec_ava(c) {
            None => None,
            Some(a) => Some(FilterModel::GreaterOrEqual(a)),
        }
    } else if t == TAG_FILTER_LE {
        match dec_ava(c) {
            None => None,
            Some(a) => Some(FilterModel::LessOrEqual(a)),
        }
    } else if t == TAG_FILTER_PRESENT {
        Some(FilterModel::Present(lossy_text(c)))
    } else if t == TAG_FILTER_APPROX {
        match dec_ava(c) {
            None => None,
            Some(a) => Some(FilterModel::Approx(a)),
        }
    } else if t == TAG_FILTER_EXTENSIBLE {
        match rd_extensible(
            c,
            0,
            ExtensibleModel { matching_rule: None, attribute: None, value: Seq::empty(), dn_attributes: false },
        ) {
            None => None,
            Some(e) => Some(FilterModel::Extensible(e)),
        }
    } else {
        None
    }
}

/// Filters, one element after another, up to the end.
pub open spec fn rd_filter_list(d: Seq<u8>, p: int) -> Option<Seq<FilterModel>>
    decreases d.len(), d.len() - p,
{
    if p >= d.len() || p < 0 {
        Some(Seq::empty())
    } else {
        match ber_read(d, p) {
            None => None,
            Some((t, c, q)) => if q <= p {
                None
            } else {
                proof {
                    lemma_content_shorter(d, p);
                }
                match dec_filter(t, c) {
                    None => None,
                    Some(f) => match rd_filter_list(d, q) {
                        None => None,
                        Some(rest) => Some(seq![f] + rest),
                    },
                }
            },
        }
    }
}

fn decode_substrings(data: &[u8], pos: usize) -> (r: ProtoResult<Vec<Substring>>)
    requires
        pos <= data.len(),
    ensures
        match r {
            Ok(v) => rd_substrings(data@, pos as int) == Some(substrings_model(v@)),
            Err(x) => rd_substrings(data@, pos as int) is None && x is Parse,
        },
    decreases data.len() - pos,
{
    if pos >= data.len() {
        let out: Vec<Substring> = Vec::new();
        assert(substrings_model(out@) =~= Seq::<SubstringModel>::empty());
        return Ok(out);
    }
    let (e, q) = read_at(data, pos)?;
    let mut rest = decode_substrings(data, q)?;
    let ghost rest_model = substrings_model(rest@);
    if e.tag == 0x80 || e.tag == 0x81 || e.tag == 0x82 {
        let text = string_from_utf8_lossy(e.content.as_slice());
        let sub = if e.tag == 0x80 {
            Substring::Initial(text)
        } else if e.tag == 0x81 {
            Substring::Any(text)
        } else {
            Substring::Final(text)
        };
        rest.insert(0, sub);
        assert(substrings_model(rest@) =~= seq![sub@] + rest_model);
    }
    Ok(rest)
}

fn decode_extensible(data: &[u8]) -> (r: ProtoResult<ExtensibleMatch>)
    ensures
        match r {
            Ok(v) => rd_extensible(
                data@,
                0,
                ExtensibleModel { matching_rule: None, attribute: None, value: Seq::empty(), dn_attributes: false },
            ) == Some(v@),
            Err(x) => rd_extensible(
                data@,
                0,
                ExtensibleModel { matching_rule: None, attribute: None, value: Seq::empty(), dn_attributes: false },
            ) is None && x is Parse,
        },
{
    let mut acc = ExtensibleMatch { matching_rule: None, attribute: None, value: Vec::new(), dn_attributes: false };
    assert(acc@ == ExtensibleModel { matching_rule: None, attribute: None, value: Seq::empty(), dn_attributes: false });
    let mut p: usize = 0;
    while p < data.len()
        invariant
            p <= data.len(),
            rd_extensible(
                data@,
                0,
                ExtensibleModel { matching_rule: None, attribute: None, value: Seq::empty(), dn_attributes: false },
            ) == rd_extensible(data@, p as int, acc@),
        decreases data.len() - p,
    {
        let (e, q) = read_at(data, p)?;
        if e.tag == 0x81 {
            acc.matching_rule = Some(string_from_utf8_lossy(e.content.as_slice()));
        } else if e.tag == 0x82 {
            acc.attribute = Some(string_from_utf8_lossy(e.content.as_slice()));
        } else if e.tag == 0x83 {
            acc.value = e.content;
        } else if e.tag == 0x84 {
            acc.dn_attributes = e.content.len() > 0 && e.content[0] != 0;
        }
        p = q;
    }
    Ok(acc)
}

/// Decodes the filter that an element of tag `tag` and content `c` holds.
pub fn decode_filter(tag: u8, c: &[u8]) -> (r: ProtoResult<Filter>)
    ensures
        match r {
            Ok(f) => dec_filter(tag, c@) == Some(f@),
            Err(x) => dec_filter(tag, c@) is None && x is Parse,
        },
    decreases c@.len(), c@.len() + 1,
{
    if tag == TAG_FILTER_AND || tag == TAG_FILTER_OR {
        let fs = decode_filter_list(c, 0)?;
        if tag == TAG_FILTER_AND {
            Ok(Filter::And(fs))
        } else {
            Ok(Filter::Or(fs))
        }
    } else if tag == TAG_FILTER_NOT {
        let (e, _) = read_at(c, 0)?;
        proof {
            lemma_content_shorter(c@, 0);
        }
        let inner = decode_filter(e.tag, e.content.as_slice())?;
        Ok(Filter::Not(Box::new(inner)))
    } else if tag == TAG_FILTER_EQUALITY {
        Ok(Filter::Equality(decode_ava(c)?))
    } else if tag == TAG_FILTER_SUBSTRINGS {
        let (attribute, p1) = read_string(c, 0)?;
        let (e, _) = read_at(c, p1)?;
        let substrings = decode_substrings(e.content.as_slice(), 0)?;
        Ok(Filter::Substrings { attribute, substrings })
    } else if tag == TAG_FILTER_GE {
        Ok(Filter::GreaterOrEqual(decode_ava(c)?))
    } else if tag == TAG_FILTER_LE {
        Ok(Filter::LessOrEqual(decode_ava(c)?))
    } else if tag == TAG_FILTER_PRESENT {
        Ok(Filter::Present(string_from_utf8_lossy(c)))
    } else if tag == TAG_FILTER_APPROX {
        Ok(Filter::Approx(decode_ava(c)?))
    } else if tag == TAG_FILTER_EXTENSIBLE {
        Ok(Filter::Extensible(decode_extensible(c)?))
    } else {
        Err(ProtoError::Parse("invalid filter"))
    }
}

fn decode_filter_list(data: &[u8], pos: usize) -> (r: ProtoResult<Vec<Filter>>)
    requires
        pos <= data.len(),
    ensures
        match r {
            Ok(v) => rd_filter_list(data@, pos as int) == Some(filters_model(v@)),
            Err(x) => rd_filter_list(data@, pos as int) is None && x is Parse,
        },
    decreases data@.len(), data@.len() - pos,
{
    let mut out: Vec<Filter> = Vec::new();
    let mut p = pos;
    while p < data.len()
        invariant
            pos <= p <= data.len(),
            rd_filter_list(data@, pos as int) == match rd_filter_list(data@, p as int) {
                Some(rest) => Some(filters_model(out@) + rest),
                None => None::<Seq<FilterModel>>,
            },
        decreases data.len() - p,
    {
        let (e, q) = read_at(data, p)?;
        proof {
            lemma_content_shorter(data@, p as int);
        }
        let f = decode_filter(e.tag, e.content.as_slice())?;
        proof {
            assert(out@.push(f).subrange(0, out@.len() as int) =~= out@);
            assert(filters_model(out@.push(f)) == filters_model(out@).push(f@));
            match rd_filter_list(data@, q as int) {
                Some(rest) => {
                    assert(filters_model(out@) + (seq![f@] + rest) =~= filters_model(out@).push(f@) + rest);
                },
                None => {},
            }
        }
        out.push(f);
        p = q;
    }
    assert(filters_model(out@) + Seq::<FilterModel>::empty() =~= filters_model(out@));
    Ok(out)
}

// ----- operations -----

pub const TAG_BIND_REQUEST: u8 = 0x60;
pub const TAG_BIND_RESPONSE: u8 = 0x61;
pub const TAG_UNBIND_REQUEST: u8 = 0x42;
pub const TAG_SEARCH_REQUEST: u8 = 0x63;
pub const TAG_SEARCH_ENTRY: u8 = 0x64;
pub const TAG_SEARCH_DONE: u8 = 0x65;
pub const TAG_SEARCH_REF: u8 = 0x73;
pub const TAG_MODIFY_REQUEST: u8 = 0x66;
pub const TAG_MODIFY_RESPONSE: u8 = 0x67;
pub const TAG_ADD_REQUEST: u8 = 0x68;
pub const TAG_ADD_RESPONSE: u8 = 0x69;
pub const TAG_DEL_REQUEST: u8 = 0x4a;
pub const TAG_DEL_RESPONSE: u8 = 0x6b;
pub const TAG_MODDN_REQUEST: u8 = 0x6c;
pub const TAG_MODDN_RESPONSE: u8 = 0x6d;
pub const TAG_COMPARE_REQUEST: u8 = 0x6e;
pub const TAG_COMPARE_RESPONSE: u8 = 0x6f;
pub const TAG_ABANDON_REQUEST: u8 = 0x50;
pub const TAG_EXTENDED_REQUEST: u8 = 0x77;
pub const TAG_EXTENDED_RESPONSE: u8 = 0x78;

/// The search scope a wire value names.
pub open spec fn scope_of(v: u32) -> Option<SearchScope> {
    if v == 0 { Some(SearchScope::Base) } else if v == 1 { Some(SearchScope::One) } else if v == 2 { Some(SearchScope::Subtree) } else { None }
}

/// The alias dereferencing a wire value names.
pub open spec fn deref_of(v: u32) -> Option<DerefAliases> {
    if v == 0 { Some(DerefAliases::Never) } else if v == 1 { Some(DerefAliases::InSearching) } else if v == 2 { Some(DerefAliases::FindingBase) } else if v == 3 { Some(DerefAliases::Always) } else { None }
}

/// The modification a wire value names.
pub open spec fn modify_op_of(v: u32) -> Option<ModifyOp> {
    if v == 0 { Some(ModifyOp::Add) } else if v == 1 { Some(ModifyOp::Delete) } else if v == 2 { Some(ModifyOp::Replace) } else { None }
}

fn scope_from(v: u32) -> (r: ProtoResult<SearchScope>)
    ensures
        match r {
            Ok(s) => scope_of(v) == Some(s),
            Err(x) => scope_of(v) is None && x is Parse,
        },
{
    if v == 0 { Ok(SearchScope::Base) } else if v == 1 { Ok(SearchScope::One) } else if v == 2 { Ok(SearchScope::Subtree) } else { Err(ProtoError::Parse("invalid scope")) }
}

fn deref_from(v: u32) -> (r: ProtoResult<DerefAliases>)
    ensures
        match r {
            Ok(s) => deref_of(v) == Some(s),
            Err(x) => deref_of(v) is None && x is Parse,
        },
{
    if v == 0 { Ok(DerefAliases::Never) } else if v == 1 { Ok(DerefAliases::InSearching) } else if v == 2 { Ok(DerefAliases::FindingBase) } else if v == 3 { Ok(DerefAliases::Always) } else { Err(ProtoError::Parse("invalid deref")) }
}

fn modify_op_from(v: u32) -> (r: ProtoResult<ModifyOp>)
    ensures
        match r {
            Ok(s) => modify_op_of(v) == Some(s),
            Err(x) => modify_op_of(v) is None && x is Parse,
        },
{
    if v == 0 { Ok(ModifyOp::Add) } else if v == 1 { Ok(ModifyOp::Delete) } else if v == 2 { Ok(ModifyOp::Replace) } else { Err(ProtoError::Parse("invalid modify op")) }
}

/// A BindRequest: version (cut to a byte), name, and simple or SASL credentials.
pub open spec fn dec_bind_request(c: Seq<u8>) -> Option<BindRequestModel> {
    match rd_int(c, 0) {
        None => None,
        Some((version, p1)) => match rd_str(c, p1) {
            None => None,
            Some((name, p2)) => match ber_read(c, p2) {
                None => None,
                Some((t, ac, _)) => if t == 0x80 {
                    Some(BindRequestModel { version: version as u8, name, auth: BindAuthModel::Simple(ac) })
                } else if t == 0xa3 {
                    match rd_str(ac, 0) {
                        None => None,
                        Some((mechanism, q1)) => if q1 >= ac.len() {
                            Some(BindRequestModel { version: version as u8, name, auth: BindAuthModel::Sasl { mechanism, credentials: None } })
                        } else {
                            match rd_bytes(ac, q1) {
                                None => None,
                                Some((creds, _)) => Some(BindRequestModel { version: version as u8, name, auth: BindAuthModel::Sasl { mechanism, credentials: Some(creds) } }),
                            }
                        },
                    }
                } else {
                    None
                },
            },
        },
    }
}

fn decode_bind_request(c: &[u8]) -> (r: ProtoResult<BindRequest>)
    ensures
        match r {
            Ok(v) => dec_bind_request(c@) == Some(v@),
            Err(x) => dec_bind_request(c@) is None && x is Parse,
        },
{
    let (version, p1) = read_integer(c, 0)?;
    let (name, p2) = read_string(c, p1)?;
    let (e, _) = read_at(c, p2)?;
    let auth = if e.tag == 0x80 {
        BindAuth::Simple(e.content)
    } else if e.tag == 0xa3 {
        let ac = e.content.as_slice();
        let (mechanism, q1) = read_string(ac, 0)?;
        if q1 >= ac.len() {
            BindAuth::Sasl { mechanism, credentials: None }
        } else {
            let (creds, _) = read_bytes(ac, q1)?;
            BindAuth::Sasl { mechanism, credentials: Some(creds) }
        }
    } else {
        return Err(ProtoError::Parse("invalid bind auth"));
    };
    Ok(BindRequest { version: version as u8, name, auth })
}

/// A BindResponse: the result, then SASL credentials if the next element carries them.
pub open spec fn dec_bind_response(c: Seq<u8>) -> Option<BindResponseModel> {
    match rd_ldap_result(c, 0) {
        None => None,
        Some((result, p1)) => if p1 >= c.len() {
            Some(BindResponseModel { result, server_sasl_creds: None })
        } else {
            match ber_read(c, p1) {
                None => None,
                Some((t, sc, _)) => Some(BindResponseModel { result, server_sasl_creds: if t == 0x87 { Some(sc) } else { None } }),
            }
        },
    }
}

fn decode_bind_response(c: &[u8]) -> (r: ProtoResult<BindResponse>)
    ensures
        match r {
            Ok(v) => dec_bind_response(c@) == Some(v@),
            Err(x) => dec_bind_response(c@) is None && x is Parse,
        },
{
    let (result, p1) = read_ldap_result(c, 0)?;
    if p1 >= c.len() {
        return Ok(BindResponse { result, server_sasl_creds: None });
    }
    let (e, _) = read_at(c, p1)?;
    let creds = if e.tag == 0x87 { Some(e.content) } else { None };
    Ok(BindResponse { result, server_sasl_creds: creds })
}

/// A SearchRequest.
pub open spec fn dec_search_request(c: Seq<u8>) -> Option<SearchRequestModel> {
    match rd_str(c, 0) {
        None => None,
        Some((base_dn, p1)) => match rd_enum(c, p1) {
            None => None,
            Some((sv, p2)) => match scope_of(sv) {
                None => None,
                Some(scope) => match rd_enum(c, p2) {
                    None => None,
                    Some((dv, p3)) => match deref_of(dv) {
                        None => None,
                        Some(deref) => match rd_int(c, p3) {
                            None => None,
                            Some((size, p4)) => match rd_int(c, p4) {
                                None => None,
                                Some((time, p5)) => match rd_bool(c, p5) {
                                    None => None,
                                    Some((types_only, p6)) => match ber_read(c, p6) {
                                        None => None,
                                        Some((ft, fc, p7)) => match dec_filter(ft, fc) {
                                            None => None,
                                            Some(filter) => match ber_read(c, p7) {
                                                None => None,
                                                Some((_, ac, _)) => match rd_str_list(ac, 0) {
                                                    None => None,
                                                    Some(attributes) => Some(SearchRequestModel {
                                                        base_dn,
                                                        scope,
                                                        deref,
                                                        size_limit: size as u32,
                                                        time_limit: time as u32,
                                                        types_only,
                                                        filter,
                                                        attributes,
                                                    }),
                                                },
                                            },
                                        },
                                    },
                                },
                            },
                        },
                    },
                },
            },
        },
    }
}

fn decode_search_request(c: &[u8]) -> (r: ProtoResult<SearchRequest>)
    ensures
        match r {
            Ok(v) => dec_search_request(c@) == Some(v@),
            Err(x) => dec_search_request(c@) is None && x is Parse,
        },
{
    let (base_dn, p1) = read_string(c, 0)?;
    let (sv, p2) = read_enum(c, p1)?;
    let scope = scope_from(sv)?;
    let (dv, p3) = read_enum(c, p2)?;
    let deref = deref_from(dv)?;
    let (size, p4) = read_integer(c, p3)?;
    let (time, p5) = read_integer(c, p4)?;
    let (types_only, p6) = read_boolean(c, p5)?;
    let (fe, p7) = read_at(c, p6)?;
    let filter = decode_filter(fe.tag, fe.content.as_slice())?;
    let (ae, _) = read_at(c, p7)?;
    let attributes = read_string_list(ae.content.as_slice(), 0)?;
    Ok(SearchRequest {
        base_dn,
        scope,
        deref,
        size_limit: size as u32,
        time_limit: time as u32,
        types_only,
        filter,
        attributes,
    })
}

/// A SearchResultEntry: the DN, then the attribute list element.
pub open spec fn dec_search_entry(c: Seq<u8>) -> Option<EntryModel> {
    match rd_str(c, 0) {
        None => None,
        Some((dn, p1)) => match ber_read(c, p1) {
            None => None,
            Some((_, ac, _)) => match rd_attr_list(ac, 0) {
                None => None,
                Some(attributes) => Some(EntryModel { dn, attributes }),
            },
        },
    }
}

fn decode_search_entry(c: &[u8]) -> (r: ProtoResult<SearchResultEntry>)
    ensures
        match r {
            Ok(v) => dec_search_entry(c@) == Some(v@),
            Err(x) => dec_search_entry(c@) is None && x is Parse,
        },
{
    let (dn, p1) = read_string(c, 0)?;
    let (e, _) = read_at(c, p1)?;
    let attributes = decode_attribute_list(e.content.as_slice(), 0)?;
    Ok(SearchResultEntry { dn, attributes })
}

/// One change: the operation, then the attribute.
pub open spec fn dec_change(c: Seq<u8>) -> Option<ChangeModel> {
    match rd_enum(c, 0) {
        None => None,
        Some((ov, p1)) => match modify_op_of(ov) {
            None => None,
            Some(operation) => match ber_read(c, p1) {
                None => None,
                Some((_, ac, _)) => match dec_attribute(ac) {
                    None => None,
                    Some(modification) => Some(ChangeModel { operation, modification }),
                },
            },
        },
    }
}

/// Changes, one element after another, up to the end.
pub open spec fn rd_change_list(d: Seq<u8>, p: int) -> Option<Seq<ChangeModel>>
    decreases d.len() - p,
{
    if p >= d.len() {
        Some(Seq::empty())
    } else {
        match ber_read(d, p) {
            None => None,
            Some((_, c, q)) => if q <= p {
                None
            } else {
                match dec_change(c) {
                    None => None,
                    Some(ch) => match rd_change_list(d, q) {
                        Some(rest) => Some(seq![ch] + rest),
                        None => None,
                    },
                }
            },
        }
    }
}

/// A ModifyRequest: the DN, then the changes.
pub open spec fn dec_modify_request(c: Seq<u8>) -> Option<ModifyRequestModel> {
    match rd_str(c, 0) {
        None => None,
        Some((dn, p1)) => match ber_read(c, p1) {
            None => None,
            Some((_, cc, _)) => match rd_change_list(cc, 0) {
                None => None,
                Some(changes) => Some(ModifyRequestModel { dn, changes }),
            },
        },
    }
}

pub open spec fn changes_model(s: Seq<Change>) -> Seq<ChangeModel> {
    s.map_values(|c: Change| c@)
}

fn decode_change(c: &[u8]) -> (r: ProtoResult<Change>)
    ensures
        match r {
            Ok(v) => dec_change(c@) == Some(v@),
            Err(x) => dec_change(c@) is None && x is Parse,
        },
{
    let (ov, p1) = read_enum(c, 0)?;
    let operation = modify_op_from(ov)?;
    let (e, _) = read_at(c, p1)?;
    let modification = decode_attribute(e.content.as_slice())?;
    Ok(Change { operation, modification })
}

#[verifier::spinoff_prover]
#[verifier::rlimit(30)]
fn decode_modify_request(c: &[u8]) -> (r: ProtoResult<ModifyRequest>)
    ensures
        match r {
            Ok(v) => dec_modify_request(c@) == Some(v@),
            Err(x) => dec_modify_request(c@) is None && x is Parse,
        },
{
    let (dn, p1) = read_string(c, 0)?;
    let (e, _) = read_at(c, p1)?;
    let data = e.content.as_slice();
    let mut changes: Vec<Change> = Vec::new();
    let mut p: usize = 0;
    while p < data.len()
        invariant
            p <= data.len(),
            rd_str(c@, 0) == Some((dn@, p1 as int)),
            ber_read(c@, p1 as int) matches Some((_, cc, _)) && cc == data@,
            rd_change_list(data@, 0) == match rd_change_list(data@, p as int) {
                Some(rest) => Some(changes_model(changes@) + rest),
                None => None::<Seq<ChangeModel>>,
            },
        decreases data.len() - p,
    {
        let (ce, q) = read_at(data, p)?;
        let ch = decode_change(ce.content.as_slice())?;
        proof {
            assert(changes_model(changes@.push(ch)) =~= changes_model(changes@).push(ch@));
            match rd_change_list(data@, q as int) {
                Some(rest) => {
                    assert(changes_model(changes@) + (seq![ch@] + rest) =~= changes_model(changes@).push(ch@) + rest);
                },
                None => {},
            }
        }
        changes.push(ch);
        p = q;
    }
    assert(changes_model(changes@) + Seq::<ChangeModel>::empty() =~= changes_model(changes@));
    Ok(ModifyRequest { dn, changes })
}

/// An AddRequest: the DN, then the attribute list element.
pub open spec fn dec_add_request(c: Seq<u8>) -> Option<AddRequestModel> {
    match dec_search_entry(c) {
        None => None,
        Some(e) => Some(AddRequestModel { dn: e.dn, attributes: e.attributes }),
    }
}

fn decode_add_request(c: &[u8]) -> (r: ProtoResult<AddRequest>)
    ensures
        match r {
            Ok(v) => dec_add_request(c@) == Some(v@),
            Err(x) => dec_add_request(c@) is None && x is Parse,
        },
{
    let e = decode_search_entry(c)?;
    Ok(AddRequest { dn: e.dn, attributes: e.attributes })
}

/// A ModifyDNRequest: DN, new RDN, whether to delete the old one, and a new superior
/// when the next element carries it.
pub open spec fn dec_moddn_request(c: Seq<u8>) -> Option<ModifyDnModel> {
    match rd_str(c, 0) {
        None => None,
        Some((dn, p1)) => match rd_str(c, p1) {
            None => None,
            Some((new_rdn, p2)) => match rd_bool(c, p2) {
                None => None,
                Some((delete_old_rdn, p3)) => if p3 >= c.len() {
                    Some(ModifyDnModel { dn, new_rdn, delete_old_rdn, new_superior: None })
                } else {
                    match ber_read(c, p3) {
                        None => None,
                        Some((t, sc, _)) => Some(ModifyDnModel {
                            dn,
                            new_rdn,
                            delete_old_rdn,
                            new_superior: if t == 0x80 { Some(lossy_text(sc)) } else { None },
                        }),
                    }
                },
            },
        },
    }
}

fn decode_moddn_request(c: &[u8]) -> (r: ProtoResult<ModifyDnRequest>)
    ensures
        match r {
            Ok(v) => dec_moddn_request(c@) == Some(v@),
            Err(x) => dec_moddn_request(c@) is None && x is Parse,
        },
{
    let (dn, p1) = read_string(c, 0)?;
    let (new_rdn, p2) = read_string(c, p1)?;
    let (delete_old_rdn, p3) = read_boolean(c, p2)?;
    if p3 >= c.len() {
        return Ok(ModifyDnRequest { dn, new_rdn, delete_old_rdn, new_superior: None });
    }
    let (e, _) = read_at(c, p3)?;
    let new_superior = if e.tag == 0x80 { Some(string_from_utf8_lossy(e.content.as_slice())) } else { None };
    Ok(ModifyDnRequest { dn, new_rdn, delete_old_rdn, new_superior })
}

/// A CompareRequest: the DN, then the assertion element.
pub open spec fn dec_compare_request(c: Seq<u8>) -> Option<CompareModel> {
    match rd_str(c, 0) {
        None => None,
        Some((dn, p1)) => match ber_read(c, p1) {
            None => None,
            Some((_, ac, _)) => match dec_ava(ac) {
                None => None,
                Some(ava) => Some(CompareModel { dn, ava }),
            },
        },
    }
}

fn decode_compare_request(c: &[u8]) -> (r: ProtoResult<CompareRequest>)
    ensures
        match r {
            Ok(v) => dec_compare_request(c@) == Some(v@),
            Err(x) => dec_compare_request(c@) is None && x is Parse,
        },
{
    let (dn, p1) = read_string(c, 0)?;
    let (e, _) = read_at(c, p1)?;
    let ava = decode_ava(e.content.as_slice())?;
    Ok(CompareRequest { dn, ava })
}

/// An ExtendedRequest: the name element, then the value when the next element carries it.
pub open spec fn dec_extended_request(c: Seq<u8>) -> Option<ExtendedRequestModel> {
    match ber_read(c, 0) {
        None => None,
        Some((t, nc, p1)) => if t != 0x80 {
            None
        } else if p1 >= c.len() {
            Some(ExtendedRequestModel { name: lossy_text(nc), value: None })
        } else {
            match ber_read(c, p1) {
                None => None,
                Some((t2, vc, _)) => Some(ExtendedRequestModel { name: lossy_text(nc), value: if t2 == 0x81 { Some(vc) } else { None } }),
            }
        },
    }
}

fn decode_extended_request(c: &[u8]) -> (r: ProtoResult<ExtendedRequest>)
    ensures
        match r {
            Ok(v) => dec_extended_request(c@) == Some(v@),
            Err(x) => dec_extended_request(c@) is None && x is Parse,
        },
{
    let (e, p1) = read_at(c, 0)?;
    if e.tag != 0x80 {
        return Err(ProtoError::Parse("invalid extended request"));
    }
    let name = string_from_utf8_lossy(e.content.as_slice());
    if p1 >= c.len() {
        return Ok(ExtendedRequest { name, value: None });
    }
    let (v, _) = read_at(c, p1)?;
    let value = if v.tag == 0x81 { Some(v.content) } else { None };
    Ok(ExtendedRequest { name, value })
}

/// The optional parts of an ExtendedResponse, later elements overriding earlier ones.
pub open spec fn rd_ext_response_tail(d: Seq<u8>, p: int, name: Option<Seq<char>>, value: Option<Seq<u8>>) -> Option<
    (Option<Seq<char>>, Option<Seq<u8>>),
>
    decreases d.len() - p,
{
    if p >= d.len() {
        Some((name, value))
    } else {
        match ber_read(d, p) {
            None => None,
            Some((t, c, q)) => if q <= p {
                None
            } else if t == 0x8a {
                rd_ext_response_tail(d, q, Some(lossy_text(c)), value)
            } else if t == 0x8b {
                rd_ext_response_tail(d, q, name, Some(c))
            } else {
                rd_ext_response_tail(d, q, name, value)
            },
        }
    }
}

/// An ExtendedResponse: the result, then the optional name and value.
pub open spec fn dec_extended_response(c: Seq<u8>) -> Option<ExtendedResponseModel> {
    match rd_ldap_result(c, 0) {
        None => None,
        Some((result, p1)) => match rd_ext_response_tail(c, p1, None, None) {
            None => None,
            Some((name, value)) => Some(ExtendedResponseModel { result, name, value }),
        },
    }
}

fn decode_extended_response(c: &[u8]) -> (r: ProtoResult<ExtendedResponse>)
    ensures
        match r {
            Ok(v) => dec_extended_response(c@) == Some(v@),
            Err(x) => dec_extended_response(c@) is None && x is Parse,
        },
{
    let (result, p1) = read_ldap_result(c, 0)?;
    let mut name: Option<String> = None;
    let mut value: Option<Vec<u8>> = None;
    let mut p = p1;
    while p < c.len()
        invariant
            p1 <= p <= c.len(),
            rd_ldap_result(c@, 0) == Some((result@, p1 as int)),
            rd_ext_response_tail(c@, p1 as int, None, None) == rd_ext_response_tail(
                c@,
                p as int,
                opt_string(name),
                opt_bytes(value),
            ),
        decreases c.len() - p,
    {
        let (e, q) = read_at(c, p)?;
        if e.tag == 0x8a {
            name = Some(string_from_utf8_lossy(e.content.as_slice()));
        } else if e.tag == 0x8b {
            value = Some(e.content);
        }
        p = q;
    }
    Ok(ExtendedResponse { result, name, value })
}

/// The op that an element of tag `t` and content `c` holds.
pub open spec fn dec_protocol_op(t: u8, c: Seq<u8>) -> Option<OpModel> {
    if t == TAG_BIND_REQUEST {
        match dec_bind_request(c) { Some(v) => Some(OpModel::BindRequest(v)), None => None }
    } else if t == TAG_BIND_RESPONSE {
        match dec_bind_response(c) { Some(v) => Some(OpModel::BindResponse(v)), None => None }
    } else if t == TAG_UNBIND_REQUEST {
        Some(OpModel::UnbindRequest)
    } else if t == TAG_SEARCH_REQUEST {
        match dec_search_request(c) { Some(v) => Some(OpModel::SearchRequest(v)), None => None }
    } else if t == TAG_SEARCH_ENTRY {
        match dec_search_entry(c) { Some(v) => Some(OpModel::SearchResultEntry(v)), None => None }
    } else if t == TAG_SEARCH_DONE {
        match rd_ldap_result(c, 0) { Some((v, _)) => Some(OpModel::SearchResultDone(v)), None => None }
    } else if t == TAG_SEARCH_REF {
        match rd_str_list(c, 0) { Some(v) => Some(OpModel::SearchResultReference(v)), None => None }
    } else if t == TAG_MODIFY_REQUEST {
        match dec_modify_request(c) { Some(v) => Some(OpModel::ModifyRequest(v)), None => None }
    } else if t == TAG_MODIFY_RESPONSE {
        match rd_ldap_result(c, 0) { Some((v, _)) => Some(OpModel::ModifyResponse(v)), None => None }
    } else if t == TAG_ADD_REQUEST {
        match dec_add_request(c) { Some(v) => Some(OpModel::AddRequest(v)), None => None }
    } else if t == TAG_ADD_RESPONSE {
        match rd_ldap_result(c, 0) { Some((v, _)) => Some(OpModel::AddResponse(v)), None => None }
    } else if t == TAG_DEL_REQUEST {
        Some(OpModel::DelRequest(lossy_text(c)))
    } else if t == TAG_DEL_RESPONSE {
        match rd_ldap_result(c, 0) { Some((v, _)) => Some(OpModel::DelResponse(v)), None => None }
    } else if t == TAG_MODDN_REQUEST {
        match dec_moddn_request(c) { Some(v) => Some(OpModel::ModifyDnRequest(v)), None => None }
    } else if t == TAG_MODDN_RESPONSE {
        match rd_ldap_result(c, 0) { Some((v, _)) => Some(OpModel::ModifyDnResponse(v)), None => None }
    } else if t == TAG_COMPARE_REQUEST {
        match dec_compare_request(c) { Some(v) => Some(OpModel::CompareRequest(v)), None => None }
    } else if t == TAG_COMPARE_RESPONSE {
        match rd_ldap_result(c, 0) { Some((v, _)) => Some(OpModel::CompareResponse(v)), None => None }
    } else if t == TAG_ABANDON_REQUEST {
        match ber_int_decode(c) { Some(v) => Some(OpModel::AbandonRequest(v as i32)), None => None }
    } else if t == TAG_EXTENDED_REQUEST {
        match dec_extended_request(c) { Some(v) => Some(OpModel::ExtendedRequest(v)), None => None }
    } else if t == TAG_EXTENDED_RESPONSE {
        match dec_extended_response(c) { Some(v) => Some(OpModel::ExtendedResponse(v)), None => None }
    } else {
        None
    }
}

fn decode_result_content(c: &[u8]) -> (r: ProtoResult<LdapResult>)
    ensures
        match r {
            Ok(v) => rd_ldap_result(c@, 0) matches Some((m, _)) && m == v@,
            Err(x) => rd_ldap_result(c@, 0) is None && x is Parse,
        },
{
    let (v, _) = read_ldap_result(c, 0)?;
    Ok(v)
}

#[verifier::rlimit(80)]
#[verifier::spinoff_prover]
fn decode_protocol_op(tag: u8, c: &[u8]) -> (r: ProtoResult<ProtocolOp>)
    ensures
        match r {
            Ok(v) => dec_protocol_op(tag, c@) == Some(v@),
            Err(x) => dec_protocol_op(tag, c@) is None && x is Parse,
        },
{
    if tag == TAG_BIND_REQUEST {
        Ok(ProtocolOp::BindRequest(decode_bind_request(c)?))
    } else if tag == TAG_BIND_RESPONSE {
        Ok(ProtocolOp::BindResponse(decode_bind_response(c)?))
    } else if tag == TAG_UNBIND_REQUEST {
        Ok(ProtocolOp::UnbindRequest)
    } else if tag == TAG_SEARCH_REQUEST {
        Ok(ProtocolOp::SearchRequest(decode_search_request(c)?))
    } else if tag == TAG_SEARCH_ENTRY {
        Ok(ProtocolOp::SearchResultEntry(decode_search_entry(c)?))
    } else if tag == TAG_SEARCH_DONE {
        Ok(ProtocolOp::SearchResultDone(decode_result_content(c)?))
    } else if tag == TAG_SEARCH_REF {
        Ok(ProtocolOp::SearchResultReference(read_string_list(c, 0)?))
    } else if tag == TAG_MODIFY_REQUEST {
        Ok(ProtocolOp::ModifyRequest(decode_modify_request(c)?))
    } else if tag == TAG_MODIFY_RESPONSE {
        Ok(ProtocolOp::ModifyResponse(decode_result_content(c)?))
    } else if tag == TAG_ADD_REQUEST {
        Ok(ProtocolOp::AddRequest(decode_add_request(c)?))
    } else if tag == TAG_ADD_RESPONSE {
        Ok(ProtocolOp::AddResponse(decode_result_content(c)?))
    } else if tag == TAG_DEL_REQUEST {
        Ok(ProtocolOp::DelRequest(string_from_utf8_lossy(c)))
    } else if tag == TAG_DEL_RESPONSE {
        Ok(ProtocolOp::DelResponse(decode_result_content(c)?))
    } else if tag == TAG_MODDN_REQUEST {
        Ok(ProtocolOp::ModifyDnRequest(decode_moddn_request(c)?))
    } else if tag == TAG_MODDN_RESPONSE {
        Ok(ProtocolOp::ModifyDnResponse(decode_result_content(c)?))
    } else if tag == TAG_COMPARE_REQUEST {
        Ok(ProtocolOp::CompareRequest(decode_compare_request(c)?))
    } else if tag == TAG_COMPARE_RESPONSE {
        Ok(ProtocolOp::CompareResponse(decode_result_content(c)?))
    } else if tag == TAG_ABANDON_REQUEST {
        let v = decode_integer_content(c)?;
        Ok(ProtocolOp::AbandonRequest(v as i32))
    } else if tag == TAG_EXTENDED_REQUEST {
        Ok(ProtocolOp::ExtendedRequest(decode_extended_request(c)?))
    } else if tag == TAG_EXTENDED_RESPONSE {
        Ok(ProtocolOp::ExtendedResponse(decode_extended_response(c)?))
    } else {
        Err(ProtoError::Parse("unknown protocol op"))
    }
}

// ----- controls and the message -----

/// The parts of one control after its OID: a BOOLEAN sets criticality, an OCTET STRING
/// the value; other elements are skipped.
pub open spec fn rd_control_tail(d: Seq<u8>, p: int, critical: bool, value: Option<Seq<u8>>) -> Option<
    (bool, Option<Seq<u8>>),
>
    decreases d.len() - p,
{
    if p >= d.len() {
        Some((critical, value))
    } else {
        match ber_read(d, p) {
            None => None,
            Some((t, c, q)) => if q <= p {
                None
            } else if t == TAG_BOOLEAN {
                if c.len() != 1 {
                    None
                } else {
                    rd_control_tail(d, q, c[0] != 0, value)
                }
            } else if t == TAG_OCTET_STRING {
                rd_control_tail(d, q, critical, Some(c))
            } else {
                rd_control_tail(d, q, critical, value)
            },
        }
    }
}

/// One control.
pub open spec fn dec_control(c: Seq<u8>) -> Option<ControlModel> {
    match rd_str(c, 0) {
        None => None,
        Some((oid, p1)) => match rd_control_tail(c, p1, false, None) {
            None => None,
            Some((critical, value)) => Some(ControlModel { oid, critical, value }),
        },
    }
}

/// Controls, one element after another, up to the end.
pub open spec fn rd_control_list(d: Seq<u8>, p: int) -> Option<Seq<ControlModel>>
    decreases d.len() - p,
{
    if p >= d.len() {
        Some(Seq::empty())
    } else {
        match ber_read(d, p) {
            None => None,
            Some((_, c, q)) => if q <= p {
                None
            } else {
                match dec_control(c) {
                    None => None,
                    Some(ctl) => match rd_control_list(d, q) {
                        Some(rest) => Some(seq![ctl] + rest),
                        None => None,
                    },
                }
            },
        }
    }
}

/// The controls element: tag `[0]`, holding one element whose content lists the controls.
pub open spec fn dec_controls(t: u8, c: Seq<u8>) -> Option<Seq<ControlModel>> {
    if t != 0xa0 {
        None
    } else {
        match ber_read(c, 0) {
            None => None,
            Some((_, lc, _)) => rd_control_list(lc, 0),
        }
    }
}

pub open spec fn controls_model(s: Seq<Control>) -> Seq<ControlModel> {
    s.map_values(|c: Control| c@)
}

fn decode_control(c: &[u8]) -> (r: ProtoResult<Control>)
    ensures
        match r {
            Ok(v) => dec_control(c@) == Some(v@),
            Err(x) => dec_control(c@) is None && x is Parse,
        },
{
    let (oid, p1) = read_string(c, 0)?;
    let mut critical = false;
    let mut value: Option<Vec<u8>> = None;
    let mut p = p1;
    while p < c.len()
        invariant
            p1 <= p <= c.len(),
            rd_str(c@, 0) == Some((oid@, p1 as int)),
            rd_control_tail(c@, p1 as int, false, None) == rd_control_tail(c@, p as int, critical, opt_bytes(value)),
        decreases c.len() - p,
    {
        let (e, q) = read_at(c, p)?;
        if e.tag == TAG_BOOLEAN {
            critical = decode_boolean_content(e.content.as_slice())?;
        } else if e.tag == TAG_OCTET_STRING {
            value = Some(e.content);
        }
        p = q;
    }
    Ok(Control { oid, critical, value })
}

fn decode_controls(tag: u8, c: &[u8]) -> (r: ProtoResult<Vec<Control>>)
    ensures
        match r {
            Ok(v) => dec_controls(tag, c@) == Some(controls_model(v@)),
            Err(x) => dec_controls(tag, c@) is None && x is Parse,
        },
{
    if tag != 0xa0 {
        return Err(ProtoError::Parse("invalid controls"));
    }
    let (le, _) = read_at(c, 0)?;
    let data = le.content.as_slice();
    let mut out: Vec<Control> = Vec::new();
    let mut p: usize = 0;
    while p < data.len()
        invariant
            p <= data.len(),
            tag == 0xa0,
            ber_read(c@, 0) matches Some((_, lc, _)) && lc == data@,
            rd_control_list(data@, 0) == match rd_control_list(data@, p as int) {
                Some(rest) => Some(controls_model(out@) + rest),
                None => None::<Seq<ControlModel>>,
            },
        decreases data.len() - p,
    {
        let (ce, q) = read_at(data, p)?;
        let ctl = decode_control(ce.content.as_slice())?;
        proof {
            assert(controls_model(out@.push(ctl)) =~= controls_model(out@).push(ctl@));
            match rd_control_list(data@, q as int) {
                Some(rest) => {
                    assert(controls_model(out@) + (seq![ctl@] + rest) =~= controls_model(out@).push(ctl@) + rest);
                },
                None => {},
            }
        }
        out.push(ctl);
        p = q;
    }
    assert(controls_model(out@) + Seq::<ControlModel>::empty() =~= controls_model(out@));
    Ok(out)
}

/// The message that `d` holds: one SEQUENCE element and nothing after it, holding the
/// message ID (within `0..=i32::MAX`), the op, and controls when anything follows.
pub open spec fn dec_message(d: Seq<u8>) -> Option<MessageModel> {
    match ber_read(d, 0) {
        None => None,
        Some((t, c, q)) => if q != d.len() || t != TAG_SEQUENCE {
            None
        } else {
            match rd_int(c, 0) {
                None => None,
                Some((id, p1)) => if id < 0 || id > i32::MAX {
                    None
                } else {
                    match ber_read(c, p1) {
                        None => None,
                        Some((ot, oc, p2)) => match dec_protocol_op(ot, oc) {
                            None => None,
                            Some(op) => if p2 >= c.len() {
                                Some(MessageModel { message_id: id as i32, op, controls: Seq::empty() })
                            } else {
                                match ber_read(c, p2) {
                                    None => None,
                                    Some((ct, cc, _)) => match dec_controls(ct, cc) {
                                        None => None,
                                        Some(controls) => Some(MessageModel { message_id: id as i32, op, controls }),
                                    },
                                }
                            },
                        },
                    }
                },
            }
        },
    }
}

impl LdapMessage {
    /// Decodes a whole message.
    pub fn decode(data: &[u8]) -> (r: ProtoResult<LdapMessage>)
        ensures
            match r {
                Ok(m) => dec_message(data@) == Some(m@),
                Err(x) => dec_message(data@) is None && x is Parse,
            },
    {
        let (e, q) = read_at(data, 0)?;
        if q != data.len() {
            return Err(ProtoError::Parse("unexpected trailing data"));
        }
        if e.tag != TAG_SEQUENCE {
            return Err(ProtoError::Parse("invalid ldap message"));
        }
        let c = e.content.as_slice();
        let (id, p1) = read_integer(c, 0)?;
        if id < 0 || id > 0x7fff_ffff {
            return Err(ProtoError::Parse("ldap message id out of range"));
        }
        let (oe, p2) = read_at(c, p1)?;
        let op = decode_protocol_op(oe.tag, oe.content.as_slice())?;
        let controls = if p2 >= c.len() {
            let v: Vec<Control> = Vec::new();
            assert(controls_model(v@) =~= Seq::<ControlModel>::empty());
            v
        } else {
            let (ce, _) = read_at(c, p2)?;
            decode_controls(ce.tag, ce.content.as_slice())?
        };
        Ok(LdapMessage { message_id: id as i32, op, controls })
    }
}

} // verus!