use proto::ldap::backend::InMemoryBackend;
use proto::ldap::ber::{
    decode_integer_content, encode_integer, encode_sequence, encode_tagged, BerElement,
};
use proto::ldap::codec::TAG_UNBIND_REQUEST;
use proto::ldap::model::{
    Attribute, BindAuth, BindRequest, DerefAliases, Filter, LdapMessage, ProtocolOp,
    SearchRequest, SearchResultEntry, SearchScope,
};

#[test]
fn ber_integer_roundtrip() {
    let value = 12345i64;
    let encoded = encode_integer(value);
    let element = BerElement::decode(&encoded).unwrap();
    let decoded = decode_integer_content(&element.content).unwrap();
    assert_eq!(value, decoded);
}

#[test]
fn bind_roundtrip() {
    let msg = LdapMessage {
        message_id: 1,
        op: ProtocolOp::BindRequest(BindRequest {
            version: 3,
            name: "cn=admin,dc=example,dc=com".to_string(),
            auth: BindAuth::Simple(b"secret".to_vec()),
        }),
        controls: Vec::new(),
    };
    let encoded = msg.encode().unwrap();
    let decoded = LdapMessage::decode(&encoded).unwrap();
    assert_eq!(msg, decoded);
}

#[test]
fn decode_rejects_out_of_range_message_id() {
    let encoded = encode_sequence(&[
        encode_integer(i32::MAX as i64 + 1),
        encode_tagged(TAG_UNBIND_REQUEST, &[]),
    ]);
    assert!(LdapMessage::decode(&encoded).is_err());
}

#[test]
fn decode_rejects_trailing_bytes() {
    let msg = LdapMessage {
        message_id: 1,
        op: ProtocolOp::UnbindRequest,
        controls: Vec::new(),
    };
    let mut encoded = msg.encode().unwrap();
    encoded.extend_from_slice(&[0x00, 0x00]);
    assert!(LdapMessage::decode(&encoded).is_err());
}

#[test]
fn search_roundtrip() {
    let req = SearchRequest {
        base_dn: "dc=example,dc=com".to_string(),
        scope: SearchScope::Subtree,
        deref: DerefAliases::Never,
        size_limit: 0,
        time_limit: 0,
        types_only: false,
        filter: Filter::Present("cn".to_string()),
        attributes: vec!["cn".to_string(), "uid".to_string()],
    };
    let msg = LdapMessage {
        message_id: 2,
        op: ProtocolOp::SearchRequest(req.clone()),
        controls: Vec::new(),
    };
    let encoded = msg.encode().unwrap();
    let decoded = LdapMessage::decode(&encoded).unwrap();
    assert_eq!(decoded.op, ProtocolOp::SearchRequest(req));
}

#[test]
fn in_memory_search() {
    let entry = SearchResultEntry {
        dn: "cn=user,dc=example,dc=com".to_string(),
        attributes: vec![
            Attribute {
                name: "cn".to_string(),
                values: vec![b"user".to_vec()],
            },
            Attribute {
                name: "userPassword".to_string(),
                values: vec![b"secret".to_vec()],
            },
        ],
    };
    let backend = InMemoryBackend::new().with_entry(entry);
    let req = SearchRequest {
        base_dn: "dc=example,dc=com".to_string(),
        scope: SearchScope::Subtree,
        deref: DerefAliases::Never,
        size_limit: 0,
        time_limit: 0,
        types_only: false,
        filter: Filter::Present("cn".to_string()),
        attributes: Vec::new(),
    };
    let results = backend.search(&req).unwrap();
    assert_eq!(results.len(), 1);
}
