use proto::error::ProtoError;
use proto::ldap::backend::{handle_message, InMemoryBackend, ResponseKind};
use proto::ldap::client::{expect_result, search_step, LdapClientState};
use proto::ldap::framing::{content_length, length_bytes, message_bytes_of};
use proto::ldap::model::{
    AddRequest, Attribute, DerefAliases, Filter, LdapMessage, LdapResult, ModifyDnRequest, ProtocolOp,
    ResultCode, SearchRequest, SearchResultEntry, SearchScope,
};

fn ok_result() -> LdapResult {
    LdapResult {
        code: ResultCode::Success,
        matched_dn: String::new(),
        message: String::new(),
        referrals: Vec::new(),
    }
}

fn msg(id: i32, op: ProtocolOp) -> LdapMessage {
    LdapMessage { message_id: id, op, controls: Vec::new() }
}

fn base_scope_request(dn: &str) -> SearchRequest {
    SearchRequest {
        base_dn: dn.to_string(),
        scope: SearchScope::Base,
        deref: DerefAliases::Never,
        size_limit: 0,
        time_limit: 0,
        types_only: false,
        filter: Filter::And(vec![]),
        attributes: Vec::new(),
    }
}

#[test]
fn ldap_client_ids_wrap() {
    let mut state = LdapClientState::new();
    assert_eq!(state.next_id(), 1);
    assert_eq!(state.next_id(), 2);
    state.message_id = i32::MAX;
    assert_eq!(state.next_id(), i32::MAX);
    assert_eq!(state.message_id, i32::MIN);
}

#[test]
fn ldap_client_request_encodes_message() {
    let mut state = LdapClientState::new();
    let (id, bytes) = state.request(ProtocolOp::DelRequest("cn=a".to_string()));
    assert_eq!(id, 1);
    let decoded = LdapMessage::decode(&bytes).unwrap();
    assert_eq!(decoded.message_id, 1);
    assert_eq!(decoded.op, ProtocolOp::DelRequest("cn=a".to_string()));
    assert_eq!(state.message_id, 2);
}

#[test]
fn ldap_client_expect_result() {
    let r = expect_result(3, ResponseKind::Delete, msg(3, ProtocolOp::DelResponse(ok_result())));
    assert_eq!(r.unwrap().code, ResultCode::Success);
    let wrong_id = expect_result(3, ResponseKind::Delete, msg(4, ProtocolOp::DelResponse(ok_result())));
    assert!(matches!(wrong_id, Err(ProtoError::Message(_))));
    let wrong_kind = expect_result(3, ResponseKind::Add, msg(3, ProtocolOp::DelResponse(ok_result())));
    assert!(matches!(wrong_kind, Err(ProtoError::Parse(_))));
}

#[test]
fn ldap_client_search_steps() {
    let mut entries = Vec::new();
    let entry = SearchResultEntry { dn: "cn=a".to_string(), attributes: Vec::new() };
    assert_eq!(search_step(5, &mut entries, msg(5, ProtocolOp::SearchResultEntry(entry.clone()))).unwrap(), None);
    assert_eq!(search_step(5, &mut entries, msg(6, ProtocolOp::SearchResultEntry(entry.clone()))).unwrap(), None);
    assert_eq!(search_step(5, &mut entries, msg(5, ProtocolOp::SearchResultReference(vec![]))).unwrap(), None);
    assert_eq!(entries, vec![entry]);
    let done = search_step(5, &mut entries, msg(5, ProtocolOp::SearchResultDone(ok_result()))).unwrap();
    assert_eq!(done.unwrap().code, ResultCode::Success);
    assert!(search_step(5, &mut entries, msg(5, ProtocolOp::DelResponse(ok_result()))).is_err());
    assert_eq!(entries.len(), 1);
}

#[test]
fn ldap_handle_add_then_search() {
    let mut backend = InMemoryBackend::new();
    let add = AddRequest {
        dn: "cn=New,dc=example".to_string(),
        attributes: vec![Attribute { name: "cn".to_string(), values: vec![b"New".to_vec()] }],
    };
    let replies = handle_message(&mut backend, msg(1, ProtocolOp::AddRequest(add.clone()))).unwrap();
    assert_eq!(replies.len(), 1);
    assert!(matches!(&replies[0].op, ProtocolOp::AddResponse(r) if r.code == ResultCode::Success));
    let again = handle_message(&mut backend, msg(2, ProtocolOp::AddRequest(add))).unwrap();
    assert!(matches!(&again[0].op, ProtocolOp::AddResponse(r) if r.code == ResultCode::EntryAlreadyExists));
    let found = handle_message(&mut backend, msg(3, ProtocolOp::SearchRequest(base_scope_request("CN=new, dc=example")))).unwrap();
    assert_eq!(found.len(), 2);
    assert!(matches!(&found[0].op, ProtocolOp::SearchResultEntry(e) if e.dn == "cn=New,dc=example"));
}

#[test]
fn ldap_handle_rename_moves_entry() {
    let entry = SearchResultEntry { dn: "cn=old,dc=example".to_string(), attributes: Vec::new() };
    let mut backend = InMemoryBackend::new().with_entry(entry);
    let rename = ModifyDnRequest {
        dn: "cn=old,dc=example".to_string(),
        new_rdn: "cn=new".to_string(),
        delete_old_rdn: true,
        new_superior: Some("dc=example".to_string()),
    };
    let replies = handle_message(&mut backend, msg(7, ProtocolOp::ModifyDnRequest(rename))).unwrap();
    assert!(matches!(&replies[0].op, ProtocolOp::ModifyDnResponse(r) if r.code == ResultCode::Success));
    assert_eq!(backend.search(&base_scope_request("cn=old,dc=example")).unwrap().len(), 0);
    assert_eq!(backend.search(&base_scope_request("cn=new,dc=example")).unwrap().len(), 1);
}

#[test]
fn ldap_framing_lengths() {
    assert_eq!(length_bytes(0x05), Ok(0));
    assert_eq!(length_bytes(0x82), Ok(2));
    assert_eq!(length_bytes(0x80), Err(ProtoError::Parse("indefinite length not supported")));
    assert_eq!(length_bytes(0x89), Err(ProtoError::Parse("invalid ldap length")));
    assert_eq!(content_length(0x05, &[]), Ok(5));
    assert_eq!(content_length(0x82, &[0x01, 0x00]), Ok(256));
    assert_eq!(content_length(0x83, &[0x80, 0x00, 0x00]), Ok(0x80_0000));
    assert_eq!(content_length(0x83, &[0x80, 0x00, 0x01]), Err(ProtoError::Parse("ldap message too large")));
    assert_eq!(message_bytes_of(0x30, 0x81, &[0x02], &[0xaa, 0xbb]), vec![0x30, 0x81, 0x02, 0xaa, 0xbb]);
}
