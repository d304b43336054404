use proto::credentials::UserTable;
use proto::error::ProtoError;
use proto::ldap::backend::InMemoryBackend;
use proto::ldap::model::{
    Attribute, DerefAliases, Filter, LdapMessage, ProtocolOp, SearchRequest, SearchResultEntry, SearchScope,
};
use proto::mdns::{build_query, build_response, DnsRecordData, MdnsService, MDNS_CACHE_FLUSH};
use proto::mms::{InMemoryMmsHandler, MmsHandler};
use proto::ms_dnsp::codec::{MsDnspEntry, MsDnspMessage, MsDnspOpcode, MsDnspRData, MsDnspRecord, MsDnspRecordType};
use proto::ms_dnsp::zone::{handle_dnsp_message, MsDnspServer, MsDnspServerConfig};
use proto::nuuo::{build_camera_list, serve_request, NuuoCamera, NuuoFrame, NuuoMessageType, NuuoServerConfig};
use proto::redis::{read_frame, RespFrame};
use proto::rmi::{encode_call_payload, EchoRmiHandler, RmiFrame, RmiOp};
use proto::sasl::{SaslFrame, SaslMessageType};
use proto::socks5::{build_reply, check_userpass, choose_method, Socks5Address, Socks5ServerConfig};
use proto::quake::{build_query as quake_query, parse_query as parse_quake_query, QuakeQuery};
use proto::mssql::MssqlQueryResult;
use proto::tds::codec::{TdsResponse, TdsToken};

fn entry(dn: &str, name: &str, value: &[u8]) -> SearchResultEntry {
    SearchResultEntry {
        dn: dn.to_string(),
        attributes: vec![Attribute { name: name.to_string(), values: vec![value.to_vec()] }],
    }
}

fn base_search(dn: &str) -> SearchRequest {
    SearchRequest {
        base_dn: dn.to_string(),
        scope: SearchScope::Base,
        deref: DerefAliases::Never,
        size_limit: 0,
        time_limit: 0,
        types_only: false,
        filter: Filter::And(vec![]),
        attributes: vec![],
    }
}

#[test]
fn ldap_base_search_finds_stored_entry() {
    let old = entry("cn=Alice,dc=example,dc=com", "mail", b"old@example.com");
    let new = entry("CN=alice , dc=example,dc=com", "mail", b"new@example.com");
    let other = entry("cn=bob,dc=example,dc=com", "mail", b"bob@example.com");
    let backend = InMemoryBackend::new().with_entry(old).with_entry(other.clone()).with_entry(new.clone());
    let found = backend.search(&base_search("cn=alice,dc=example,dc=com")).unwrap();
    assert_eq!(found, vec![new]);
    let found = backend.search(&base_search("cn=bob,dc=example,dc=com")).unwrap();
    assert_eq!(found, vec![other]);
}

#[test]
fn ldap_message_roundtrip_law() {
    let messages = vec![
        LdapMessage { message_id: 7, op: ProtocolOp::DelRequest("cn=x,dc=y".to_string()), controls: vec![] },
        LdapMessage { message_id: 8, op: ProtocolOp::AbandonRequest(3), controls: vec![] },
        LdapMessage {
            message_id: 9,
            op: ProtocolOp::SearchRequest(SearchRequest {
                base_dn: "dc=example,dc=com".to_string(),
                scope: SearchScope::Subtree,
                deref: DerefAliases::Always,
                size_limit: 10,
                time_limit: 20,
                types_only: true,
                filter: Filter::Not(Box::new(Filter::Present("objectClass".to_string()))),
                attributes: vec!["cn".to_string(), "mail".to_string()],
            }),
            controls: vec![],
        },
    ];
    for m in messages {
        let bytes = m.encode().unwrap();
        assert_eq!(LdapMessage::decode(&bytes).unwrap(), m);
    }
}

fn record(t: MsDnspRecordType, ip: [u8; 4]) -> MsDnspRecord {
    MsDnspRecord {
        record_type: t,
        version: 5,
        rank: 0xf0,
        flags: 0,
        serial: 1,
        ttl_seconds: 300,
        reserved: 0,
        timestamp: 0,
        data: MsDnspRData::A(ip),
    }
}

#[test]
fn ms_dnsp_query_after_insert_answers_that_record() {
    let mut server = MsDnspServer::new(MsDnspServerConfig { allow_updates: true });
    server.insert_record("host.example", record(MsDnspRecordType::A, [10, 0, 0, 1]));
    server.insert_record("host.example", record(MsDnspRecordType::A, [10, 0, 0, 2]));
    let query = MsDnspMessage {
        id: 4,
        opcode: MsDnspOpcode::Query,
        flags: 0,
        entries: vec![MsDnspEntry { name: "host.example".to_string(), record: record(MsDnspRecordType::A, [0, 0, 0, 0]) }],
    };
    let config = MsDnspServerConfig { allow_updates: true };
    let reply = handle_dnsp_message(&config, &mut server.store, query, 100);
    assert_eq!(reply.entries.len(), 1);
    assert_eq!(reply.entries[0].name, "host.example");
    assert_eq!(reply.entries[0].record, record(MsDnspRecordType::A, [10, 0, 0, 2]));
}

#[test]
fn redis_double_text_is_checked() {
    let (frame, used) = read_frame(b",3.25\r\n").unwrap();
    assert_eq!(frame, RespFrame::Double(b"3.25".to_vec()));
    assert_eq!(used, 7);
    assert!(read_frame(b",-inf\r\n").is_ok());
    assert!(read_frame(b",1e-3\r\n").is_ok());
    assert_eq!(read_frame(b",abc\r\n").unwrap_err(), ProtoError::Parse("invalid double"));
    assert!(read_frame(b",1.2.3\r\n").is_err());
    assert!(read_frame(b", 1\r\n").is_err());
}

#[test]
fn mms_handler_serves_each_path() {
    let handler = InMemoryMmsHandler::new(
        "video/x-ms-asf".to_string(),
        vec![("/a".to_string(), b"first".to_vec()), ("/b".to_string(), b"second".to_vec())],
    );
    assert_eq!(handler.open("/b").unwrap(), b"second".to_vec());
    assert_eq!(handler.describe("/a").unwrap().length, 5);
    assert_eq!(handler.open("/c").unwrap_err(), ProtoError::Message("mms file not found"));
}

#[test]
fn user_table_insert_replaces_password() {
    let mut users = UserTable::new();
    users.insert("alice".to_string(), "one".to_string());
    users.insert("bob".to_string(), "two".to_string());
    users.insert("alice".to_string(), "three".to_string());
    assert_eq!(users.len(), 2);
    assert!(users.check("alice", "three"));
    assert!(!users.check("alice", "one"));
    assert!(users.check("bob", "two"));
    assert_eq!(users.password_of("carol"), None);
}

#[test]
fn nuuo_frame_roundtrip_and_errors() {
    let frame = NuuoFrame::new(NuuoMessageType::Ping, b"hi".to_vec());
    let bytes = frame.encode();
    assert_eq!(bytes, vec![b'N', b'U', b'U', b'O', 1, 0x05, 0, 0, 0, 2, b'h', b'i']);
    let back = NuuoFrame::decode(&bytes).unwrap();
    assert_eq!(back.version, 1);
    assert_eq!(back.msg_type, NuuoMessageType::Ping);
    assert_eq!(back.payload, b"hi".to_vec());
    assert_eq!(NuuoFrame::decode(&bytes[..9]).unwrap_err(), ProtoError::Parse("nuuo frame too short"));
    let mut bad = bytes.clone();
    bad[0] = b'X';
    assert_eq!(NuuoFrame::decode(&bad).unwrap_err(), ProtoError::Parse("nuuo bad magic"));
    let mut bad = bytes.clone();
    bad[5] = 0x42;
    assert_eq!(NuuoFrame::decode(&bad).unwrap_err(), ProtoError::Parse("nuuo invalid message type"));
    assert_eq!(NuuoFrame::decode(&bytes[..11]).unwrap_err(), ProtoError::Parse("nuuo payload length"));
}

#[test]
fn rmi_frame_roundtrip_and_echo() {
    let frame = RmiFrame { op: RmiOp::Call, call_id: 0x01020304, payload: encode_call_payload("add", &vec!["1".to_string(), "2".to_string()]) };
    let bytes = frame.encode();
    assert_eq!(&bytes[..9], &[0x50, 1, 2, 3, 4, 0, 0, 0, 7]);
    assert_eq!(&bytes[9..], b"add\x001\x002");
    let back = RmiFrame::decode(&bytes).unwrap();
    assert_eq!(back.op, RmiOp::Call);
    assert_eq!(back.call_id, 0x01020304);
    assert_eq!(back.payload, frame.payload);
    assert_eq!(RmiFrame::decode(&[0x99; 9]).unwrap_err(), ProtoError::Parse("rmi unknown op"));
    assert_eq!(RmiFrame::decode(&bytes[..10]).unwrap_err(), ProtoError::Parse("rmi payload"));
    let handler = EchoRmiHandler;
    assert_eq!(handler.handle_call("add", &vec!["1".to_string(), "2".to_string()]).unwrap(), "add:1,2");
    assert_eq!(handler.handle_call("ping", &vec![]).unwrap(), "ping");
}

#[test]
fn sasl_frame_roundtrip() {
    let frame = SaslFrame { msg_type: SaslMessageType::ClientFirst, payload: b"\0user\0pass".to_vec() };
    let bytes = frame.encode();
    assert_eq!(&bytes[..3], &[0x01, 0, 10]);
    let back = SaslFrame::decode(&bytes).unwrap();
    assert_eq!(back.msg_type, SaslMessageType::ClientFirst);
    assert_eq!(back.payload, frame.payload);
    assert_eq!(SaslFrame::decode(&[0x01, 0]).unwrap_err(), ProtoError::Parse("sasl frame"));
    assert_eq!(SaslFrame::decode(&[0x09, 0, 0]).unwrap_err(), ProtoError::Parse("sasl message type"));
    assert_eq!(SaslFrame::decode(&bytes[..5]).unwrap_err(), ProtoError::Parse("sasl frame len"));
}

#[test]
fn mdns_query_and_response() {
    let query = build_query("_moonlight._tcp.local.");
    assert_eq!(query.questions.len(), 1);
    assert_eq!(query.questions[0].name, "_moonlight._tcp.local");
    assert_eq!(query.questions[0].qtype, 12);
    assert_eq!(query.header.qdcount, 1);
    let service = MdnsService {
        instance: "Moonlight".to_string(),
        service_type: "_moonlight._tcp.local".to_string(),
        host: "moonlight.local.".to_string(),
        port: 1234,
        txt: vec![("version".to_string(), "1".to_string()), ("path".to_string(), "/".to_string())],
        ipv4: Some([127, 0, 0, 1]),
        ipv6: None,
    };
    let response = build_response(&service);
    assert_eq!(response.answers.len(), 3);
    assert_eq!(response.header.ancount, 3);
    assert_eq!(response.header.arcount, 1);
    assert!(response.header.flags.qr && response.header.flags.aa);
    assert_eq!(response.answers[1].class, 1 | MDNS_CACHE_FLUSH);
    match &response.answers[1].data {
        DnsRecordData::SRV { port, target, .. } => {
            assert_eq!(*port, 1234);
            assert_eq!(target, "moonlight.local");
        },
        _ => panic!("expected SRV"),
    }
    match &response.answers[2].data {
        DnsRecordData::TXT(t) => assert_eq!(t, "version=1\npath=/"),
        _ => panic!("expected TXT"),
    }
    assert_eq!(response.additionals[0].name, "moonlight.local");
}

#[test]
fn socks5_decode_negative() {
    let mut idx = 0usize;
    assert!(Socks5Address::decode(&[], &mut idx).is_err());
}

#[test]
fn socks5_address_roundtrip() {
    let addrs = vec![
        Socks5Address::IpV4([127, 0, 0, 1]),
        Socks5Address::Domain("example.com".to_string()),
        Socks5Address::IpV6([0, 1, 2, 3, 4, 5, 6, 7, 8, 9, 10, 11, 12, 13, 14, 15]),
    ];
    let mut out = vec![0x05, 0x01, 0x00];
    for a in &addrs {
        a.encode(&mut out);
    }
    assert_eq!(&out[3..8], &[0x01, 127, 0, 0, 1]);
    assert_eq!(out[8], 0x03);
    assert_eq!(out[9], 11);
    let mut idx = 3usize;
    for a in &addrs {
        assert_eq!(&Socks5Address::decode(&out, &mut idx).unwrap(), a);
    }
    assert_eq!(idx, out.len());
    let mut idx = 0usize;
    assert_eq!(Socks5Address::decode(&[0x09], &mut idx).unwrap_err(), ProtoError::Parse("socks5 unknown address"));
    assert_eq!(idx, 1);
    let mut idx = 0usize;
    assert_eq!(Socks5Address::decode(&[0x03, 5, b'a'], &mut idx).unwrap_err(), ProtoError::Parse("socks5 domain"));
}

#[test]
fn quake_query_roundtrip() {
    let info = quake_query(QuakeQuery::GetInfo);
    assert_eq!(info, b"\xff\xff\xff\xffgetinfo".to_vec());
    assert_eq!(parse_quake_query(&info), Some(QuakeQuery::GetInfo));
    assert_eq!(parse_quake_query(&quake_query(QuakeQuery::GetStatus)), Some(QuakeQuery::GetStatus));
    assert_eq!(parse_quake_query(b"\xff\xff\xff\xffgetinfo xxx"), Some(QuakeQuery::GetInfo));
    assert_eq!(parse_quake_query(b"\xff\xff\xff\xffhello"), None);
    assert_eq!(parse_quake_query(b"\xff\xff\xff"), None);
}

#[test]
fn mssql_result_from_response() {
    let resp = TdsResponse {
        tokens: vec![
            TdsToken::ColumnMetadata(vec!["id".to_string(), "name".to_string()]),
            TdsToken::Row(vec![Some(b"1".to_vec()), None]),
            TdsToken::Row(vec![Some(b"2".to_vec()), Some(b"bob".to_vec())]),
            TdsToken::Error("warning".to_string()),
            TdsToken::Done { row_count: 2 },
        ],
    };
    let r = MssqlQueryResult::from_response(&resp);
    assert_eq!(r.columns, vec!["id".to_string(), "name".to_string()]);
    assert_eq!(r.rows.len(), 2);
    assert_eq!(r.rows[1][1], Some(b"bob".to_vec()));
    assert_eq!(r.row_count, 2);
    assert_eq!(r.errors, vec!["warning".to_string()]);
}

#[test]
fn socks5_server_decisions() {
    let open = Socks5ServerConfig::default();
    assert_eq!(choose_method(&open, &[0x02, 0x00]), 0x00);
    assert_eq!(choose_method(&open, &[0x02]), 0xff);
    let mut users = UserTable::new();
    users.insert("u".to_string(), "p".to_string());
    let closed = Socks5ServerConfig { users };
    assert_eq!(choose_method(&closed, &[0x00, 0x02]), 0x02);
    assert_eq!(choose_method(&closed, &[0x00]), 0xff);
    assert!(check_userpass(&closed, b"u", b"p"));
    assert!(!check_userpass(&closed, b"u", b"x"));
    let reply = build_reply(0x00, &Socks5Address::IpV4([10, 0, 0, 1]), 8080);
    assert_eq!(reply, vec![0x05, 0x00, 0x00, 0x01, 10, 0, 0, 1, 0x1f, 0x90]);
}

#[test]
fn rmi_call_payload_roundtrip() {
    let payload = encode_call_payload("echo", &vec!["a".to_string(), "".to_string(), "b c".to_string()]);
    let (method, args) = proto::rmi::decode_call_payload(&payload).unwrap();
    assert_eq!(method, "echo");
    assert_eq!(args, vec!["a".to_string(), "".to_string(), "b c".to_string()]);
    assert_eq!(proto::rmi::decode_call_payload(b"\0x").unwrap_err(), ProtoError::Parse("rmi method"));
}

#[test]
fn nuuo_server_answers() {
    let config = NuuoServerConfig {
        product_name: "Moonlight NUUO".to_string(),
        version: "1.0".to_string(),
        cameras: vec![
            NuuoCamera { id: 1, name: "door".to_string(), ip: Some([192, 168, 0, 10]) },
            NuuoCamera { id: 22, name: "yard".to_string(), ip: None },
        ],
    };
    assert_eq!(build_camera_list(&config.cameras), b"id=1,name=door,ip=192.168.0.10\nid=22,name=yard,ip=".to_vec());
    let pong = serve_request(&config, &NuuoFrame::new(NuuoMessageType::Ping, vec![]));
    assert_eq!(pong.msg_type, NuuoMessageType::Pong);
    assert!(pong.payload.is_empty());
    let info = serve_request(&config, &NuuoFrame::new(NuuoMessageType::GetInfo, vec![]));
    assert_eq!(info.msg_type, NuuoMessageType::Info);
    assert_eq!(info.payload, b"product=Moonlight NUUO\nversion=1.0\ncameras=2\n".to_vec());
    let other = serve_request(&config, &NuuoFrame::new(NuuoMessageType::Hello, vec![]));
    assert_eq!(other.msg_type, NuuoMessageType::Error);
    assert_eq!(other.payload, b"unsupported".to_vec());
}
