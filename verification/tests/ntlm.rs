use proto::ntlm::{des_encrypt_block, lm_hash, md4_digest, nt_hash, Rc4};

fn hex_encode(data: impl AsRef<[u8]>) -> String {
    data.as_ref().iter().map(|b| format!("{:02x}", b)).collect::<String>()
}

#[test]
fn md4_vectors() {
    let cases = [
        ("", "31d6cfe0d16ae931b73c59d7e0c089c0"),
        ("a", "bde52cb31de33e46245e05fbdbd6fb24"),
        ("abc", "a448017aaf21d8525fc10ae87aa6729d"),
        ("message digest", "d9130a8164549fe818874806e1c7014b"),
        ("abcdefghijklmnopqrstuvwxyz", "d79e1c308aa5bbcdeea8ed63df412da9"),
        (
            "ABCDEFGHIJKLMNOPQRSTUVWXYZabcdefghijklmnopqrstuvwxyz0123456789",
            "043f8582f241db351ce627e153e7f0e4",
        ),
        (
            "12345678901234567890123456789012345678901234567890123456789012345678901234567890",
            "e33b4ddc9c38f2199c3e7b164fcc0536",
        ),
    ];
    for (input, expected) in cases {
        let digest = md4_digest(input.as_bytes());
        let hex = digest.iter().map(|b| format!("{:02x}", b)).collect::<String>();
        assert_eq!(hex, expected);
    }
}

#[test]
fn rc4_vector() {
    let mut rc4 = Rc4::new(b"Key");
    let mut data = b"Plaintext".to_vec();
    rc4.process(&mut data);
    assert_eq!(hex_encode(data), "bbf316e8d940af0ad3");
}

#[test]
fn des_vector() {
    let key = 0x133457799bbcdff1u64.to_be_bytes();
    let block = 0x0123456789abcdefu64.to_be_bytes();
    let out = des_encrypt_block(key, block);
    assert_eq!(hex_encode(out), "85e813540f0ab405");
}

#[test]
fn lm_nt_hash_vectors() {
    let lm = lm_hash("password");
    let nt = nt_hash("password");
    assert_eq!(hex_encode(lm), "e52cac67419a9a224a3b108f3fa6cb6d");
    assert_eq!(hex_encode(nt), "8846f7eaee8fb117ad06bdd830b7586c");
}

use proto::ntlm::auth::{NtlmClient, NtlmClientConfig, NtlmSecret, NtlmServer, NtlmServerConfig};
use proto::ntlm::av::{
    default_flags, AvPair, Version, NEGOTIATE_OEM_DOMAIN_SUPPLIED,
    NEGOTIATE_OEM_WORKSTATION_SUPPLIED,
};
use proto::ntlm::message::{AuthenticateMessage, ChallengeMessage, NegotiateMessage};

#[test]
fn negotiate_roundtrip() {
    let msg = NegotiateMessage {
        flags: default_flags() | NEGOTIATE_OEM_DOMAIN_SUPPLIED | NEGOTIATE_OEM_WORKSTATION_SUPPLIED,
        domain: "DOMAIN".to_string(),
        workstation: "HOST".to_string(),
        version: Some(Version::windows_10()),
    };
    let encoded = msg.encode();
    let decoded = NegotiateMessage::decode(&encoded).unwrap();
    assert_eq!(msg, decoded);
}

#[test]
fn challenge_roundtrip() {
    let msg = ChallengeMessage {
        target_name: "TARGET".to_string(),
        flags: default_flags(),
        server_challenge: [1u8; 8],
        target_info: vec![AvPair::DnsDomainName("example.com".to_string()), AvPair::Eol],
        version: Some(Version::windows_10()),
    };
    let encoded = msg.encode();
    let decoded = ChallengeMessage::decode(&encoded).unwrap();
    assert_eq!(msg, decoded);
}

#[test]
fn authenticate_roundtrip() {
    let msg = AuthenticateMessage {
        lm_response: vec![1, 2, 3],
        nt_response: vec![4, 5, 6],
        domain: "DOMAIN".to_string(),
        user: "User".to_string(),
        workstation: "HOST".to_string(),
        encrypted_session_key: vec![7, 8, 9],
        flags: default_flags(),
        version: Some(Version::windows_10()),
        mic: Some([9u8; 16]),
    };
    let encoded = msg.encode();
    let decoded = AuthenticateMessage::decode(&encoded).unwrap();
    assert_eq!(msg, decoded);
}

#[test]
fn ntlmv2_handshake() {
    let mut server_config = NtlmServerConfig::default();
    server_config.insert_credential(
        "USER".to_string(),
        NtlmSecret::Plaintext("Password".to_string()),
    );
    server_config.server_challenge = Some([0x01, 0x23, 0x45, 0x67, 0x89, 0xab, 0xcd, 0xef]);
    server_config.target_info = vec![AvPair::DnsDomainName("domain".to_string()), AvPair::Eol];
    let server = NtlmServer::new(server_config);

    let mut client_config = NtlmClientConfig::default();
    client_config.username = "User".to_string();
    client_config.password = NtlmSecret::Plaintext("Password".to_string());
    client_config.domain = "Domain".to_string();
    client_config.client_challenge = Some([0xaa, 0xbb, 0xcc, 0xdd, 0xee, 0xff, 0x11, 0x22]);
    client_config.timestamp = Some(0x01_23_45_67_89_ab_cd_ef);
    let client = NtlmClient::new(client_config);

    let negotiate = client.negotiate();
    let challenge = server.challenge(&negotiate);
    let (auth, _) = client.respond(&challenge).unwrap();
    let session = server.authenticate(&challenge, &auth).unwrap();
    assert_ne!(session.exported_session_key, [0u8; 16]);
}

#[test]
fn wrong_password_is_refused() {
    let mut server_config = NtlmServerConfig::default();
    server_config.insert_credential(
        "USER".to_string(),
        NtlmSecret::Plaintext("Password".to_string()),
    );
    server_config.server_challenge = Some([7u8; 8]);
    let server = NtlmServer::new(server_config);
    let mut client_config = NtlmClientConfig::default();
    client_config.username = "User".to_string();
    client_config.password = NtlmSecret::Plaintext("wrong".to_string());
    client_config.client_challenge = Some([1u8; 8]);
    client_config.timestamp = Some(1);
    let client = NtlmClient::new(client_config);
    let challenge = server.challenge(&client.negotiate());
    let (auth, _) = client.respond(&challenge).unwrap();
    assert!(server.authenticate(&challenge, &auth).is_err());
}

#[test]
fn ntlmv1_handshake_without_extended_security() {
    let mut server_config = NtlmServerConfig::default();
    server_config.insert_credential("USER".to_string(), NtlmSecret::Plaintext("Password".to_string()));
    server_config.server_challenge = Some([0x11, 0x22, 0x33, 0x44, 0x55, 0x66, 0x77, 0x88]);
    let server = NtlmServer::new(server_config);
    let mut client_config = NtlmClientConfig::default();
    client_config.username = "User".to_string();
    client_config.password = NtlmSecret::Plaintext("Password".to_string());
    client_config.flags = client_config.flags & !proto::ntlm::av::NEGOTIATE_EXTENDED_SESSIONSECURITY;
    client_config.client_challenge = Some([3u8; 8]);
    client_config.timestamp = Some(5);
    let client = NtlmClient::new(client_config);
    let challenge = server.challenge(&client.negotiate());
    let (auth, client_session) = client.respond(&challenge).unwrap();
    assert_eq!(auth.nt_response.len(), 24);
    let server_session = server.authenticate(&challenge, &auth).unwrap();
    assert_eq!(server_session.exported_session_key, client_session.exported_session_key);
}
