use proto::ms_adts::{KeyCredentialEntry, KeyCredentialStruct};

#[test]
fn ms_adts_roundtrip() {
    let entry = KeyCredentialEntry {
        identifier: 1,
        data: vec![1, 2, 3, 4],
    };
    let ks = KeyCredentialStruct {
        version: 2,
        entries: vec![entry.clone()],
    };
    let encoded = ks.encode();
    let decoded = KeyCredentialStruct::decode(&encoded).unwrap();
    assert_eq!(decoded.version, 2);
    assert_eq!(decoded.entries, vec![entry]);
}
