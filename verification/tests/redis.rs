use proto::redis::{decode_frame, read_frame, RespDecode, RespFrame, RespVersion};

fn redis_fuzz_inputs(count: usize, max_len: usize, seed: u64) -> Vec<Vec<u8>> {
    let mut state = seed | 1;
    let mut next = move || {
        state ^= state << 13;
        state ^= state >> 7;
        state ^= state << 17;
        state
    };
    let mut out = Vec::new();
    for _ in 0..count {
        let len = (next() as usize) % (max_len + 1);
        out.push((0..len).map(|_| next() as u8).collect());
    }
    out
}

#[test]
fn resp_roundtrip_bulk() {
    let frame = RespFrame::BulkString(Some(b"hello".to_vec()));
    let encoded = frame.encode(RespVersion::Resp2);
    let (decoded, _) = read_frame(&encoded).unwrap();
    assert_eq!(frame, decoded);
}

#[test]
fn resp_roundtrip_map() {
    let frame = RespFrame::MapOf(vec![
        (RespFrame::SimpleString("a".to_string()), RespFrame::Integer(1)),
        (RespFrame::SimpleString("b".to_string()), RespFrame::Integer(2)),
    ]);
    let encoded = frame.encode(RespVersion::Resp3);
    let (decoded, _) = read_frame(&encoded).unwrap();
    assert_eq!(frame, decoded);
}

#[test]
fn resp_decode_negative() {
    assert!(read_frame(&[]).is_err());
}

#[test]
fn resp_decode_fuzz() {
    for data in redis_fuzz_inputs(128, 512, 0x5253) {
        let _ = read_frame(&data);
    }
}

#[test]
fn resp_partial_frame_is_incomplete() {
    let encoded = RespFrame::BulkString(Some(b"hello".to_vec())).encode(RespVersion::Resp2);
    let cut = &encoded[..encoded.len() - 1];
    assert_eq!(decode_frame(cut, 0, 0).unwrap(), RespDecode::Incomplete);
    assert!(read_frame(cut).is_err());
}

#[test]
fn resp_encoding_is_exact() {
    let frame = RespFrame::Array(Some(vec![
        RespFrame::BulkString(Some(b"GET".to_vec())),
        RespFrame::Integer(-7),
    ]));
    assert_eq!(frame.encode(RespVersion::Resp2), b"*2\r\n$3\r\nGET\r\n:-7\r\n".to_vec());
    assert_eq!(RespFrame::Null.encode(RespVersion::Resp2), b"$-1\r\n".to_vec());
    assert_eq!(RespFrame::Null.encode(RespVersion::Resp3), b"_\r\n".to_vec());
}
