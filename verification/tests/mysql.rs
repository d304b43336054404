use proto::mysql::handshake::{MysqlHandshake, MysqlHandshakeResponse};
use proto::mysql::wire::{decode_lenenc_int, decode_lenenc_string, encode_lenenc_int};

fn mysql_fuzz_inputs(count: usize, max_len: usize, seed: u64) -> Vec<Vec<u8>> {
    let mut state = seed | 1;
    let mut next = move || {
        state ^= state << 13;
        state ^= state >> 7;
        state ^= state << 17;
        state
    };
    let mut out = Vec::new();
    for _ in 0..count {
        let len = (next() as usize) % (max_len + 1);
        out.push((0..len).map(|_| next() as u8).collect());
    }
    out
}

#[test]
fn mysql_decode_negative() {
    assert!(MysqlHandshake::decode(&[]).is_err());
    assert!(MysqlHandshakeResponse::decode(&[]).is_err());
}

#[test]
fn mysql_decode_fuzz() {
    for data in mysql_fuzz_inputs(128, 512, 0x4D59) {
        let _ = MysqlHandshake::decode(&data);
        let _ = MysqlHandshakeResponse::decode(&data);
        let mut idx = 0usize;
        let _ = decode_lenenc_int(&data, &mut idx);
        idx = 0;
        let _ = decode_lenenc_string(&data, &mut idx);
    }
}

#[test]
fn lenenc_int_roundtrip_and_widths() {
    for (v, len) in [(0u64, 1usize), (250, 1), (251, 3), (0xffff, 3), (0x10000, 4), (0xffffff, 4), (0x1000000, 9)] {
        let mut enc = Vec::new();
        encode_lenenc_int(&mut enc, v);
        assert_eq!(enc.len(), len);
        let mut idx = 0usize;
        assert_eq!(decode_lenenc_int(&enc, &mut idx).unwrap(), v);
        assert_eq!(idx, len);
    }
}
