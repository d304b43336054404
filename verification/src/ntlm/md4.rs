//! The MD4 message digest (RFC 1320), used to derive NT password hashes.
use vstd::prelude::*;
use crate::wire::{le32, le64, get_le32, push_bytes, push_le32, push_le64, read_le32};

verus! {

/// Rotation of a 32-bit word left by `s` bits.
pub open spec fn rotl(x: u32, s: u32) -> u32 {
    (x << s) | (x >> ((32 - s) as u32))
}

/// The first-round selection function of MD4.
pub open spec fn md4_f(x: u32, y: u32, z: u32) -> u32 {
    (x & y) | (!x & z)
}

/// The second-round majority function of MD4.
pub open spec fn md4_g(x: u32, y: u32, z: u32) -> u32 {
    (x & y) | (x & z) | (y & z)
}

/// The third-round parity function of MD4.
pub open spec fn md4_h(x: u32, y: u32, z: u32) -> u32 {
    x ^ y ^ z
}

/// One operation of the first round.
pub open spec fn md4_round1(a: u32, b: u32, c: u32, d: u32, xk: u32, s: u32) -> u32 {
    rotl(a.wrapping_add(md4_f(b, c, d)).wrapping_add(xk), s)
}

/// One operation of the second round.
pub open spec fn md4_round2(a: u32, b: u32, c: u32, d: u32, xk: u32, s: u32) -> u32 {
    rotl(a.wrapping_add(md4_g(b, c, d)).wrapping_add(xk).wrapping_add(0x5a827999), s)
}

/// One operation of the third round.
pub open spec fn md4_round3(a: u32, b: u32, c: u32, d: u32, xk: u32, s: u32) -> u32 {
    rotl(a.wrapping_add(md4_h(b, c, d)).wrapping_add(xk).wrapping_add(0x6ed9eba1), s)
}

/// Word `k` of the 64-byte block of `p` that starts at `off`.
pub open spec fn md4_word(p: Seq<u8>, off: int, k: int) -> u32 {
    get_le32(p, off + 4 * k)
}

/// The MD4 chaining state.
pub type Md4State = (u32, u32, u32, u32);

/// The initial chaining state.
pub open spec fn md4_init() -> Md4State {
    (0x67452301, 0xefcdab89, 0x98badcfe, 0x10325476)
}

/// The compression function on the block of `p` at `off`.
#[verifier::opaque]
pub open spec fn md4_compress(st: Md4State, p: Seq<u8>, off: int) -> Md4State {
    let (a0, b0, c0, d0) = st;
    let a = a0;
    let b = b0;
    let c = c0;
    let d = d0;
    let a = md4_round1(a, b, c, d, md4_word(p, off, 0), 3);
    let d = md4_round1(d, a, b, c, md4_word(p, off, 1), 7);
    let c = md4_round1(c, d, a, b, md4_word(p, off, 2), 11);
    let b = md4_round1(b, c, d, a, md4_word(p, off, 3), 19);
    let a = md4_round1(a, b, c, d, md4_word(p, off, 4), 3);
    let d = md4_round1(d, a, b, c, md4_word(p, off, 5), 7);
    let c = md4_round1(c, d, a, b, md4_word(p, off, 6), 11);
    let b = md4_round1(b, c, d, a, md4_word(p, off, 7), 19);
    let a = md4_round1(a, b, c, d, md4_word(p, off, 8), 3);
    let d = md4_round1(d, a, b, c, md4_word(p, off, 9), 7);
    let c = md4_round1(c, d, a, b, md4_word(p, off, 10), 11);
    let b = md4_round1(b, c, d, a, md4_word(p, off, 11), 19);
    let a = md4_round1(a, b, c, d, md4_word(p, off, 12), 3);
    let d = md4_round1(d, a, b, c, md4_word(p, off, 13), 7);
    let c = md4_round1(c, d, a, b, md4_word(p, off, 14), 11);
    let b = md4_round1(b, c, d, a, md4_word(p, off, 15), 19);
    let a = md4_round2(a, b, c, d, md4_word(p, off, 0), 3);
    let d = md4_round2(d, a, b, c, md4_word(p, off, 4), 5);
    let c = md4_round2(c, d, a, b, md4_word(p, off, 8), 9);
    let b = md4_round2(b, c, d, a, md4_word(p, off, 12), 13);
    let a = md4_round2(a, b, c, d, md4_word(p, off, 1), 3);
    let d = md4_round2(d, a, b, c, md4_word(p, off, 5), 5);
    let c = md4_round2(c, d, a, b, md4_word(p, off, 9), 9);
    let b = md4_round2(b, c, d, a, md4_word(p, off, 13), 13);
    let a = md4_round2(a, b, c, d, md4_word(p, off, 2), 3);
    let d = md4_round2(d, a, b, c, md4_word(p, off, 6), 5);
    let c = md4_round2(c, d, a, b, md4_word(p, off, 10), 9);
    let b = md4_round2(b, c, d, a, md4_word(p, off, 14), 13);
    let a = md4_round2(a, b, c, d, md4_word(p, off, 3), 3);
    let d = md4_round2(d, a, b, c, md4_word(p, off, 7), 5);
    let c = md4_round2(c, d, a, b, md4_word(p, off, 11), 9);
    let b = md4_round2(b, c, d, a, md4_word(p, off, 15), 13);
    let a = md4_round3(a, b, c, d, md4_word(p, off, 0), 3);
    let d = md4_round3(d, a, b, c, md4_word(p, off, 8), 9);
    let c = md4_round3(c, d, a, b, md4_word(p, off, 4), 11);
    let b = md4_round3(b, c, d, a, md4_word(p, off, 12), 15);
    let a = md4_round3(a, b, c, d, md4_word(p, off, 2), 3);
    let d = md4_round3(d, a, b, c, md4_word(p, off, 10), 9);
    let c = md4_round3(c, d, a, b, md4_word(p, off, 6), 11);
    let b = md4_round3(b, c, d, a, md4_word(p, off, 14), 15);
    let a = md4_round3(a, b, c, d, md4_word(p, off, 1), 3);
    let d = md4_round3(d, a, b, c, md4_word(p, off, 9), 9);
    let c = md4_round3(c, d, a, b, md4_word(p, off, 5), 11);
    let b = md4_round3(b, c, d, a, md4_word(p, off, 13), 15);
    let a = md4_round3(a, b, c, d, md4_word(p, off, 3), 3);
    let d = md4_round3(d, a, b, c, md4_word(p, off, 11), 9);
    let c = md4_round3(c, d, a, b, md4_word(p, off, 7), 11);
    let b = md4_round3(b, c, d, a, md4_word(p, off, 15), 15);
    (a0.wrapping_add(a), b0.wrapping_add(b), c0.wrapping_add(c), d0.wrapping_add(d))
}

/// The message padded to whole blocks: a one bit, zeros, then the bit length.
pub open spec fn md4_pad(m: Seq<u8>) -> Seq<u8> {
    let r = m.len() % 64;
    let zeros: nat = if r < 56 { (55 - r) as nat } else { (119 - r) as nat };
    m + seq![0x80u8] + Seq::new(zeros, |i: int| 0u8) + le64(((m.len() * 8) % 0x1_0000_0000_0000_0000) as u64)
}

/// The chaining state after the first `n` blocks of `p`.
pub open spec fn md4_blocks(p: Seq<u8>, n: nat) -> Md4State
    decreases n,
{
    if n == 0 {
        md4_init()
    } else {
        md4_compress(md4_blocks(p, (n - 1) as nat), p, 64 * (n - 1))
    }
}

/// The MD4 digest of `m`.
pub open spec fn md4(m: Seq<u8>) -> Seq<u8> {
    let p = md4_pad(m);
    let (a, b, c, d) = md4_blocks(p, p.len() / 64);
    le32(a) + le32(b) + le32(c) + le32(d)
}

/// The padded message is a whole number of blocks.
pub proof fn lemma_md4_pad_len(m: Seq<u8>)
    ensures
        md4_pad(m).len() % 64 == 0,
        md4_pad(m).len() >= m.len() + 9,
{
}

fn rotate(x: u32, s: u32) -> (r: u32)
    requires
        0 < s < 32,
    ensures
        r == rotl(x, s),
{
    (x << s) | (x >> (32 - s))
}

fn round1(a: u32, b: u32, c: u32, d: u32, xk: u32, s: u32) -> (r: u32)
    requires
        0 < s < 32,
    ensures
        r == md4_round1(a, b, c, d, xk, s),
{
    let f = (b & c) | (!b & d);
    rotate(a.wrapping_add(f).wrapping_add(xk), s)
}

fn round2(a: u32, b: u32, c: u32, d: u32, xk: u32, s: u32) -> (r: u32)
    requires
        0 < s < 32,
    ensures
        r == md4_round2(a, b, c, d, xk, s),
{
    let g = (b & c) | (b & d) | (c & d);
    rotate(a.wrapping_add(g).wrapping_add(xk).wrapping_add(0x5a827999), s)
}

fn round3(a: u32, b: u32, c: u32, d: u32, xk: u32, s: u32) -> (r: u32)
    requires
        0 < s < 32,
    ensures
        r == md4_round3(a, b, c, d, xk, s),
{
    let h = b ^ c ^ d;
    rotate(a.wrapping_add(h).wrapping_add(xk).wrapping_add(0x6ed9eba1), s)
}

/// Applies the compression function to the block of `p` at `off`.
#[verifier::rlimit(50)]
fn process_block(st: (u32, u32, u32, u32), p: &[u8], off: usize) -> (r: (u32, u32, u32, u32))
    requires
        off + 64 <= p.len(),
    ensures
        r == md4_compress(st, p@, off as int),
{
    let x0 = read_le32(p, off + 0);
    let x1 = read_le32(p, off + 4);
    let x2 = read_le32(p, off + 8);
    let x3 = read_le32(p, off + 12);
    let x4 = read_le32(p, off + 16);
    let x5 = read_le32(p, off + 20);
    let x6 = read_le32(p, off + 24);
    let x7 = read_le32(p, off + 28);
    let x8 = read_le32(p, off + 32);
    let x9 = read_le32(p, off + 36);
    let x10 = read_le32(p, off + 40);
    let x11 = read_le32(p, off + 44);
    let x12 = read_le32(p, off + 48);
    let x13 = read_le32(p, off + 52);
    let x14 = read_le32(p, off + 56);
    let x15 = read_le32(p, off + 60);
    assert(x0 == md4_word(p@, off as int, 0));
    assert(x1 == md4_word(p@, off as int, 1));
    assert(x2 == md4_word(p@, off as int, 2));
    assert(x3 == md4_word(p@, off as int, 3));
    assert(x4 == md4_word(p@, off as int, 4));
    assert(x5 == md4_word(p@, off as int, 5));
    assert(x6 == md4_word(p@, off as int, 6));
    assert(x7 == md4_word(p@, off as int, 7));
    assert(x8 == md4_word(p@, off as int, 8));
    assert(x9 == md4_word(p@, off as int, 9));
    assert(x10 == md4_word(p@, off as int, 10));
    assert(x11 == md4_word(p@, off as int, 11));
    assert(x12 == md4_word(p@, off as int, 12));
    assert(x13 == md4_word(p@, off as int, 13));
    assert(x14 == md4_word(p@, off as int, 14));
    assert(x15 == md4_word(p@, off as int, 15));
    reveal(md4_compress);
    let (a0, b0, c0, d0) = st;
    let a = a0;
    let b = b0;
    let c = c0;
    let d = d0;
    let a = round1(a, b, c, d, x0, 3);
    let d = round1(d, a, b, c, x1, 7);
    let c = round1(c, d, a, b, x2, 11);
    let b = round1(b, c, d, a, x3, 19);
    let a = round1(a, b, c, d, x4, 3);
    let d = round1(d, a, b, c, x5, 7);
    let c = round1(c, d, a, b, x6, 11);
    let b = round1(b, c, d, a, x7, 19);
    let a = round1(a, b, c, d, x8, 3);
    let d = round1(d, a, b, c, x9, 7);
    let c = round1(c, d, a, b, x10, 11);
    let b = round1(b, c, d, a, x11, 19);
    let a = round1(a, b, c, d, x12, 3);
    let d = round1(d, a, b, c, x13, 7);
    let c = round1(c, d, a, b, x14, 11);
    let b = round1(b, c, d, a, x15, 19);
    let a = round2(a, b, c, d, x0, 3);
    let d = round2(d, a, b, c, x4, 5);
    let c = round2(c, d, a, b, x8, 9);
    let b = round2(b, c, d, a, x12, 13);
    let a = round2(a, b, c, d, x1, 3);
    let d = round2(d, a, b, c, x5, 5);
    let c = round2(c, d, a, b, x9, 9);
    let b = round2(b, c, d, a, x13, 13);
    let a = round2(a, b, c, d, x2, 3);
    let d = round2(d, a, b, c, x6, 5);
    let c = round2(c, d, a, b, x10, 9);
    let b = round2(b, c, d, a, x14, 13);
    let a = round2(a, b, c, d, x3, 3);
    let d = round2(d, a, b, c, x7, 5);
    let c = round2(c, d, a, b, x11, 9);
    let b = round2(b, c, d, a, x15, 13);
    let a = round3(a, b, c, d, x0, 3);
    let d = round3(d, a, b, c, x8, 9);
    let c = round3(c, d, a, b, x4, 11);
    let b = round3(b, c, d, a, x12, 15);
    let a = round3(a, b, c, d, x2, 3);
    let d = round3(d, a, b, c, x10, 9);
    let c = round3(c, d, a, b, x6, 11);
    let b = round3(b, c, d, a, x14, 15);
    let a = round3(a, b, c, d, x1, 3);
    let d = round3(d, a, b, c, x9, 9);
    let c = round3(c, d, a, b, x5, 11);
    let b = round3(b, c, d, a, x13, 15);
    let a = round3(a, b, c, d, x3, 3);
    let d = round3(d, a, b, c, x11, 9);
    let c = round3(c, d, a, b, x7, 11);
    let b = round3(b, c, d, a, x15, 15);
    (a0.wrapping_add(a), b0.wrapping_add(b), c0.wrapping_add(c), d0.wrapping_add(d))
}

fn md4_padded(data: &[u8]) -> (p: Vec<u8>)
    ensures
        p@ == md4_pad(data@),
{
    let ghost m = data@;
    let mut p: Vec<u8> = Vec::new();
    push_bytes(&mut p, data);
    p.push(0x80u8);
    let r = data.len() % 64;
    let zeros = if r < 56 { 55 - r } else { 119 - r };
    let mut i: usize = 0;
    while i < zeros
        invariant
            i <= zeros,
            p@ == m + seq![0x80u8] + Seq::new(i as nat, |j: int| 0u8),
        decreases zeros - i,
    {
        p.push(0u8);
        i = i + 1;
        assert(Seq::new(i as nat, |j: int| 0u8) =~= Seq::new((i - 1) as nat, |j: int| 0u8).push(0u8));
    }
    let bits = (data.len() as u64).wrapping_mul(8);
    assert(bits == ((m.len() * 8) % 0x1_0000_0000_0000_0000) as u64);
    push_le64(&mut p, bits);
    p
}

/// The MD4 digest of `data`.
pub fn md4_digest(data: &[u8]) -> (out: [u8; 16])
    ensures
        out@ == md4(data@),
{
    let p = md4_padded(data);
    proof {
        lemma_md4_pad_len(data@);
    }
    let plen = p.len();
    let nblocks = plen / 64;
    let mut st: (u32, u32, u32, u32) = (0x67452301, 0xefcdab89, 0x98badcfe, 0x10325476);
    let mut k: usize = 0;
    while k < nblocks
        invariant
            k <= nblocks,
            plen == p@.len(),
            nblocks == p@.len() / 64,
            p@.len() % 64 == 0,
            st == md4_blocks(p@, k as nat),
        decreases nblocks - k,
    {
        assert(64 * k + 64 <= plen) by (nonlinear_arith)
            requires
                k < nblocks,
                nblocks == plen / 64,
        ;
        st = process_block(st, p.as_slice(), 64 * k);
        k = k + 1;
    }
    let (a, b, c, d) = st;
    let mut out: Vec<u8> = Vec::new();
    push_le32(&mut out, a);
    push_le32(&mut out, b);
    push_le32(&mut out, c);
    push_le32(&mut out, d);
    let res = [out[0], out[1], out[2], out[3], out[4], out[5], out[6], out[7], out[8], out[9],
        out[10], out[11], out[12], out[13], out[14], out[15]];
    assert(res@ =~= out@);
    res
}

} // verus!
