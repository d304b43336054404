//! Single-block DES encryption (FIPS 46-3), as NTLM uses it for LM hashes and
//! NTLMv1 responses.
use vstd::prelude::*;

verus! {

/// Initial permutation.
pub open spec fn ip_table() -> Seq<u8> {
    seq![58, 50, 42, 34, 26, 18, 10, 2, 60, 52, 44, 36, 28, 20, 12, 4, 62, 54, 46, 38, 30, 22, 14, 6, 64, 56, 48, 40, 32, 24, 16, 8, 57, 49, 41, 33, 25, 17, 9, 1, 59, 51, 43, 35, 27, 19, 11, 3, 61, 53, 45, 37, 29, 21, 13, 5, 63, 55, 47, 39, 31, 23, 15, 7]
}

fn ip_table_exec() -> (t: [u8; 64])
    ensures
        t@ == ip_table(),
{
    let t: [u8; 64] = [58, 50, 42, 34, 26, 18, 10, 2, 60, 52, 44, 36, 28, 20, 12, 4, 62, 54, 46, 38, 30, 22, 14, 6, 64, 56, 48, 40, 32, 24, 16, 8, 57, 49, 41, 33, 25, 17, 9, 1, 59, 51, 43, 35, 27, 19, 11, 3, 61, 53, 45, 37, 29, 21, 13, 5, 63, 55, 47, 39, 31, 23, 15, 7];
    assert(t@ =~= ip_table());
    t
}

/// Final permutation.
pub open spec fn fp_table() -> Seq<u8> {
    seq![40, 8, 48, 16, 56, 24, 64, 32, 39, 7, 47, 15, 55, 23, 63, 31, 38, 6, 46, 14, 54, 22, 62, 30, 37, 5, 45, 13, 53, 21, 61, 29, 36, 4, 44, 12, 52, 20, 60, 28, 35, 3, 43, 11, 51, 19, 59, 27, 34, 2, 42, 10, 50, 18, 58, 26, 33, 1, 41, 9, 49, 17, 57, 25]
}

fn fp_table_exec() -> (t: [u8; 64])
    ensures
        t@ == fp_table(),
{
    let t: [u8; 64] = [40, 8, 48, 16, 56, 24, 64, 32, 39, 7, 47, 15, 55, 23, 63, 31, 38, 6, 46, 14, 54, 22, 62, 30, 37, 5, 45, 13, 53, 21, 61, 29, 36, 4, 44, 12, 52, 20, 60, 28, 35, 3, 43, 11, 51, 19, 59, 27, 34, 2, 42, 10, 50, 18, 58, 26, 33, 1, 41, 9, 49, 17, 57, 25];
    assert(t@ =~= fp_table());
    t
}

/// Key permuted choice one.
pub open spec fn pc1_table() -> Seq<u8> {
    seq![57, 49, 41, 33, 25, 17, 9, 1, 58, 50, 42, 34, 26, 18, 10, 2, 59, 51, 43, 35, 27, 19, 11, 3, 60, 52, 44, 36, 63, 55, 47, 39, 31, 23, 15, 7, 62, 54, 46, 38, 30, 22, 14, 6, 61, 53, 45, 37, 29, 21, 13, 5, 28, 20, 12, 4]
}

fn pc1_table_exec() -> (t: [u8; 56])
    ensures
        t@ == pc1_table(),
{
    let t: [u8; 56] = [57, 49, 41, 33, 25, 17, 9, 1, 58, 50, 42, 34, 26, 18, 10, 2, 59, 51, 43, 35, 27, 19, 11, 3, 60, 52, 44, 36, 63, 55, 47, 39, 31, 23, 15, 7, 62, 54, 46, 38, 30, 22, 14, 6, 61, 53, 45, 37, 29, 21, 13, 5, 28, 20, 12, 4];
    assert(t@ =~= pc1_table());
    t
}

/// Key permuted choice two.
pub open spec fn pc2_table() -> Seq<u8> {
    seq![14, 17, 11, 24, 1, 5, 3, 28, 15, 6, 21, 10, 23, 19, 12, 4, 26, 8, 16, 7, 27, 20, 13, 2, 41, 52, 31, 37, 47, 55, 30, 40, 51, 45, 33, 48, 44, 49, 39, 56, 34, 53, 46, 42, 50, 36, 29, 32]
}

fn pc2_table_exec() -> (t: [u8; 48])
    ensures
        t@ == pc2_table(),
{
    let t: [u8; 48] = [14, 17, 11, 24, 1, 5, 3, 28, 15, 6, 21, 10, 23, 19, 12, 4, 26, 8, 16, 7, 27, 20, 13, 2, 41, 52, 31, 37, 47, 55, 30, 40, 51, 45, 33, 48, 44, 49, 39, 56, 34, 53, 46, 42, 50, 36, 29, 32];
    assert(t@ =~= pc2_table());
    t
}

/// Expansion of a half block.
pub open spec fn e_table() -> Seq<u8> {
    seq![32, 1, 2, 3, 4, 5, 4, 5, 6, 7, 8, 9, 8, 9, 10, 11, 12, 13, 12, 13, 14, 15, 16, 17, 16, 17, 18, 19, 20, 21, 20, 21, 22, 23, 24, 25, 24, 25, 26, 27, 28, 29, 28, 29, 30, 31, 32, 1]
}

fn e_table_exec() -> (t: [u8; 48])
    ensures
        t@ == e_table(),
{
    let t: [u8; 48] = [32, 1, 2, 3, 4, 5, 4, 5, 6, 7, 8, 9, 8, 9, 10, 11, 12, 13, 12, 13, 14, 15, 16, 17, 16, 17, 18, 19, 20, 21, 20, 21, 22, 23, 24, 25, 24, 25, 26, 27, 28, 29, 28, 29, 30, 31, 32, 1];
    assert(t@ =~= e_table());
    t
}

/// Permutation of the S-box outputs.
pub open spec fn p_table() -> Seq<u8> {
    seq![16, 7, 20, 21, 29, 12, 28, 17, 1, 15, 23, 26, 5, 18, 31, 10, 2, 8, 24, 14, 32, 27, 3, 9, 19, 13, 30, 6, 22, 11, 4, 25]
}

fn p_table_exec() -> (t: [u8; 32])
    ensures
        t@ == p_table(),
{
    let t: [u8; 32] = [16, 7, 20, 21, 29, 12, 28, 17, 1, 15, 23, 26, 5, 18, 31, 10, 2, 8, 24, 14, 32, 27, 3, 9, 19, 13, 30, 6, 22, 11, 4, 25];
    assert(t@ =~= p_table());
    t
}

/// Left rotations of the key halves per round.
pub open spec fn shift_table() -> Seq<u32> {
    seq![1, 1, 2, 2, 2, 2, 2, 2, 1, 2, 2, 2, 2, 2, 2, 1]
}

fn shift_table_exec() -> (t: [u32; 16])
    ensures
        t@ == shift_table(),
{
    let t: [u32; 16] = [1, 1, 2, 2, 2, 2, 2, 2, 1, 2, 2, 2, 2, 2, 2, 1];
    assert(t@ =~= shift_table());
    t
}

/// The eight S-boxes, each four rows of sixteen entries, one after the other.
pub open spec fn sbox_table() -> Seq<u8> {
    seq![14, 4, 13, 1, 2, 15, 11, 8, 3, 10, 6, 12, 5, 9, 0, 7, 0, 15, 7, 4, 14, 2, 13, 1, 10, 6, 12, 11, 9, 5, 3, 8, 4, 1, 14, 8, 13, 6, 2, 11, 15, 12, 9, 7, 3, 10, 5, 0, 15, 12, 8, 2, 4, 9, 1, 7, 5, 11, 3, 14, 10, 0, 6, 13, 15, 1, 8, 14, 6, 11, 3, 4, 9, 7, 2, 13, 12, 0, 5, 10, 3, 13, 4, 7, 15, 2, 8, 14, 12, 0, 1, 10, 6, 9, 11, 5, 0, 14, 7, 11, 10, 4, 13, 1, 5, 8, 12, 6, 9, 3, 2, 15, 13, 8, 10, 1, 3, 15, 4, 2, 11, 6, 7, 12, 0, 5, 14, 9, 10, 0, 9, 14, 6, 3, 15, 5, 1, 13, 12, 7, 11, 4, 2, 8, 13, 7, 0, 9, 3, 4, 6, 10, 2, 8, 5, 14, 12, 11, 15, 1, 13, 6, 4, 9, 8, 15, 3, 0, 11, 1, 2, 12, 5, 10, 14, 7, 1, 10, 13, 0, 6, 9, 8, 7, 4, 15, 14, 3, 11, 5, 2, 12, 7, 13, 14, 3, 0, 6, 9, 10, 1, 2, 8, 5, 11, 12, 4, 15, 13, 8, 11, 5, 6, 15, 0, 3, 4, 7, 2, 12, 1, 10, 14, 9, 10, 6, 9, 0, 12, 11, 7, 13, 15, 1, 3, 14, 5, 2, 8, 4, 3, 15, 0, 6, 10, 1, 13, 8, 9, 4, 5, 11, 12, 7, 2, 14, 2, 12, 4, 1, 7, 10, 11, 6, 8, 5, 3, 15, 13, 0, 14, 9, 14, 11, 2, 12, 4, 7, 13, 1, 5, 0, 15, 10, 3, 9, 8, 6, 4, 2, 1, 11, 10, 13, 7, 8, 15, 9, 12, 5, 6, 3, 0, 14, 11, 8, 12, 7, 1, 14, 2, 13, 6, 15, 0, 9, 10, 4, 5, 3, 12, 1, 10, 15, 9, 2, 6, 8, 0, 13, 3, 4, 14, 7, 5, 11, 10, 15, 4, 2, 7, 12, 9, 5, 6, 1, 13, 14, 0, 11, 3, 8, 9, 14, 15, 5, 2, 8, 12, 3, 7, 0, 4, 10, 1, 13, 11, 6, 4, 3, 2, 12, 9, 5, 15, 10, 11, 14, 1, 7, 6, 0, 8, 13, 4, 11, 2, 14, 15, 0, 8, 13, 3, 12, 9, 7, 5, 10, 6, 1, 13, 0, 11, 7, 4, 9, 1, 10, 14, 3, 5, 12, 2, 15, 8, 6, 1, 4, 11, 13, 12, 3, 7, 14, 10, 15, 6, 8, 0, 5, 9, 2, 6, 11, 13, 8, 1, 4, 10, 7, 9, 5, 0, 15, 14, 2, 3, 12, 13, 2, 8, 4, 6, 15, 11, 1, 10, 9, 3, 14, 5, 0, 12, 7, 1, 15, 13, 8, 10, 3, 7, 4, 12, 5, 6, 11, 0, 14, 9, 2, 7, 11, 4, 1, 9, 12, 14, 2, 0, 6, 10, 13, 15, 3, 5, 8, 2, 1, 14, 7, 4, 10, 8, 13, 15, 12, 9, 0, 3, 5, 6, 11]
}

fn sbox_table_exec() -> (t: [u8; 512])
    ensures
        t@ == sbox_table(),
{
    let t: [u8; 512] = [14, 4, 13, 1, 2, 15, 11, 8, 3, 10, 6, 12, 5, 9, 0, 7, 0, 15, 7, 4, 14, 2, 13, 1, 10, 6, 12, 11, 9, 5, 3, 8, 4, 1, 14, 8, 13, 6, 2, 11, 15, 12, 9, 7, 3, 10, 5, 0, 15, 12, 8, 2, 4, 9, 1, 7, 5, 11, 3, 14, 10, 0, 6, 13, 15, 1, 8, 14, 6, 11, 3, 4, 9, 7, 2, 13, 12, 0, 5, 10, 3, 13, 4, 7, 15, 2, 8, 14, 12, 0, 1, 10, 6, 9, 11, 5, 0, 14, 7, 11, 10, 4, 13, 1, 5, 8, 12, 6, 9, 3, 2, 15, 13, 8, 10, 1, 3, 15, 4, 2, 11, 6, 7, 12, 0, 5, 14, 9, 10, 0, 9, 14, 6, 3, 15, 5, 1, 13, 12, 7, 11, 4, 2, 8, 13, 7, 0, 9, 3, 4, 6, 10, 2, 8, 5, 14, 12, 11, 15, 1, 13, 6, 4, 9, 8, 15, 3, 0, 11, 1, 2, 12, 5, 10, 14, 7, 1, 10, 13, 0, 6, 9, 8, 7, 4, 15, 14, 3, 11, 5, 2, 12, 7, 13, 14, 3, 0, 6, 9, 10, 1, 2, 8, 5, 11, 12, 4, 15, 13, 8, 11, 5, 6, 15, 0, 3, 4, 7, 2, 12, 1, 10, 14, 9, 10, 6, 9, 0, 12, 11, 7, 13, 15, 1, 3, 14, 5, 2, 8, 4, 3, 15, 0, 6, 10, 1, 13, 8, 9, 4, 5, 11, 12, 7, 2, 14, 2, 12, 4, 1, 7, 10, 11, 6, 8, 5, 3, 15, 13, 0, 14, 9, 14, 11, 2, 12, 4, 7, 13, 1, 5, 0, 15, 10, 3, 9, 8, 6, 4, 2, 1, 11, 10, 13, 7, 8, 15, 9, 12, 5, 6, 3, 0, 14, 11, 8, 12, 7, 1, 14, 2, 13, 6, 15, 0, 9, 10, 4, 5, 3, 12, 1, 10, 15, 9, 2, 6, 8, 0, 13, 3, 4, 14, 7, 5, 11, 10, 15, 4, 2, 7, 12, 9, 5, 6, 1, 13, 14, 0, 11, 3, 8, 9, 14, 15, 5, 2, 8, 12, 3, 7, 0, 4, 10, 1, 13, 11, 6, 4, 3, 2, 12, 9, 5, 15, 10, 11, 14, 1, 7, 6, 0, 8, 13, 4, 11, 2, 14, 15, 0, 8, 13, 3, 12, 9, 7, 5, 10, 6, 1, 13, 0, 11, 7, 4, 9, 1, 10, 14, 3, 5, 12, 2, 15, 8, 6, 1, 4, 11, 13, 12, 3, 7, 14, 10, 15, 6, 8, 0, 5, 9, 2, 6, 11, 13, 8, 1, 4, 10, 7, 9, 5, 0, 15, 14, 2, 3, 12, 13, 2, 8, 4, 6, 15, 11, 1, 10, 9, 3, 14, 5, 0, 12, 7, 1, 15, 13, 8, 10, 3, 7, 4, 12, 5, 6, 11, 0, 14, 9, 2, 7, 11, 4, 1, 9, 12, 14, 2, 0, 6, 10, 13, 15, 3, 5, 8, 2, 1, 14, 7, 4, 10, 8, 13, 15, 12, 9, 0, 3, 5, 6, 11];
    assert(t@ =~= sbox_table());
    t
}

/// Whether every entry of a permutation table names a bit of a 64-bit word.
pub open spec fn table_ok(table: Seq<u8>) -> bool {
    forall|i: int| 0 <= i < table.len() ==> 1 <= #[trigger] table[i] <= 64
}

/// The input moved to the high end of the word when it holds `bits` bits.
pub open spec fn align(input: u64, bits: u8) -> u64 {
    if bits >= 64 { input } else { input << ((64 - bits) as u64) }
}

/// Bit `pos` (counted from 1 at the most significant end) of `w`.
pub open spec fn bit_at(w: u64, pos: u8) -> u64 {
    (w >> ((64 - pos) as u64)) & 1
}

/// The bits that the first `n` table entries select, most significant first.
pub open spec fn permute_n(w: u64, table: Seq<u8>, n: nat) -> u64
    decreases n,
{
    if n == 0 {
        0
    } else {
        (permute_n(w, table, (n - 1) as nat) << 1u64) | bit_at(w, table[n - 1])
    }
}

/// The permutation of an input of `bits` bits by `table`.
pub open spec fn permute(input: u64, table: Seq<u8>, bits: u8) -> u64 {
    permute_n(align(input, bits), table, table.len())
}

/// Rotation of a 28-bit key half left by `s` bits.
pub open spec fn rot28(x: u32, s: u32) -> u32 {
    ((x << s) | (x >> ((28 - s) as u32))) & 0x0fff_ffff
}

/// The key halves after the first `n` rounds' rotations.
pub open spec fn key_halves(key: u64, n: nat) -> (u32, u32)
    decreases n,
{
    if n == 0 {
        let permuted = permute(key, pc1_table(), 64);
        (((permuted >> 28u64) & 0x0fff_ffff) as u32, (permuted & 0x0fff_ffff) as u32)
    } else {
        let (c, d) = key_halves(key, (n - 1) as nat);
        (rot28(c, shift_table()[n - 1]), rot28(d, shift_table()[n - 1]))
    }
}

/// The subkey of round `i` (from 0).
pub open spec fn subkey(key: u64, i: nat) -> u64 {
    let (c, d) = key_halves(key, i + 1);
    permute(((c as u64) << 28u64) | (d as u64), pc2_table(), 56)
}

/// The S-box output for the six-bit group `i` of `x`.
pub open spec fn sbox_out(x: u64, i: nat) -> u32 {
    let chunk = ((x >> ((42 - 6 * i) as u64)) & 0x3f) as u8;
    let row = ((chunk & 0x20) >> 4u8) | (chunk & 0x01);
    let col = (chunk >> 1u8) & 0x0f;
    sbox_table()[64 * i + 16 * row + col] as u32
}

/// The outputs of the first `n` S-boxes, four bits each, first box most significant.
pub open spec fn sboxes_n(x: u64, n: nat) -> u32
    decreases n,
{
    if n == 0 {
        0
    } else {
        (sboxes_n(x, (n - 1) as nat) << 4u32) | sbox_out(x, (n - 1) as nat)
    }
}

/// The round function.
pub open spec fn feistel(r: u32, k: u64) -> u32 {
    let xored = permute(r as u64, e_table(), 32) ^ k;
    permute(sboxes_n(xored, 8) as u64, p_table(), 32) as u32
}

/// The block halves after the first `n` rounds.
pub open spec fn rounds(key: u64, l: u32, r: u32, n: nat) -> (u32, u32)
    decreases n,
{
    if n == 0 {
        (l, r)
    } else {
        let (l1, r1) = rounds(key, l, r, (n - 1) as nat);
        (r1, l1 ^ feistel(r1, subkey(key, (n - 1) as nat)))
    }
}

/// Big-endian 64-bit value of eight bytes.
pub open spec fn u64_of_be(b: Seq<u8>) -> u64 {
    crate::wire::get_be64(b, 0)
}

/// DES encryption of one block under one key.
#[verifier::opaque]
pub open spec fn des(key: Seq<u8>, block: Seq<u8>) -> Seq<u8> {
    let k = u64_of_be(key);
    let ip = permute(u64_of_be(block), ip_table(), 64);
    let (l, r) = rounds(k, (ip >> 32u64) as u32, (ip & 0xffff_ffff) as u32, 16);
    crate::wire::be64(permute(((r as u64) << 32u64) | (l as u64), fp_table(), 64))
}

fn permute_exec(input: u64, table: &[u8], bits: u8) -> (r: u64)
    requires
        table_ok(table@),
        1 <= bits,
    ensures
        r == permute(input, table@, bits),
{
    let aligned = if bits >= 64 { input } else { input << (64 - bits) as u64 };
    let mut out: u64 = 0;
    let mut i: usize = 0;
    while i < table.len()
        invariant
            i <= table@.len(),
            table_ok(table@),
            aligned == align(input, bits),
            out == permute_n(aligned, table@, i as nat),
        decreases table.len() - i,
    {
        let pos = table[i];
        assert(1 <= table@[i as int] <= 64);
        let bit = (aligned >> (64 - pos) as u64) & 1;
        out = (out << 1u64) | bit;
        i = i + 1;
    }
    out
}

/// The sixteen round subkeys of `key`.
fn key_schedule(key: u64) -> (ks: [u64; 16])
    ensures
        forall|i: int| 0 <= i < 16 ==> ks@[i] == subkey(key, i as nat),
{
    let pc1 = pc1_table_exec();
    let pc2 = pc2_table_exec();
    let shifts = shift_table_exec();
    assert(table_ok(pc1@));
    assert(table_ok(pc2@));
    let permuted = permute_exec(key, pc1.as_slice(), 64);
    let mut c = ((permuted >> 28u64) & 0x0fff_ffff) as u32;
    let mut d = (permuted & 0x0fff_ffff) as u32;
    let mut ks: [u64; 16] = [0u64; 16];
    let mut i: usize = 0;
    while i < 16
        invariant
            i <= 16,
            pc2@ == pc2_table(),
            shifts@ == shift_table(),
            table_ok(pc2@),
            (c, d) == key_halves(key, i as nat),
            forall|j: int| 0 <= j < i ==> ks@[j] == subkey(key, j as nat),
        decreases 16 - i,
    {
        let shift = shifts[i];
        assert(1 <= shift_table()[i as int] <= 2);
        c = ((c << shift) | (c >> (28 - shift))) & 0x0fff_ffff;
        d = ((d << shift) | (d >> (28 - shift))) & 0x0fff_ffff;
        let combined = ((c as u64) << 28u64) | d as u64;
        ks[i] = permute_exec(combined, pc2.as_slice(), 56);
        i = i + 1;
    }
    ks
}

fn sboxes_exec(x: u64) -> (r: u32)
    ensures
        r == sboxes_n(x, 8),
{
    let sbox = sbox_table_exec();
    let mut out: u32 = 0;
    let mut i: usize = 0;
    while i < 8
        invariant
            i <= 8,
            sbox@ == sbox_table(),
            out == sboxes_n(x, i as nat),
        decreases 8 - i,
    {
        let shift = (42 - i * 6) as u64;
        let chunk = ((x >> shift) & 0x3f) as u8;
        let row = ((chunk & 0x20) >> 4u8) | (chunk & 0x01);
        let col = (chunk >> 1u8) & 0x0f;
        assert(row < 4 && col < 16) by (bit_vector)
            requires
                row == ((chunk & 0x20) >> 4u8) | (chunk & 0x01),
                col == (chunk >> 1u8) & 0x0f,
        ;
        let s = sbox[64 * i + 16 * (row as usize) + col as usize] as u32;
        out = (out << 4u32) | s;
        i = i + 1;
    }
    out
}

fn feistel_exec(r: u32, k: u64) -> (out: u32)
    ensures
        out == feistel(r, k),
{
    let e = e_table_exec();
    let p = p_table_exec();
    assert(table_ok(e@));
    assert(table_ok(p@));
    let expanded = permute_exec(r as u64, e.as_slice(), 32);
    let xored = expanded ^ k;
    let s = sboxes_exec(xored);
    permute_exec(s as u64, p.as_slice(), 32) as u32
}

fn u64_from_be(b: [u8; 8]) -> (r: u64)
    ensures
        r == u64_of_be(b@),
{
    crate::wire::read_be64(b.as_slice(), 0)
}

/// Encrypts one 8-byte block under an 8-byte key.
pub fn des_encrypt_block(key: [u8; 8], block: [u8; 8]) -> (out: [u8; 8])
    ensures
        out@ == des(key@, block@),
{
    reveal(des);
    let key_u64 = u64_from_be(key);
    let block_u64 = u64_from_be(block);
    let ip = ip_table_exec();
    let fp = fp_table_exec();
    assert(table_ok(ip@));
    assert(table_ok(fp@));
    let permuted_block = permute_exec(block_u64, ip.as_slice(), 64);
    let mut left = (permuted_block >> 32u64) as u32;
    let mut right = (permuted_block & 0xffff_ffff) as u32;
    let subkeys = key_schedule(key_u64);
    let mut i: usize = 0;
    while i < 16
        invariant
            i <= 16,
            forall|j: int| 0 <= j < 16 ==> subkeys@[j] == subkey(key_u64, j as nat),
            (left, right) == rounds(key_u64, (permuted_block >> 32u64) as u32, (permuted_block & 0xffff_ffff) as u32, i as nat),
        decreases 16 - i,
    {
        let next_left = right;
        let next_right = left ^ feistel_exec(right, subkeys[i]);
        left = next_left;
        right = next_right;
        i = i + 1;
    }
    let joined = ((right as u64) << 32u64) | left as u64;
    let final_block = permute_exec(joined, fp.as_slice(), 64);
    let mut v: Vec<u8> = Vec::new();
    crate::wire::push_be64(&mut v, final_block);
    let out = [v[0], v[1], v[2], v[3], v[4], v[5], v[6], v[7]];
    assert(out@ =~= v@);
    out
}

/// Odd parity in the low bit of a key byte whose seven high bits are set.
pub open spec fn with_parity(b: u8) -> u8 {
    let p = (b ^ (b >> 1u8) ^ (b >> 2u8) ^ (b >> 3u8) ^ (b >> 4u8) ^ (b >> 5u8) ^ (b >> 6u8)) & 1;
    if p == 0 { b | 1 } else { b }
}

/// The 8-byte DES key spread from 56 key bits, with odd parity bits.
#[verifier::opaque]
pub open spec fn des_key_of(b: Seq<u8>) -> Seq<u8> {
    seq![
        with_parity(b[0] & 0xfe),
        with_parity(((b[0] << 7u8) | (b[1] >> 1u8)) & 0xfe),
        with_parity(((b[1] << 6u8) | (b[2] >> 2u8)) & 0xfe),
        with_parity(((b[2] << 5u8) | (b[3] >> 3u8)) & 0xfe),
        with_parity(((b[3] << 4u8) | (b[4] >> 4u8)) & 0xfe),
        with_parity(((b[4] << 3u8) | (b[5] >> 5u8)) & 0xfe),
        with_parity(((b[5] << 2u8) | (b[6] >> 6u8)) & 0xfe),
        with_parity((b[6] << 1u8) & 0xfe),
    ]
}

fn parity_fix(b: u8) -> (r: u8)
    ensures
        r == with_parity(b),
{
    let p = (b ^ (b >> 1u8) ^ (b >> 2u8) ^ (b >> 3u8) ^ (b >> 4u8) ^ (b >> 5u8) ^ (b >> 6u8)) & 1;
    if p == 0 { b | 1 } else { b }
}

/// Spreads seven key bytes into a DES key with parity bits.
pub fn des_key_from_7bytes(b: &[u8]) -> (key: [u8; 8])
    requires
        b@.len() >= 7,
    ensures
        key@ == des_key_of(b@),
{
    let key = [
        parity_fix(b[0] & 0xfe),
        parity_fix(((b[0] << 7u8) | (b[1] >> 1u8)) & 0xfe),
        parity_fix(((b[1] << 6u8) | (b[2] >> 2u8)) & 0xfe),
        parity_fix(((b[2] << 5u8) | (b[3] >> 3u8)) & 0xfe),
        parity_fix(((b[3] << 4u8) | (b[4] >> 4u8)) & 0xfe),
        parity_fix(((b[4] << 3u8) | (b[5] >> 5u8)) & 0xfe),
        parity_fix(((b[5] << 2u8) | (b[6] >> 6u8)) & 0xfe),
        parity_fix((b[6] << 1u8) & 0xfe),
    ];
    reveal(des_key_of);
    assert(key@ =~= des_key_of(b@));
    key
}

} // verus!
