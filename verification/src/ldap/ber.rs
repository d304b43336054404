//! The subset of BER that LDAP uses: tag, definite length, content; integers,
//! booleans and octet strings.
use vstd::prelude::*;
use crate::error::{ProtoError, ProtoResult};
use crate::wire::{copy_range, push_bytes};

verus! {

/// The largest element the decoder accepts.
pub const MAX_BER_MESSAGE_SIZE: usize = 8388608;

pub const TAG_SEQUENCE: u8 = 0x30;
pub const TAG_SET: u8 = 0x31;
pub const TAG_INTEGER: u8 = 0x02;
pub const TAG_ENUM: u8 = 0x0a;
pub const TAG_BOOLEAN: u8 = 0x01;
pub const TAG_OCTET_STRING: u8 = 0x04;

/// One decoded element: its tag and its content.
#[derive(Debug, Clone, PartialEq, Eq)]
pub struct BerElement {
    pub tag: u8,
    pub content: Vec<u8>,
}

/// `256` to the power `n`.
pub open spec fn pow256(n: nat) -> nat
    decreases n,
{
    if n == 0 {
        1
    } else {
        256 * pow256((n - 1) as nat)
    }
}

/// The unsigned big-endian value of `b`.
pub open spec fn be_value(b: Seq<u8>) -> nat
    decreases b.len(),
{
    if b.len() == 0 {
        0
    } else {
        be_value(b.drop_last()) * 256 + b.last() as nat
    }
}

/// The element that follows a length of `len` content bytes starting at `q`.
pub open spec fn ber_body(d: Seq<u8>, tag: u8, len: int, q: int) -> Option<(u8, Seq<u8>, int)> {
    if len > MAX_BER_MESSAGE_SIZE as int || d.len() - q < len {
        None
    } else {
        Some((tag, d.subrange(q, q + len), q + len))
    }
}

/// The element at `pos`: its tag, content and the position after it; `None` when the
/// bytes there do not hold a whole element of definite length (of at most eight
/// length bytes and at most `MAX_BER_MESSAGE_SIZE` content bytes).
pub open spec fn ber_read(d: Seq<u8>, pos: int) -> Option<(u8, Seq<u8>, int)> {
    if pos < 0 || d.len() - pos < 2 {
        None
    } else {
        let tag = d[pos];
        let lb = d[pos + 1];
        if lb < 128 {
            ber_body(d, tag, lb as int, pos + 2)
        } else {
            let n = lb - 128;
            if n == 0 || n > 8 || d.len() - (pos + 2) < n {
                None
            } else {
                ber_body(d, tag, be_value(d.subrange(pos + 2, pos + 2 + n)) as int, pos + 2 + n)
            }
        }
    }
}

/// The shortest big-endian bytes of `n` (none for zero).
pub open spec fn be_min(n: nat) -> Seq<u8>
    decreases n,
{
    if n == 0 {
        Seq::empty()
    } else {
        be_min(n / 256).push((n % 256) as u8)
    }
}

/// The definite length octets for `n`: short form below 128, else long form.
pub open spec fn ber_len(n: nat) -> Seq<u8> {
    if n < 128 {
        seq![n as u8]
    } else {
        seq![(128 + be_min(n).len()) as u8] + be_min(n)
    }
}

/// An element: tag, length, content.
pub open spec fn tlv(tag: u8, c: Seq<u8>) -> Seq<u8> {
    seq![tag] + ber_len(c.len()) + c
}

/// The shortest two's complement big-endian bytes of `v` (at least one).
pub open spec fn int_min(v: int) -> Seq<u8>
    decreases (if v < 0 { -v } else { v }),
{
    if -128 <= v < 128 {
        seq![(if v < 0 { v + 256 } else { v }) as u8]
    } else {
        int_min(v / 256).push((v % 256) as u8)
    }
}

/// The two's complement value of big-endian bytes.
pub open spec fn signed_be(b: Seq<u8>) -> int {
    if b.len() > 0 && b[0] >= 128 {
        be_value(b) - pow256(b.len())
    } else {
        be_value(b) as int
    }
}

/// The value a decoder that shifts each byte into a 64-bit register gives:
/// the two's complement value of the last eight bytes at most.
pub open spec fn ber_int_decode(c: Seq<u8>) -> Option<i64> {
    if c.len() == 0 {
        None
    } else {
        let k = if c.len() < 8 { c.len() } else { 8 };
        Some(signed_be(c.subrange(c.len() - k, c.len() as int)) as i64)
    }
}

pub(crate) proof fn lemma_be_value_bound(b: Seq<u8>)
    ensures
        be_value(b) < pow256(b.len()),
    decreases b.len(),
{
    if b.len() > 0 {
        lemma_be_value_bound(b.drop_last());
        assert(be_value(b.drop_last()) * 256 + b.last() < pow256(b.len())) by (nonlinear_arith)
            requires
                be_value(b.drop_last()) < pow256(b.drop_last().len()),
                pow256(b.len()) == 256 * pow256(b.drop_last().len()),
                b.last() < 256,
        ;
    }
}

proof fn lemma_be_value_prefix(b: Seq<u8>, k: nat)
    requires
        k <= b.len(),
    ensures
        be_value(b.subrange(0, k as int)) <= be_value(b),
    decreases b.len() - k,
{
    if k < b.len() {
        lemma_be_value_prefix(b, k + 1);
        assert(b.subrange(0, (k + 1) as int).drop_last() == b.subrange(0, k as int));
    } else {
        assert(b.subrange(0, k as int) =~= b);
    }
}

/// Reads the element at `pos`.
pub fn read_element(data: &[u8], pos: usize) -> (r: ProtoResult<(BerElement, usize)>)
    requires
        pos <= data.len(),
    ensures
        match r {
            Ok((e, q)) => ber_read(data@, pos as int) == Some((e.tag, e.content@, q as int)),
            Err(x) => ber_read(data@, pos as int) is None && x is Parse,
        },
{
    if data.len() - pos < 2 {
        return Err(ProtoError::Parse("unexpected end"));
    }
    let tag = data[pos];
    let lb = data[pos + 1];
    let mut q: usize = pos + 2;
    let mut len: usize = lb as usize;
    if lb >= 128 {
        let n = (lb - 128) as usize;
        if n == 0 {
            return Err(ProtoError::Parse("indefinite length not supported"));
        }
        if n > 8 || data.len() - q < n {
            return Err(ProtoError::Parse("invalid length"));
        }
        let start = q;
        let mut value: u64 = 0;
        while q < start + n
            invariant
                start == pos + 2,
                start <= q <= start + n <= data.len(),
                n == lb - 128,
                lb == data@[pos + 1],
                1 <= n <= 8,
                value == be_value(data@.subrange(start as int, q as int)),
                value <= MAX_BER_MESSAGE_SIZE,
            decreases start + n - q,
        {
            assert(data@.subrange(start as int, q + 1).drop_last() == data@.subrange(start as int, q as int));
            value = value * 256 + data[q] as u64;
            q = q + 1;
            if value > MAX_BER_MESSAGE_SIZE as u64 {
                proof {
                    let all = data@.subrange(start as int, (start + n) as int);
                    assert(value == be_value(data@.subrange(start as int, q as int)));
                    assert(all.subrange(0, (q - start) as int) =~= data@.subrange(start as int, q as int));
                    lemma_be_value_prefix(all, (q - start) as nat);
                    assert(be_value(all) > MAX_BER_MESSAGE_SIZE);
                    assert(n == lb - 128);
                }
                return Err(ProtoError::Parse("invalid length"));
            }
        }
        len = value as usize;
    }
    if len > MAX_BER_MESSAGE_SIZE || data.len() - q < len {
        return Err(ProtoError::Parse("invalid length"));
    }
    let content = copy_range(data, q, len);
    Ok((BerElement { tag, content }, q + len))
}

proof fn lemma_be_min_len(n: nat, k: nat)
    requires
        n < pow256(k),
    ensures
        be_min(n).len() <= k,
    decreases k,
{
    if n > 0 && k > 0 {
        assert(n / 256 < pow256((k - 1) as nat)) by (nonlinear_arith)
            requires
                n < pow256(k),
                pow256(k) == 256 * pow256((k - 1) as nat),
        ;
        lemma_be_min_len(n / 256, (k - 1) as nat);
    }
}

fn push_be_min(out: &mut Vec<u8>, n: u64)
    ensures
        final(out)@ == old(out)@ + be_min(n as nat),
    decreases n,
{
    let ghost start = out@;
    if n > 0 {
        push_be_min(out, n / 256);
        out.push((n % 256) as u8);
    }
    assert(out@ =~= start + be_min(n as nat));
}

/// Appends the length octets for `n`.
pub fn push_length(out: &mut Vec<u8>, n: usize)
    ensures
        final(out)@ == old(out)@ + ber_len(n as nat),
{
    let ghost start = out@;
    if n < 128 {
        out.push(n as u8);
    } else {
        proof {
            lemma_pow256_values();
            lemma_be_min_len(n as nat, 8);
        }
        let mut bytes: Vec<u8> = Vec::new();
        push_be_min(&mut bytes, n as u64);
        assert(bytes@ =~= be_min(n as nat));
        out.push((128 + bytes.len()) as u8);
        push_bytes(out, bytes.as_slice());
    }
    assert(out@ =~= start + ber_len(n as nat));
}

/// The length octets for `n`.
pub fn encode_length(n: usize) -> (r: Vec<u8>)
    ensures
        r@ == ber_len(n as nat),
{
    let mut out: Vec<u8> = Vec::new();
    push_length(&mut out, n);
    assert(out@ =~= ber_len(n as nat));
    out
}

/// Appends an element with the given tag and content.
pub fn push_tagged(out: &mut Vec<u8>, tag: u8, content: &[u8])
    ensures
        final(out)@ == old(out)@ + tlv(tag, content@),
{
    let ghost start = out@;
    out.push(tag);
    push_length(out, content.len());
    push_bytes(out, content);
    assert(out@ =~= start + tlv(tag, content@));
}

/// An element with the given tag and content.
pub fn encode_tagged(tag: u8, content: &[u8]) -> (r: Vec<u8>)
    ensures
        r@ == tlv(tag, content@),
{
    let mut out: Vec<u8> = Vec::new();
    push_tagged(&mut out, tag, content);
    assert(out@ =~= tlv(tag, content@));
    out
}

fn push_int_min(out: &mut Vec<u8>, v: i128)
    requires
        i64::MIN <= v <= i64::MAX,
    ensures
        final(out)@ == old(out)@ + int_min(v as int),
    decreases (if v < 0 { -v } else { v as int }),
{
    let ghost start = out@;
    if -128 <= v && v < 128 {
        out.push((if v < 0 { v + 256 } else { v }) as u8);
    } else {
        let q: i128 = if v >= 0 { v / 256 } else { -((-v + 255) / 256) };
        let r: i128 = v - q * 256;
        assert(q == v / 256 && r == v % 256) by (nonlinear_arith)
            requires
                q == (if v >= 0 { v / 256 } else { -((-v + 255) / 256) }),
                r == v - q * 256,
        ;
        push_int_min(out, q);
        out.push(r as u8);
    }
    assert(out@ =~= start + int_min(v as int));
}

/// The content octets of an INTEGER: the shortest two's complement form.
pub fn encode_integer_content(v: i64) -> (r: Vec<u8>)
    ensures
        r@ == int_min(v as int),
{
    let mut out: Vec<u8> = Vec::new();
    push_int_min(&mut out, v as i128);
    assert(out@ =~= int_min(v as int));
    out
}

/// Decodes INTEGER content as a 64-bit register that each byte is shifted into.
pub fn decode_integer_content(c: &[u8]) -> (r: ProtoResult<i64>)
    ensures
        match r {
            Ok(v) => ber_int_decode(c@) == Some(v),
            Err(e) => ber_int_decode(c@) is None && e is Parse,
        },
{
    if c.len() == 0 {
        return Err(ProtoError::Parse("invalid integer"));
    }
    let k: usize = if c.len() < 8 { c.len() } else { 8 };
    let start = c.len() - k;
    let ghost t = c@.subrange(start as int, c@.len() as int);
    let mut value: u64 = 0;
    let mut i: usize = start;
    while i < c.len()
        invariant
            start <= i <= c.len(),
            c.len() - start <= 8,
            value == be_value(c@.subrange(start as int, i as int)),
        decreases c.len() - i,
    {
        proof {
            assert(c@.subrange(start as int, i + 1).drop_last() == c@.subrange(start as int, i as int));
            lemma_be_value_bound(c@.subrange(start as int, i as int));
            lemma_pow256_mono((i - start) as nat, 7);
            lemma_pow256_values();
        }
        value = value * 256 + c[i] as u64;
        i = i + 1;
    }
    assert(c@.subrange(start as int, i as int) == t);
    proof {
        lemma_pow_bits(k as nat);
    }
    let p = 1i128 << (8 * k as u32);
    assert(p == pow256(k as nat));
    let result: i128 = if c[start] >= 128 {
        (value as i128) - p
    } else {
        value as i128
    };
    proof {
        lemma_be_value_bound(t);
        lemma_pow256_mono(k as nat, 8);
        lemma_pow256_values();
        assert(t[0] == c@[start as int]);
    }
    assert(t.len() == k);
    assert(value < 0x1_0000_0000_0000_0000);
    assert(pow256(k as nat) <= 0x1_0000_0000_0000_0000);
    assert(result < 0x1_0000_0000_0000_0000);
    if c[start] >= 128 {
        assert(signed_be(t) == result);
    }
    Ok(truncate_i64(result))
}

fn truncate_i64(v: i128) -> (r: i64)
    requires
        -0x1_0000_0000_0000_0000 <= v < 0x1_0000_0000_0000_0000,
    ensures
        r == v as i64,
{
    if v > i64::MAX as i128 {
        let w = v - 0x1_0000_0000_0000_0000i128;
        assert(w as i64 == v as i64) by (bit_vector)
            requires
                w == v - 0x1_0000_0000_0000_0000i128,
                v > 0x7fff_ffff_ffff_ffffi128,
                v < 0x1_0000_0000_0000_0000i128,
        ;
        w as i64
    } else if v < i64::MIN as i128 {
        let w = v + 0x1_0000_0000_0000_0000i128;
        assert(w as i64 == v as i64) by (bit_vector)
            requires
                w == v + 0x1_0000_0000_0000_0000i128,
                v < -0x8000_0000_0000_0000i128,
                v >= -0x1_0000_0000_0000_0000i128,
        ;
        w as i64
    } else {
        v as i64
    }
}

pub(crate) proof fn lemma_pow256_mono(a: nat, b: nat)
    requires
        a <= b,
    ensures
        pow256(a) <= pow256(b),
    decreases b,
{
    if a < b {
        lemma_pow256_mono(a, (b - 1) as nat);
    }
}

pub(crate) proof fn lemma_pow256_values()
    ensures
        pow256(1) == 0x100,
        pow256(2) == 0x1_0000,
        pow256(3) == 0x100_0000,
        pow256(4) == 0x1_0000_0000,
        pow256(5) == 0x100_0000_0000,
        pow256(6) == 0x1_0000_0000_0000,
        pow256(7) == 0x100_0000_0000_0000,
        pow256(8) == 0x1_0000_0000_0000_0000,
{
    reveal_with_fuel(pow256, 9);
}

proof fn lemma_pow_bits(k: nat)
    requires
        1 <= k <= 8,
    ensures
        (1i128 << (8 * k as u32)) == pow256(k),
{
    lemma_pow256_values();
    assert((1i128 << 8u32) == 0x100) by (bit_vector);
    assert((1i128 << 16u32) == 0x1_0000) by (bit_vector);
    assert((1i128 << 24u32) == 0x100_0000) by (bit_vector);
    assert((1i128 << 32u32) == 0x1_0000_0000) by (bit_vector);
    assert((1i128 << 40u32) == 0x100_0000_0000) by (bit_vector);
    assert((1i128 << 48u32) == 0x1_0000_0000_0000) by (bit_vector);
    assert((1i128 << 56u32) == 0x100_0000_0000_0000) by (bit_vector);
    assert((1i128 << 64u32) == 0x1_0000_0000_0000_0000) by (bit_vector);
}

/// Decodes BOOLEAN content: one byte, true unless zero.
pub fn decode_boolean_content(c: &[u8]) -> (r: ProtoResult<bool>)
    ensures
        match r {
            Ok(b) => c@.len() == 1 && b == (c@[0] != 0),
            Err(e) => c@.len() != 1 && e is Parse,
        },
{
    if c.len() != 1 {
        return Err(ProtoError::Parse("invalid boolean"));
    }
    Ok(c[0] != 0)
}

proof fn lemma_be_min_value(n: nat)
    ensures
        be_value(be_min(n)) == n,
        n > 0 ==> be_min(n).len() > 0,
    decreases n,
{
    if n > 0 {
        lemma_be_min_value(n / 256);
        assert(be_min(n).drop_last() == be_min(n / 256));
    }
}

/// Reading an element back, wherever it stands, gives its tag and content and the
/// position after it.
pub proof fn lemma_tlv_roundtrip(pre: Seq<u8>, tag: u8, c: Seq<u8>, post: Seq<u8>)
    requires
        c.len() <= MAX_BER_MESSAGE_SIZE,
    ensures
        ber_read(pre + tlv(tag, c) + post, pre.len() as int) == Some(
            (tag, c, (pre.len() + tlv(tag, c).len()) as int),
        ),
{
    let d = pre + tlv(tag, c) + post;
    let p = pre.len() as int;
    let n = c.len();
    let hdr = seq![tag] + ber_len(n);
    assert(tlv(tag, c) == hdr + c);
    assert(d[p] == tag);
    if n < 128 {
        assert(d[p + 1] == n as u8);
        assert(d.subrange(p + 2, p + 2 + n) =~= c);
    } else {
        lemma_be_min_value(n);
        lemma_pow256_values();
        lemma_be_min_len(n, 8);
        let k = be_min(n).len();
        assert(d[p + 1] == (128 + k) as u8);
        assert(d.subrange(p + 2, p + 2 + k) =~= be_min(n));
        assert(d.subrange(p + 2 + k, p + 2 + k + n) =~= c);
    }
}

proof fn lemma_signed_push(s: Seq<u8>, r: u8)
    requires
        s.len() > 0,
    ensures
        signed_be(s.push(r)) == 256 * signed_be(s) + r,
{
    assert(s.push(r).drop_last() == s);
    assert(s.push(r)[0] == s[0]);
    assert(pow256(s.len() + 1) == 256 * pow256(s.len()));
}

proof fn lemma_int_min(v: int, j: nat)
    requires
        j >= 1,
        -pow256(j) <= 2 * v < pow256(j),
    ensures
        signed_be(int_min(v)) == v,
        1 <= int_min(v).len() <= j,
    decreases j,
{
    if -128 <= v < 128 {
        let b = int_min(v);
        assert(b.drop_last() =~= Seq::<u8>::empty());
        reveal_with_fuel(pow256, 2);
        reveal_with_fuel(be_value, 2);
    } else {
        let q = v / 256;
        let r = v % 256;
        assert(j >= 2) by {
            if j == 1 {
                reveal_with_fuel(pow256, 2);
            }
        }
        assert(v == 256 * q + r && 0 <= r < 256);
        let pp = pow256((j - 1) as nat);
        assert(-(256 * pp) <= 2 * v < 256 * pp);
        assert(-pp <= 2 * q < pp);
        lemma_int_min(q, (j - 1) as nat);
        lemma_signed_push(int_min(q), r as u8);
        assert(v == 256 * q + r);
    }
}

/// Decoding the content of an encoded INTEGER gives the value back.
pub proof fn lemma_integer_roundtrip(v: i64)
    ensures
        ber_int_decode(int_min(v as int)) == Some(v),
{
    lemma_pow256_values();
    lemma_int_min(v as int, 8);
    let c = int_min(v as int);
    let k = c.len();
    assert(c.subrange(c.len() - k, c.len() as int) =~= c);
}

impl BerElement {
    /// Decodes `data` as exactly one element; trailing bytes are an error.
    pub fn decode(data: &[u8]) -> (r: ProtoResult<BerElement>)
        ensures
            match r {
                Ok(e) => ber_read(data@, 0) == Some((e.tag, e.content@, data@.len() as int)),
                Err(x) => x is Parse && match ber_read(data@, 0) {
                    None => true,
                    Some((_, _, q)) => q != data@.len(),
                },
            },
    {
        let (element, q) = read_element(data, 0)?;
        if q != data.len() {
            return Err(ProtoError::Parse("unexpected trailing data"));
        }
        Ok(element)
    }
}

/// An INTEGER element.
pub fn encode_integer(v: i64) -> (r: Vec<u8>)
    ensures
        r@ == tlv(TAG_INTEGER, int_min(v as int)),
{
    let c = encode_integer_content(v);
    encode_tagged(TAG_INTEGER, c.as_slice())
}

/// The concatenation of byte strings.
pub open spec fn concat_all(parts: Seq<Seq<u8>>) -> Seq<u8>
    decreases parts.len(),
{
    if parts.len() == 0 {
        Seq::empty()
    } else {
        concat_all(parts.drop_last()) + parts.last()
    }
}

/// A SEQUENCE whose content is the given encoded elements, one after another.
pub fn encode_sequence(elements: &[Vec<u8>]) -> (r: Vec<u8>)
    ensures
        r@ == tlv(TAG_SEQUENCE, concat_all(elements@.map_values(|e: Vec<u8>| e@))),
{
    let ghost parts = elements@.map_values(|e: Vec<u8>| e@);
    let mut content: Vec<u8> = Vec::new();
    let mut i: usize = 0;
    while i < elements.len()
        invariant
            i <= elements.len(),
            parts == elements@.map_values(|e: Vec<u8>| e@),
            content@ == concat_all(parts.subrange(0, i as int)),
        decreases elements.len() - i,
    {
        push_bytes(&mut content, elements[i].as_slice());
        proof {
            assert(parts.subrange(0, i + 1).drop_last() =~= parts.subrange(0, i as int));
        }
        i = i + 1;
    }
    assert(parts.subrange(0, i as int) =~= parts);
    encode_tagged(TAG_SEQUENCE, content.as_slice())
}

} // verus!