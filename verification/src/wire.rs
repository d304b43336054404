//! Fixed-width integers on the wire: their byte images and the helpers that
//! read and write them.
use vstd::prelude::*;

verus! {

/// Little-endian image of a 16-bit value.
pub open spec fn le16(v: u16) -> Seq<u8> {
    seq![(v % 256) as u8, (v / 256) as u8]
}

/// Big-endian image of a 16-bit value.
pub open spec fn be16(v: u16) -> Seq<u8> {
    seq![(v / 256) as u8, (v % 256) as u8]
}

/// Little-endian image of a 32-bit value.
pub open spec fn le32(v: u32) -> Seq<u8> {
    seq![(v % 256) as u8, ((v / 256) % 256) as u8, ((v / 65536) % 256) as u8, (v / 16777216) as u8]
}

/// Big-endian image of a 32-bit value.
pub open spec fn be32(v: u32) -> Seq<u8> {
    seq![(v / 16777216) as u8, ((v / 65536) % 256) as u8, ((v / 256) % 256) as u8, (v % 256) as u8]
}

/// Little-endian image of a 64-bit value.
pub open spec fn le64(v: u64) -> Seq<u8> {
    le32((v % 0x1_0000_0000) as u32) + le32((v / 0x1_0000_0000) as u32)
}

/// Big-endian image of a 64-bit value.
pub open spec fn be64(v: u64) -> Seq<u8> {
    be32((v / 0x1_0000_0000) as u32) + be32((v % 0x1_0000_0000) as u32)
}

/// The 16-bit value stored little-endian at `i`.
pub open spec fn get_le16(s: Seq<u8>, i: int) -> u16 {
    (s[i] + 256 * s[i + 1]) as u16
}

/// The 16-bit value stored big-endian at `i`.
pub open spec fn get_be16(s: Seq<u8>, i: int) -> u16 {
    (256 * s[i] + s[i + 1]) as u16
}

/// The 32-bit value stored little-endian at `i`.
pub open spec fn get_le32(s: Seq<u8>, i: int) -> u32 {
    (s[i] + 256 * s[i + 1] + 65536 * s[i + 2] + 16777216 * s[i + 3]) as u32
}

/// The 32-bit value stored big-endian at `i`.
pub open spec fn get_be32(s: Seq<u8>, i: int) -> u32 {
    (16777216 * s[i] + 65536 * s[i + 1] + 256 * s[i + 2] + s[i + 3]) as u32
}

/// The 64-bit value stored little-endian at `i`.
pub open spec fn get_le64(s: Seq<u8>, i: int) -> u64 {
    (get_le32(s, i) + 0x1_0000_0000 * get_le32(s, i + 4)) as u64
}

/// The 64-bit value stored big-endian at `i`.
pub open spec fn get_be64(s: Seq<u8>, i: int) -> u64 {
    (0x1_0000_0000 * get_be32(s, i) + get_be32(s, i + 4)) as u64
}

/// Reading back any fixed-width image gives the value that was written, wherever it stands.
pub proof fn lemma_fixed_width_roundtrip(pre: Seq<u8>, post: Seq<u8>, a: u16, b: u32, c: u64)
    ensures
        get_le16(pre + le16(a) + post, pre.len() as int) == a,
        get_be16(pre + be16(a) + post, pre.len() as int) == a,
        get_le32(pre + le32(b) + post, pre.len() as int) == b,
        get_be32(pre + be32(b) + post, pre.len() as int) == b,
        get_le64(pre + le64(c) + post, pre.len() as int) == c,
        get_be64(pre + be64(c) + post, pre.len() as int) == c,
{
    lemma_u16_at(pre, post, a);
    lemma_u32_at(pre, post, b);
    lemma_u64_at(pre, post, c);
}

proof fn lemma_u16_at(pre: Seq<u8>, post: Seq<u8>, a: u16)
    ensures
        get_le16(pre + le16(a) + post, pre.len() as int) == a,
        get_be16(pre + be16(a) + post, pre.len() as int) == a,
{
    let n = pre.len() as int;
    let s = pre + le16(a) + post;
    assert(s[n] == le16(a)[0] && s[n + 1] == le16(a)[1]);
    let s = pre + be16(a) + post;
    assert(s[n] == be16(a)[0] && s[n + 1] == be16(a)[1]);
}

proof fn lemma_u64_at(pre: Seq<u8>, post: Seq<u8>, c: u64)
    ensures
        get_le64(pre + le64(c) + post, pre.len() as int) == c,
        get_be64(pre + be64(c) + post, pre.len() as int) == c,
{
    let lo = (c % 0x1_0000_0000) as u32;
    let hi = (c / 0x1_0000_0000) as u32;
    assert(pre + le64(c) + post =~= (pre + le32(lo)) + le32(hi) + post);
    assert(pre + le64(c) + post =~= pre + le32(lo) + (le32(hi) + post));
    lemma_u32_at(pre, le32(hi) + post, lo);
    lemma_u32_at(pre + le32(lo), post, hi);
    assert(pre + be64(c) + post =~= (pre + be32(hi)) + be32(lo) + post);
    assert(pre + be64(c) + post =~= pre + be32(hi) + (be32(lo) + post));
    lemma_u32_at(pre, be32(lo) + post, hi);
    lemma_u32_at(pre + be32(hi), post, lo);
}

proof fn lemma_u32_at(pre: Seq<u8>, post: Seq<u8>, b: u32)
    ensures
        get_le32(pre + le32(b) + post, pre.len() as int) == b,
        get_be32(pre + be32(b) + post, pre.len() as int) == b,
{
    let n = pre.len() as int;
    let s = pre + le32(b) + post;
    assert(s[n] == le32(b)[0] && s[n + 1] == le32(b)[1] && s[n + 2] == le32(b)[2] && s[n + 3] == le32(b)[3]);
    let s = pre + be32(b) + post;
    assert(s[n] == be32(b)[0] && s[n + 1] == be32(b)[1] && s[n + 2] == be32(b)[2] && s[n + 3] == be32(b)[3]);
}

/// Reading a fixed-width value where its image stands gives the value back.
pub proof fn lemma_read_at(s: Seq<u8>, i: int)
    requires
        0 <= i,
    ensures
        i + 2 <= s.len() ==> (forall|a: u16| s.subrange(i, i + 2) == le16(a) ==> get_le16(s, i) == a),
        i + 2 <= s.len() ==> (forall|a: u16| s.subrange(i, i + 2) == be16(a) ==> get_be16(s, i) == a),
        i + 4 <= s.len() ==> (forall|b: u32| s.subrange(i, i + 4) == le32(b) ==> get_le32(s, i) == b),
        i + 4 <= s.len() ==> (forall|b: u32| s.subrange(i, i + 4) == be32(b) ==> get_be32(s, i) == b),
        i + 8 <= s.len() ==> (forall|c: u64| s.subrange(i, i + 8) == le64(c) ==> get_le64(s, i) == c),
        i + 8 <= s.len() ==> (forall|c: u64| s.subrange(i, i + 8) == be64(c) ==> get_be64(s, i) == c),
{
    if i + 2 <= s.len() {
        assert(s =~= s.subrange(0, i) + s.subrange(i, i + 2) + s.subrange(i + 2, s.len() as int));
        assert forall|a: u16| s.subrange(i, i + 2) == le16(a) implies get_le16(s, i) == a by {
            lemma_u16_at(s.subrange(0, i), s.subrange(i + 2, s.len() as int), a);
        }
        assert forall|a: u16| s.subrange(i, i + 2) == be16(a) implies get_be16(s, i) == a by {
            lemma_u16_at(s.subrange(0, i), s.subrange(i + 2, s.len() as int), a);
        }
    }
    if i + 4 <= s.len() {
        assert(s =~= s.subrange(0, i) + s.subrange(i, i + 4) + s.subrange(i + 4, s.len() as int));
        assert forall|b: u32| s.subrange(i, i + 4) == le32(b) implies get_le32(s, i) == b by {
            lemma_u32_at(s.subrange(0, i), s.subrange(i + 4, s.len() as int), b);
        }
        assert forall|b: u32| s.subrange(i, i + 4) == be32(b) implies get_be32(s, i) == b by {
            lemma_u32_at(s.subrange(0, i), s.subrange(i + 4, s.len() as int), b);
        }
    }
    if i + 8 <= s.len() {
        assert(s =~= s.subrange(0, i) + s.subrange(i, i + 8) + s.subrange(i + 8, s.len() as int));
        assert forall|c: u64| s.subrange(i, i + 8) == le64(c) implies get_le64(s, i) == c by {
            lemma_u64_at(s.subrange(0, i), s.subrange(i + 8, s.len() as int), c);
        }
        assert forall|c: u64| s.subrange(i, i + 8) == be64(c) implies get_be64(s, i) == c by {
            lemma_u64_at(s.subrange(0, i), s.subrange(i + 8, s.len() as int), c);
        }
    }
}

/// Appends the bytes of `data`.
pub fn push_bytes(out: &mut Vec<u8>, data: &[u8])
    ensures
        final(out)@ == old(out)@ + data@,
{
    let ghost start = out@;
    let mut i: usize = 0;
    while i < data.len()
        invariant
            i <= data.len(),
            out@ == start + data@.subrange(0, i as int),
        decreases data.len() - i,
    {
        out.push(data[i]);
        i = i + 1;
        assert(data@.subrange(0, i as int) == data@.subrange(0, i - 1) + seq![data@[i - 1]]);
    }
    assert(data@.subrange(0, data.len() as int) == data@);
}

/// Appends a 16-bit value, little-endian.
pub fn push_le16(out: &mut Vec<u8>, v: u16)
    ensures
        final(out)@ == old(out)@ + le16(v),
{
    out.push((v % 256) as u8);
    out.push((v / 256) as u8);
}

/// Appends a 16-bit value, big-endian.
pub fn push_be16(out: &mut Vec<u8>, v: u16)
    ensures
        final(out)@ == old(out)@ + be16(v),
{
    out.push((v / 256) as u8);
    out.push((v % 256) as u8);
}

/// Appends a 32-bit value, little-endian.
pub fn push_le32(out: &mut Vec<u8>, v: u32)
    ensures
        final(out)@ == old(out)@ + le32(v),
{
    out.push((v % 256) as u8);
    out.push(((v / 256) % 256) as u8);
    out.push(((v / 65536) % 256) as u8);
    out.push((v / 16777216) as u8);
}

/// Appends a 32-bit value, big-endian.
pub fn push_be32(out: &mut Vec<u8>, v: u32)
    ensures
        final(out)@ == old(out)@ + be32(v),
{
    out.push((v / 16777216) as u8);
    out.push(((v / 65536) % 256) as u8);
    out.push(((v / 256) % 256) as u8);
    out.push((v % 256) as u8);
}

/// Appends a 64-bit value, little-endian.
pub fn push_le64(out: &mut Vec<u8>, v: u64)
    ensures
        final(out)@ == old(out)@ + le64(v),
{
    let ghost start = out@;
    push_le32(out, (v % 0x1_0000_0000) as u32);
    push_le32(out, (v / 0x1_0000_0000) as u32);
    assert(out@ == start + le64(v));
}

/// Appends a 64-bit value, big-endian.
pub fn push_be64(out: &mut Vec<u8>, v: u64)
    ensures
        final(out)@ == old(out)@ + be64(v),
{
    let ghost start = out@;
    push_be32(out, (v / 0x1_0000_0000) as u32);
    push_be32(out, (v % 0x1_0000_0000) as u32);
    assert(out@ == start + be64(v));
}

/// Reads a little-endian 16-bit value at `i`.
pub fn read_le16(data: &[u8], i: usize) -> (r: u16)
    requires
        i + 2 <= data@.len(),
    ensures
        r == get_le16(data@, i as int),
{
    (data[i] as u16) + 256 * (data[i + 1] as u16)
}

/// Reads a big-endian 16-bit value at `i`.
pub fn read_be16(data: &[u8], i: usize) -> (r: u16)
    requires
        i + 2 <= data@.len(),
    ensures
        r == get_be16(data@, i as int),
{
    256 * (data[i] as u16) + (data[i + 1] as u16)
}

/// Reads a little-endian 32-bit value at `i`.
pub fn read_le32(data: &[u8], i: usize) -> (r: u32)
    requires
        i + 4 <= data@.len(),
    ensures
        r == get_le32(data@, i as int),
{
    (data[i] as u32) + 256 * (data[i + 1] as u32) + 65536 * (data[i + 2] as u32) + 16777216 * (
    data[i + 3] as u32)
}

/// Reads a big-endian 32-bit value at `i`.
pub fn read_be32(data: &[u8], i: usize) -> (r: u32)
    requires
        i + 4 <= data@.len(),
    ensures
        r == get_be32(data@, i as int),
{
    16777216 * (data[i] as u32) + 65536 * (data[i + 1] as u32) + 256 * (data[i + 2] as u32) + (
    data[i + 3] as u32)
}

/// Reads a little-endian 64-bit value at `i`.
pub fn read_le64(data: &[u8], i: usize) -> (r: u64)
    requires
        i + 8 <= data.len(),
    ensures
        r == get_le64(data@, i as int),
{
    let lo = read_le32(data, i) as u64;
    let hi = read_le32(data, i + 4) as u64;
    lo + 0x1_0000_0000 * hi
}

/// Reads a big-endian 64-bit value at `i`.
pub fn read_be64(data: &[u8], i: usize) -> (r: u64)
    requires
        i + 8 <= data.len(),
    ensures
        r == get_be64(data@, i as int),
{
    let hi = read_be32(data, i) as u64;
    let lo = read_be32(data, i + 4) as u64;
    0x1_0000_0000 * hi + lo
}

/// Copies `len` bytes starting at `start`.
pub fn copy_range(data: &[u8], start: usize, len: usize) -> (r: Vec<u8>)
    requires
        start + len <= data.len(),
    ensures
        r@ == data@.subrange(start as int, start + len),
{
    let mut out: Vec<u8> = Vec::new();
    push_bytes(&mut out, &data[start..start + len]);
    out
}

/// Whether two byte strings are equal.
pub fn bytes_eq(a: &[u8], b: &[u8]) -> (r: bool)
    ensures
        r == (a@ == b@),
{
    if a.len() != b.len() {
        return false;
    }
    let mut i: usize = 0;
    while i < a.len()
        invariant
            a@.len() == b@.len(),
            i <= a.len(),
            forall|j: int| 0 <= j < i ==> a@[j] == b@[j],
        decreases a.len() - i,
    {
        if a[i] != b[i] {
            return false;
        }
        i = i + 1;
    }
    assert(a@ =~= b@);
    true
}

/// Adds two offsets that are only ever stored modulo 2^32 on the wire.
pub fn offset_add(a: usize, b: usize) -> (r: usize)
    ensures
        (r as int) % 0x1_0000_0000 == (a + b) % 0x1_0000_0000,
        a + b <= usize::MAX ==> r == a + b,
{
    let r = a.wrapping_add(b);
    proof {
        let x = a + b;
        if x > usize::MAX {
            assert(r == x - (usize::MAX + 1));
            if usize::BITS == 32 {
                assert(usize::MAX + 1 == 0x1_0000_0000);
            } else {
                assert(usize::MAX + 1 == 0x1_0000_0000 * 0x1_0000_0000);
                vstd::arithmetic::div_mod::lemma_mod_sub_multiples_vanish(x, 0x1_0000_0000);
                assert((x - 0x1_0000_0000 * 0x1_0000_0000) % 0x1_0000_0000 == x % 0x1_0000_0000) by {
                    vstd::arithmetic::div_mod::lemma_mod_multiples_vanish(-0x1_0000_0000, x, 0x1_0000_0000);
                }
            }
        }
    }
    r
}

/// An offset computed with `offset_add` stands, on the wire, for the exact sum.
pub proof fn lemma_offset_chain(a: int, b: int, r: int)
    requires
        r % 0x1_0000_0000 == (a + b) % 0x1_0000_0000,
    ensures
        forall|x: int| (#[trigger] (r + x)) % 0x1_0000_0000 == (a + b + x) % 0x1_0000_0000,
{
    assert forall|x: int| (#[trigger] (r + x)) % 0x1_0000_0000 == (a + b + x) % 0x1_0000_0000 by {
        vstd::arithmetic::div_mod::lemma_add_mod_noop(r, x, 0x1_0000_0000);
        vstd::arithmetic::div_mod::lemma_add_mod_noop(a + b, x, 0x1_0000_0000);
    }
}

/// The images of `items`, one after the other, in order.
pub open spec fn concat_map<A, B>(items: Seq<A>, f: spec_fn(A) -> Seq<B>) -> Seq<B>
    decreases items.len(),
{
    if items.len() == 0 {
        Seq::empty()
    } else {
        concat_map(items.drop_last(), f) + f(items.last())
    }
}

/// `concat_map` read from the front: the first image, then the images of the rest.
pub proof fn lemma_concat_map_front<A, B>(items: Seq<A>, f: spec_fn(A) -> Seq<B>)
    requires
        items.len() > 0,
    ensures
        concat_map(items, f) == f(items[0]) + concat_map(items.drop_first(), f),
    decreases items.len(),
{
    if items.len() == 1 {
        assert(items.drop_last().len() == 0);
        assert(items.drop_first().len() == 0);
        assert(concat_map(items.drop_first(), f) == Seq::<B>::empty());
        assert(concat_map(items.drop_last(), f) == Seq::<B>::empty());
        assert(items.last() == items[0]);
    } else {
        lemma_concat_map_front(items.drop_last(), f);
        assert(items.drop_last().drop_first() == items.drop_first().drop_last());
        assert(items.drop_first().last() == items.last());
        assert(items.drop_last()[0] == items[0]);
    }
}

/// Extending the item list by one appends that item's image.
pub proof fn lemma_concat_map_push<A, B>(items: Seq<A>, x: A, f: spec_fn(A) -> Seq<B>)
    ensures
        concat_map(items.push(x), f) == concat_map(items, f) + f(x),
{
    assert(items.push(x).drop_last() == items);
}

/// The bytes of `d` from `i` on start with `x`.
pub open spec fn at(d: Seq<u8>, i: int, x: Seq<u8>) -> bool {
    0 <= i && i + x.len() <= d.len() && d.subrange(i, i + x.len()) == x
}

/// Bytes that start with `x + y` start with `x`, and `y` follows it.
pub proof fn lemma_at_split(d: Seq<u8>, i: int, x: Seq<u8>, y: Seq<u8>)
    requires
        at(d, i, x + y),
    ensures
        at(d, i, x),
        at(d, i + x.len(), y),
{
    let w = x + y;
    assert forall|k: int| 0 <= k < x.len() implies d.subrange(i, i + x.len())[k] == x[k] by {
        assert(d.subrange(i, i + w.len())[k] == w[k]);
    }
    assert forall|k: int| 0 <= k < y.len() implies d.subrange(i + x.len(), i + x.len() + y.len())[k] == y[k] by {
        assert(d.subrange(i, i + w.len())[x.len() + k] == w[x.len() + k]);
    }
    assert(d.subrange(i, i + x.len()) =~= x);
    assert(d.subrange(i + x.len(), i + x.len() + y.len()) =~= y);
}

} // verus!
