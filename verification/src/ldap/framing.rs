//! Reading one LDAP message off a stream: what its header announces, and the bytes of the
//! whole message once its content has been read.
use vstd::prelude::*;
use crate::error::{ProtoError, ProtoResult};
use super::ber::{be_value, lemma_be_value_bound, lemma_pow256_mono, lemma_pow256_values, pow256, MAX_BER_MESSAGE_SIZE};

verus! {

/// How many length bytes follow the first one: none in short form; in long form its low
/// seven bits, which must be at least one and at most the bytes of a `usize`.
pub open spec fn length_bytes_spec(first: u8) -> Result<usize, ProtoError> {
    if first < 128 {
        Ok(0)
    } else if first == 128 {
        Err(ProtoError::Parse("indefinite length not supported"))
    } else if first - 128 > usize::BITS / 8 {
        Err(ProtoError::Parse("invalid ldap length"))
    } else {
        Ok((first - 128) as usize)
    }
}

/// The number of length bytes to read after the first length byte `first`.
pub fn length_bytes(first: u8) -> (r: ProtoResult<usize>)
    ensures
        r == length_bytes_spec(first),
{
    if first < 128 {
        Ok(0)
    } else if first == 128 {
        Err(ProtoError::Parse("indefinite length not supported"))
    } else if (first - 128) as u32 > usize::BITS / 8 {
        Err(ProtoError::Parse("invalid ldap length"))
    } else {
        Ok((first - 128) as usize)
    }
}

/// The content length a header announces: the first length byte in short form, else the
/// big-endian value of the length bytes that follow it. A value beyond a `usize` is an
/// error, and so is one beyond the largest message.
pub open spec fn content_length_spec(first: u8, extra: Seq<u8>) -> Result<usize, ProtoError> {
    let v: int = if first < 128 { first as int } else { be_value(extra) as int };
    if v > usize::MAX {
        Err(ProtoError::Parse("invalid ldap length"))
    } else if v > MAX_BER_MESSAGE_SIZE {
        Err(ProtoError::Parse("ldap message too large"))
    } else {
        Ok(v as usize)
    }
}

/// The content length announced by the first length byte `first` and the length bytes
/// `extra` read after it.
pub fn content_length(first: u8, extra: &[u8]) -> (r: ProtoResult<usize>)
    requires
        length_bytes_spec(first) == Ok::<usize, ProtoError>(extra@.len() as usize),
    ensures
        r == content_length_spec(first, extra@),
{
    if first < 128 {
        return Ok(first as usize);
    }
    assert(usize::BITS == 32 || usize::BITS == 64);
    assert(first > 128 && first - 128 <= usize::BITS / 8);
    assert(((first - 128) as usize) as int == first - 128);
    let n: usize = extra.len();
    assert((extra@.len() as usize) == n);
    assert(length_bytes_spec(first) == Ok::<usize, ProtoError>((first - 128) as usize));
    assert(extra@.len() == first - 128);
    assert(extra@.len() <= 8);
    proof {
        lemma_pow256_values();
        lemma_pow256_mono(extra@.len() as nat, 8);
        lemma_be_value_bound(extra@);
    }
    let mut value: u64 = 0;
    let mut i: usize = 0;
    while i < extra.len()
        invariant
            i <= extra@.len() <= 8,
            value == be_value(extra@.subrange(0, i as int)),
            pow256(extra@.len() as nat) <= pow256(8),
            pow256(8) == 0x1_0000_0000_0000_0000,
        decreases extra.len() - i,
    {
        proof {
            let p = extra@.subrange(0, i + 1);
            assert(p.drop_last() =~= extra@.subrange(0, i as int));
            lemma_be_value_bound(p);
            lemma_pow256_mono((i + 1) as nat, 8);
        }
        value = value * 256 + extra[i] as u64;
        i = i + 1;
    }
    assert(extra@.subrange(0, i as int) =~= extra@);
    if value > usize::MAX as u64 {
        return Err(ProtoError::Parse("invalid ldap length"));
    }
    if value > MAX_BER_MESSAGE_SIZE as u64 {
        return Err(ProtoError::Parse("ldap message too large"));
    }
    Ok(value as usize)
}

/// The whole message: its tag, the first length byte, the length bytes after it and the
/// content.
pub fn message_bytes_of(tag: u8, first: u8, extra: &[u8], content: &[u8]) -> (out: Vec<u8>)
    requires
        2 + extra@.len() + content@.len() <= usize::MAX,
    ensures
        out@ == seq![tag, first] + extra@ + content@,
{
    let mut out: Vec<u8> = Vec::new();
    out.push(tag);
    out.push(first);
    let mut i: usize = 0;
    while i < extra.len()
        invariant
            i <= extra@.len(),
            out@ == seq![tag, first] + extra@.subrange(0, i as int),
        decreases extra.len() - i,
    {
        out.push(extra[i]);
        i = i + 1;
        assert(out@ =~= seq![tag, first] + extra@.subrange(0, i as int));
    }
    assert(extra@.subrange(0, i as int) =~= extra@);
    let mut j: usize = 0;
    while j < content.len()
        invariant
            j <= content@.len(),
            out@ == seq![tag, first] + extra@ + content@.subrange(0, j as int),
        decreases content.len() - j,
    {
        out.push(content[j]);
        j = j + 1;
        assert(out@ =~= seq![tag, first] + extra@ + content@.subrange(0, j as int));
    }
    assert(content@.subrange(0, j as int) =~= content@);
    out
}

} // verus!
