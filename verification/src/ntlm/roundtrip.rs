//! Decoding the image of an NTLM message gives the message back.
use vstd::prelude::*;
use crate::text::{lemma_lossy_of_utf8, lemma_utf16le_roundtrip, utf16le, utf16le_decode};
use crate::wire::{at, get_le16, get_le32, le16, le32, lemma_at_split};
use crate::wire::{concat_map, le64, lemma_concat_map_front, lemma_fixed_width_roundtrip};
use super::av::{
    av_bytes, av_decode, av_list_bytes, av_pair_of, av_raw, has_eol, read_bytes_spec, read_string_spec, secbuf,
    signature, string_bytes, string_from_bytes, target_info_bytes, version_at, version_bytes, AvModel, Version,
    NEGOTIATE_TARGET_INFO, NEGOTIATE_VERSION,
};
use super::message::{
    authenticate_bytes, authenticate_decode, buf_len, buf_off, mic_cursor, min_offset, opt_mic_bytes,
    payload_start, AuthenticateModel, TYPE_AUTHENTICATE,
    challenge_bytes, challenge_decode, challenge_flags, header_len, negotiate_bytes, negotiate_decode,
    negotiate_flags, opt_version_bytes, target_info_at, version_if, zeros8, ChallengeModel, NegotiateModel,
    TYPE_CHALLENGE, TYPE_NEGOTIATE,
};
use vstd::utf8::{decode_utf8, encode_utf8};

verus! {

proof fn lemma_le16_at(d: Seq<u8>, i: int, v: u16)
    requires
        at(d, i, le16(v)),
    ensures
        get_le16(d, i) == v,
{
    let s = d.subrange(i, i + 2);
    assert(d[i] == s[0] && d[i + 1] == s[1]);
}

proof fn lemma_le32_at(d: Seq<u8>, i: int, v: u32)
    requires
        at(d, i, le32(v)),
    ensures
        get_le32(d, i) == v,
{
    let s = d.subrange(i, i + 4);
    assert(d[i] == s[0] && d[i + 1] == s[1] && d[i + 2] == s[2] && d[i + 3] == s[3]);
}

/// A security buffer reads back as its length and offset.
proof fn lemma_secbuf_at(d: Seq<u8>, i: int, len: int, off: int)
    requires
        0 <= len < 65536,
        0 <= off < 0x1_0000_0000,
        at(d, i, secbuf(len, off)),
    ensures
        get_le16(d, i) == len,
        get_le32(d, i + 4) == off,
{
    reveal(secbuf);
    let l = len as u16;
    let o = off as u32;
    assert(secbuf(len, off) == le16(l) + le16(l) + le32(o));
    lemma_at_split(d, i, le16(l) + le16(l), le32(o));
    lemma_at_split(d, i, le16(l), le16(l));
    lemma_le16_at(d, i, l);
    lemma_le32_at(d, i + 4, o);
}

/// A version field reads back as the version.
proof fn lemma_version_at(d: Seq<u8>, i: int, v: Version)
    requires
        at(d, i, version_bytes(v)),
    ensures
        version_at(d, i) == v,
{
    let s = d.subrange(i, i + 8);
    assert(d[i] == s[0] && d[i + 1] == s[1] && d[i + 7] == s[7]);
    lemma_at_split(d, i, seq![v.major, v.minor] + le16(v.build), seq![0u8, 0u8, 0u8, v.ntlm_rev]);
    lemma_at_split(d, i, seq![v.major, v.minor], le16(v.build));
    lemma_le16_at(d, i + 2, v.build);
}

/// The field at its place reads back.
proof fn lemma_field(d: Seq<u8>, i: int, x: Seq<u8>)
    requires
        at(d, i, x),
    ensures
        read_bytes_spec(d, i, x.len() as int) == Some(x),
{
    if x.len() == 0 {
        assert(x =~= Seq::<u8>::empty());
    }
}

/// A string field reads back as the string, in either encoding.
pub proof fn lemma_string_roundtrip(s: Seq<char>, flags: u32)
    ensures
        string_from_bytes(string_bytes(s, flags), flags) == Some(s),
{
    if s.len() > 0 {
        if flags & super::av::NEGOTIATE_UNICODE != 0 {
            lemma_utf16le_roundtrip(s);
            if utf16le(s).len() == 0 {
                assert(utf16le_decode(utf16le(s)) == Some(Seq::<char>::empty()));
            }
        } else {
            lemma_lossy_of_utf8(s);
            broadcast use vstd::utf8::encode_utf8_decode_utf8, vstd::utf8::encode_utf8_valid_utf8;
            if encode_utf8(s).len() == 0 {
                assert(encode_utf8(s) =~= encode_utf8(Seq::<char>::empty()));
            }
        }
    }
}

/// A negotiate message whose flags already carry the bits its strings set, whose
/// version bit says whether it has a version, and whose strings fit a 16-bit length.
pub open spec fn negotiate_wf(m: NegotiateModel) -> bool {
    &&& negotiate_flags(m) == m.flags
    &&& (m.version is Some) == (m.flags & NEGOTIATE_VERSION != 0)
    &&& string_bytes(m.domain, m.flags).len() < 65536
    &&& string_bytes(m.workstation, m.flags).len() < 65536
}

proof fn lemma_secbuf_len(len: int, off: int)
    ensures
        secbuf(len, off).len() == 8,
{
    reveal(secbuf);
}

/// Where the fields of a negotiate image stand.
#[verifier::spinoff_prover]
proof fn lemma_negotiate_layout(flags: u32, dm: Seq<u8>, w: Seq<u8>, v: Seq<u8>, base: int)
    requires
        base == 32 + v.len(),
        v.len() <= 8,
        dm.len() < 65536,
        w.len() < 65536,
    ensures
        ({
            let d = signature() + le32(TYPE_NEGOTIATE) + le32(flags) + secbuf(dm.len() as int, base) + secbuf(
                w.len() as int,
                base + dm.len(),
            ) + v + dm + w;
            &&& d.len() >= 32
            &&& d.subrange(0, 8) == signature()
            &&& get_le32(d, 8) == TYPE_NEGOTIATE
            &&& get_le32(d, 12) == flags
            &&& get_le16(d, 16) == dm.len()
            &&& get_le32(d, 20) == base
            &&& get_le16(d, 24) == w.len()
            &&& get_le32(d, 28) == base + dm.len()
            &&& at(d, 32, v)
            &&& read_bytes_spec(d, base, dm.len() as int) == Some(dm)
            &&& read_bytes_spec(d, base + dm.len(), w.len() as int) == Some(w)
        }),
{
    let sb1 = secbuf(dm.len() as int, base);
    let sb2 = secbuf(w.len() as int, base + dm.len());
    lemma_secbuf_len(dm.len() as int, base);
    lemma_secbuf_len(w.len() as int, base + dm.len());
    let x1 = signature() + le32(TYPE_NEGOTIATE);
    let x2 = x1 + le32(flags);
    let x3 = x2 + sb1;
    let x4 = x3 + sb2;
    let x5 = x4 + v;
    let x6 = x5 + dm;
    let d = x6 + w;
    assert(at(d, 0, d)) by {
        assert(d.subrange(0, d.len() as int) =~= d);
    }
    lemma_at_split(d, 0, x6, w);
    lemma_at_split(d, 0, x5, dm);
    lemma_at_split(d, 0, x4, v);
    lemma_at_split(d, 0, x3, sb2);
    lemma_at_split(d, 0, x2, sb1);
    lemma_at_split(d, 0, x1, le32(flags));
    lemma_at_split(d, 0, signature(), le32(TYPE_NEGOTIATE));
    lemma_le32_at(d, 8, TYPE_NEGOTIATE);
    lemma_le32_at(d, 12, flags);
    lemma_secbuf_at(d, 16, dm.len() as int, base);
    lemma_secbuf_at(d, 24, w.len() as int, base + dm.len());
    lemma_field(d, base, dm);
    lemma_field(d, base + dm.len(), w);
}

/// Decoding the image of a well-formed negotiate message gives the message back.
#[verifier::spinoff_prover]
pub proof fn lemma_negotiate_roundtrip(m: NegotiateModel)
    requires
        negotiate_wf(m),
    ensures
        negotiate_decode(negotiate_bytes(m)) == Some(m),
{
    let flags = m.flags;
    let dm = string_bytes(m.domain, flags);
    let w = string_bytes(m.workstation, flags);
    let base = header_len(32, m.version);
    let v = opt_version_bytes(m.version);
    let d = negotiate_bytes(m);
    assert(v.len() == base - 32);
    lemma_negotiate_layout(flags, dm, w, v, base);
    lemma_string_roundtrip(m.domain, flags);
    lemma_string_roundtrip(m.workstation, flags);
    if let Some(ver) = m.version {
        lemma_version_at(d, 32, ver);
    }
    assert(version_if(d, 32, flags) == m.version);
}

/// The identifier a pair is written under.
spec fn av_id(p: AvModel) -> u16 {
    match p {
        AvModel::Eol => 0,
        AvModel::NbComputerName(_) => 1,
        AvModel::NbDomainName(_) => 2,
        AvModel::DnsComputerName(_) => 3,
        AvModel::DnsDomainName(_) => 4,
        AvModel::DnsTreeName(_) => 5,
        AvModel::Flags(_) => 6,
        AvModel::Timestamp(_) => 7,
        AvModel::SingleHost(_) => 8,
        AvModel::TargetName(_) => 9,
        AvModel::ChannelBindings(_) => 10,
        AvModel::Unknown(id, _) => id,
    }
}

/// The value bytes a pair is written with.
spec fn av_value(p: AvModel) -> Seq<u8> {
    match p {
        AvModel::Eol => Seq::empty(),
        AvModel::NbComputerName(v) => utf16le(v),
        AvModel::NbDomainName(v) => utf16le(v),
        AvModel::DnsComputerName(v) => utf16le(v),
        AvModel::DnsDomainName(v) => utf16le(v),
        AvModel::DnsTreeName(v) => utf16le(v),
        AvModel::Flags(v) => le32(v),
        AvModel::Timestamp(v) => le64(v),
        AvModel::SingleHost(v) => v,
        AvModel::TargetName(v) => utf16le(v),
        AvModel::ChannelBindings(v) => v,
        AvModel::Unknown(_, v) => v,
    }
}

/// A pair that reads back as itself: its value fits a 16-bit length, channel bindings
/// are sixteen bytes, and an unknown identifier is none of the known ones.
pub open spec fn av_wf(p: AvModel) -> bool {
    match p {
        AvModel::Eol => true,
        AvModel::NbComputerName(v) => utf16le(v).len() < 65536,
        AvModel::NbDomainName(v) => utf16le(v).len() < 65536,
        AvModel::DnsComputerName(v) => utf16le(v).len() < 65536,
        AvModel::DnsDomainName(v) => utf16le(v).len() < 65536,
        AvModel::DnsTreeName(v) => utf16le(v).len() < 65536,
        AvModel::Flags(_) => true,
        AvModel::Timestamp(_) => true,
        AvModel::SingleHost(v) => v.len() < 65536,
        AvModel::TargetName(v) => utf16le(v).len() < 65536,
        AvModel::ChannelBindings(v) => v.len() == 16,
        AvModel::Unknown(id, v) => id > 10 && v.len() < 65536,
    }
}

/// Target information that reads back as itself: well-formed pairs, of which the last,
/// and only the last, is the end-of-list pair.
pub open spec fn target_info_wf(ps: Seq<AvModel>) -> bool {
    &&& ps.len() > 0
    &&& ps.last() is Eol
    &&& forall|i: int| 0 <= i < ps.len() - 1 ==> !(#[trigger] ps[i] is Eol)
    &&& forall|i: int| 0 <= i < ps.len() ==> av_wf(#[trigger] ps[i])
}

proof fn lemma_av_parts(p: AvModel)
    requires
        av_wf(p),
    ensures
        av_bytes(p) == av_raw(av_id(p), av_value(p)),
        av_value(p).len() < 65536,
        av_pair_of(av_id(p), av_value(p)) == Some(p),
{
    match p {
        AvModel::NbComputerName(v) => lemma_utf16le_roundtrip(v),
        AvModel::NbDomainName(v) => lemma_utf16le_roundtrip(v),
        AvModel::DnsComputerName(v) => lemma_utf16le_roundtrip(v),
        AvModel::DnsDomainName(v) => lemma_utf16le_roundtrip(v),
        AvModel::DnsTreeName(v) => lemma_utf16le_roundtrip(v),
        AvModel::TargetName(v) => lemma_utf16le_roundtrip(v),
        AvModel::Flags(v) => {
            lemma_fixed_width_roundtrip(Seq::empty(), Seq::empty(), 0, v, 0);
            assert(Seq::<u8>::empty() + le32(v) + Seq::<u8>::empty() =~= le32(v));
        },
        AvModel::Timestamp(v) => {
            lemma_fixed_width_roundtrip(Seq::empty(), Seq::empty(), 0, 0, v);
            assert(Seq::<u8>::empty() + le64(v) + Seq::<u8>::empty() =~= le64(v));
        },
        _ => {},
    }
}

/// A pair's image, followed by anything, reads back as its header and value.
proof fn lemma_av_raw_read(id: u16, v: Seq<u8>, rest: Seq<u8>)
    requires
        v.len() < 65536,
    ensures
        ({
            let s = av_raw(id, v) + rest;
            &&& s.len() >= 4
            &&& get_le16(s, 0) == id
            &&& get_le16(s, 2) == v.len()
            &&& s.len() - 4 >= v.len()
            &&& s.subrange(4, 4 + v.len() as int) == v
            &&& s.subrange(4 + v.len() as int, s.len() as int) == rest
        }),
{
    let l = (v.len() % 65536) as u16;
    let s = av_raw(id, v) + rest;
    lemma_fixed_width_roundtrip(Seq::empty(), le16(l) + v + rest, id, 0, 0);
    assert(Seq::<u8>::empty() + le16(id) + (le16(l) + v + rest) =~= s);
    lemma_fixed_width_roundtrip(le16(id), v + rest, l, 0, 0);
    assert(le16(id) + le16(l) + (v + rest) =~= s);
    assert(s.subrange(4, 4 + v.len() as int) =~= v);
    assert(s.subrange(4 + v.len() as int, s.len() as int) =~= rest);
}

/// Decoding the image of well-formed target information gives it back.
proof fn lemma_av_list_roundtrip(ps: Seq<AvModel>)
    requires
        target_info_wf(ps),
    ensures
        av_decode(av_list_bytes(ps)) == Some(ps),
    decreases ps.len(),
{
    let f = |p: AvModel| av_bytes(p);
    lemma_concat_map_front(ps, f);
    let p = ps[0];
    let rest = ps.drop_first();
    assert(av_wf(p));
    lemma_av_parts(p);
    lemma_av_raw_read(av_id(p), av_value(p), concat_map(rest, f));
    let s = av_list_bytes(ps);
    assert(s == av_raw(av_id(p), av_value(p)) + concat_map(rest, f));
    if ps.len() == 1 {
        assert(p is Eol);
        assert(ps =~= seq![p]);
    } else {
        assert(!(p is Eol));
        assert(target_info_wf(rest)) by {
            assert(rest.last() == ps.last());
            assert forall|i: int| 0 <= i < rest.len() - 1 implies !(#[trigger] rest[i] is Eol) by {
                assert(rest[i] == ps[i + 1]);
            }
            assert forall|i: int| 0 <= i < rest.len() implies av_wf(#[trigger] rest[i]) by {
                assert(rest[i] == ps[i + 1]);
            }
        }
        lemma_av_list_roundtrip(rest);
        assert(seq![p] + rest =~= ps);
    }
}

/// A challenge message whose flags already carry the target information bit its
/// pairs set, whose version bit says whether it has a version, whose challenge is
/// eight bytes, and whose fields fit a 16-bit length, with well-formed target information.
pub open spec fn challenge_wf(m: ChallengeModel) -> bool {
    &&& challenge_flags(m) == m.flags
    &&& (m.version is Some) == (m.flags & NEGOTIATE_VERSION != 0)
    &&& m.server_challenge.len() == 8
    &&& string_bytes(m.target_name, m.flags).len() < 65536
    &&& target_info_wf(m.target_info)
    &&& av_list_bytes(m.target_info).len() < 65536
}

/// Where the fields of a challenge image stand.
#[verifier::spinoff_prover]
proof fn lemma_challenge_layout(flags: u32, n: Seq<u8>, c: Seq<u8>, t: Seq<u8>, v: Seq<u8>, base: int)
    requires
        base == 48 + v.len(),
        v.len() <= 8,
        c.len() == 8,
        n.len() < 65536,
        0 < t.len() < 65536,
    ensures
        ({
            let d = signature() + le32(TYPE_CHALLENGE) + secbuf(n.len() as int, base) + le32(flags) + c
                + zeros8() + secbuf(t.len() as int, base + n.len()) + v + n + t;
            &&& d.len() >= 48
            &&& d.subrange(0, 8) == signature()
            &&& get_le32(d, 8) == TYPE_CHALLENGE
            &&& get_le16(d, 12) == n.len()
            &&& get_le32(d, 16) == base
            &&& get_le32(d, 20) == flags
            &&& d.subrange(24, 32) == c
            &&& get_le16(d, 40) == t.len()
            &&& get_le32(d, 44) == base + n.len()
            &&& at(d, 48, v)
            &&& read_bytes_spec(d, base, n.len() as int) == Some(n)
            &&& base + n.len() + t.len() <= d.len()
            &&& d.subrange(base + n.len(), base + n.len() + t.len()) == t
        }),
{
    let sb1 = secbuf(n.len() as int, base);
    let sb2 = secbuf(t.len() as int, base + n.len());
    lemma_secbuf_len(n.len() as int, base);
    lemma_secbuf_len(t.len() as int, base + n.len());
    let x1 = signature() + le32(TYPE_CHALLENGE);
    let x2 = x1 + sb1;
    let x3 = x2 + le32(flags);
    let x4 = x3 + c;
    let x5 = x4 + zeros8();
    let x6 = x5 + sb2;
    let x7 = x6 + v;
    let x8 = x7 + n;
    let d = x8 + t;
    assert(at(d, 0, d)) by {
        assert(d.subrange(0, d.len() as int) =~= d);
    }
    lemma_at_split(d, 0, x8, t);
    lemma_at_split(d, 0, x7, n);
    lemma_at_split(d, 0, x6, v);
    lemma_at_split(d, 0, x5, sb2);
    lemma_at_split(d, 0, x4, zeros8());
    lemma_at_split(d, 0, x3, c);
    lemma_at_split(d, 0, x2, le32(flags));
    lemma_at_split(d, 0, x1, sb1);
    lemma_at_split(d, 0, signature(), le32(TYPE_CHALLENGE));
    lemma_le32_at(d, 8, TYPE_CHALLENGE);
    lemma_secbuf_at(d, 12, n.len() as int, base);
    lemma_le32_at(d, 20, flags);
    lemma_secbuf_at(d, 40, t.len() as int, base + n.len());
    lemma_field(d, base, n);
}

/// Decoding the image of a well-formed challenge message gives the message back.
#[verifier::spinoff_prover]
#[verifier::rlimit(40)]
pub proof fn lemma_challenge_roundtrip(m: ChallengeModel)
    requires
        challenge_wf(m),
    ensures
        challenge_decode(challenge_bytes(m)) == Some(m),
{
    let flags = m.flags;
    let n = string_bytes(m.target_name, flags);
    let t = av_list_bytes(m.target_info);
    let base = header_len(48, m.version);
    let v = opt_version_bytes(m.version);
    assert(has_eol(m.target_info)) by {
        assert(m.target_info[m.target_info.len() - 1] is Eol);
    }
    assert(target_info_bytes(m.target_info) == t);
    let d = signature() + le32(TYPE_CHALLENGE) + secbuf(n.len() as int, base) + le32(flags) + m.server_challenge
        + zeros8() + secbuf(t.len() as int, base + n.len()) + v + n + t;
    assert(challenge_bytes(m) == d);
    lemma_av_list_roundtrip(m.target_info);
    assert(t.len() > 0) by {
        lemma_concat_map_front(m.target_info, |p: AvModel| av_bytes(p));
        assert(av_wf(m.target_info[0]));
        lemma_av_parts(m.target_info[0]);
    }
    assert(v.len() == base - 48);
    lemma_challenge_layout(flags, n, m.server_challenge, t, v, base);
    lemma_string_roundtrip(m.target_name, flags);
    if let Some(ver) = m.version {
        lemma_version_at(d, 48, ver);
    }
    let name = read_string_spec(d, get_le32(d, 16) as int, get_le16(d, 12) as int, flags);
    let info = target_info_at(d, get_le32(d, 44) as int, get_le16(d, 40) as int);
    assert(name == Some(m.target_name));
    assert(info == Some(m.target_info));
    assert(version_if(d, 48, flags) == m.version);
    assert(d.subrange(24, 32) == m.server_challenge);
}

/// An authenticate message whose version bit says whether it has a version, whose
/// integrity code, if any, is sixteen bytes, and whose fields fit a 16-bit length.
pub open spec fn authenticate_wf(m: AuthenticateModel) -> bool {
    &&& (m.version is Some) == (m.flags & NEGOTIATE_VERSION != 0)
    &&& (m.mic matches Some(c) ==> c.len() == 16)
    &&& m.lm_response.len() < 65536
    &&& m.nt_response.len() < 65536
    &&& string_bytes(m.domain, m.flags).len() < 65536
    &&& string_bytes(m.user, m.flags).len() < 65536
    &&& string_bytes(m.workstation, m.flags).len() < 65536
    &&& m.encrypted_session_key.len() < 65536
}

/// Over buffers laid end to end from `base`, the smallest offset of a non-empty one is
/// `base`; with none, the search keeps its starting value.
proof fn lemma_min_chain(base: int, l1: int, l2: int, l3: int, l4: int, l5: int, l6: int)
    requires
        0 <= base,
        0 <= l1 && 0 <= l2 && 0 <= l3 && 0 <= l4 && 0 <= l5 && 0 <= l6,
        base + l1 + l2 + l3 + l4 + l5 + l6 < 0x1_0000_0000,
    ensures
        ({
            let o2 = base + l1;
            let o3 = o2 + l2;
            let o4 = o3 + l3;
            let o5 = o4 + l4;
            let o6 = o5 + l5;
            let m = min_offset(min_offset(min_offset(min_offset(min_offset(min_offset(usize::MAX as int,
                l1, base), l2, o2), l3, o3), l4, o4), l5, o5), l6, o6);
            m == if l1 + l2 + l3 + l4 + l5 + l6 > 0 { base } else { usize::MAX as int }
        }),
{
}

/// The image of an authenticate message, laid out from its parts.
#[verifier::opaque]
spec fn auth_image(
    flags: u32,
    lm: Seq<u8>,
    nt: Seq<u8>,
    dm: Seq<u8>,
    u: Seq<u8>,
    w: Seq<u8>,
    k: Seq<u8>,
    v: Seq<u8>,
    mc: Seq<u8>,
    base: int,
) -> Seq<u8> {
    let o2 = base + lm.len();
    let o3 = o2 + nt.len();
    let o4 = o3 + dm.len();
    let o5 = o4 + u.len();
    let o6 = o5 + w.len();
    signature() + le32(TYPE_AUTHENTICATE) + secbuf(lm.len() as int, base) + secbuf(nt.len() as int, o2) + secbuf(
        dm.len() as int,
        o3,
    ) + secbuf(u.len() as int, o4) + secbuf(w.len() as int, o5) + secbuf(k.len() as int, o6) + le32(flags) + v
        + mc + lm + nt + dm + u + w + k
}

/// Where the fields of an authenticate image stand.
#[verifier::spinoff_prover]
#[verifier::rlimit(40)]
proof fn lemma_authenticate_layout(
    flags: u32,
    lm: Seq<u8>,
    nt: Seq<u8>,
    dm: Seq<u8>,
    u: Seq<u8>,
    w: Seq<u8>,
    k: Seq<u8>,
    v: Seq<u8>,
    mc: Seq<u8>,
    base: int,
)
    requires
        base == 64 + v.len() + mc.len(),
        v.len() <= 8,
        mc.len() <= 16,
        lm.len() < 65536 && nt.len() < 65536 && dm.len() < 65536,
        u.len() < 65536 && w.len() < 65536 && k.len() < 65536,
    ensures
        ({
            let o2 = base + lm.len();
            let o3 = o2 + nt.len();
            let o4 = o3 + dm.len();
            let o5 = o4 + u.len();
            let o6 = o5 + w.len();
            let d = auth_image(flags, lm, nt, dm, u, w, k, v, mc, base);
            &&& d.len() == o6 + k.len()
            &&& d.subrange(0, 8) == signature()
            &&& get_le32(d, 8) == TYPE_AUTHENTICATE
            &&& buf_len(d, 12) == lm.len() && buf_off(d, 12) == base
            &&& buf_len(d, 20) == nt.len() && buf_off(d, 20) == o2
            &&& buf_len(d, 28) == dm.len() && buf_off(d, 28) == o3
            &&& buf_len(d, 36) == u.len() && buf_off(d, 36) == o4
            &&& buf_len(d, 44) == w.len() && buf_off(d, 44) == o5
            &&& buf_len(d, 52) == k.len() && buf_off(d, 52) == o6
            &&& get_le32(d, 60) == flags
            &&& at(d, 64, v)
            &&& at(d, 64 + v.len() as int, mc)
            &&& read_bytes_spec(d, base, lm.len() as int) == Some(lm)
            &&& read_bytes_spec(d, o2, nt.len() as int) == Some(nt)
            &&& read_bytes_spec(d, o3, dm.len() as int) == Some(dm)
            &&& read_bytes_spec(d, o4, u.len() as int) == Some(u)
            &&& read_bytes_spec(d, o5, w.len() as int) == Some(w)
            &&& read_bytes_spec(d, o6, k.len() as int) == Some(k)
        }),
{
    let o2 = base + lm.len();
    let o3 = o2 + nt.len();
    let o4 = o3 + dm.len();
    let o5 = o4 + u.len();
    let o6 = o5 + w.len();
    let sb1 = secbuf(lm.len() as int, base);
    let sb2 = secbuf(nt.len() as int, o2);
    let sb3 = secbuf(dm.len() as int, o3);
    let sb4 = secbuf(u.len() as int, o4);
    let sb5 = secbuf(w.len() as int, o5);
    let sb6 = secbuf(k.len() as int, o6);
    lemma_secbuf_len(lm.len() as int, base);
    lemma_secbuf_len(nt.len() as int, o2);
    lemma_secbuf_len(dm.len() as int, o3);
    lemma_secbuf_len(u.len() as int, o4);
    lemma_secbuf_len(w.len() as int, o5);
    lemma_secbuf_len(k.len() as int, o6);
    let x1 = signature() + le32(TYPE_AUTHENTICATE);
    let x2 = x1 + sb1;
    let x3 = x2 + sb2;
    let x4 = x3 + sb3;
    let x5 = x4 + sb4;
    let x6 = x5 + sb5;
    let x7 = x6 + sb6;
    let x8 = x7 + le32(flags);
    let x9 = x8 + v;
    let x10 = x9 + mc;
    let x11 = x10 + lm;
    let x12 = x11 + nt;
    let x13 = x12 + dm;
    let x14 = x13 + u;
    let x15 = x14 + w;
    let d = x15 + k;
    reveal(auth_image);
    assert(at(d, 0, d)) by {
        assert(d.subrange(0, d.len() as int) =~= d);
    }
    lemma_at_split(d, 0, x15, k);
    lemma_at_split(d, 0, x14, w);
    lemma_at_split(d, 0, x13, u);
    lemma_at_split(d, 0, x12, dm);
    lemma_at_split(d, 0, x11, nt);
    lemma_at_split(d, 0, x10, lm);
    lemma_at_split(d, 0, x9, mc);
    lemma_at_split(d, 0, x8, v);
    lemma_at_split(d, 0, x7, le32(flags));
    lemma_at_split(d, 0, x6, sb6);
    lemma_at_split(d, 0, x5, sb5);
    lemma_at_split(d, 0, x4, sb4);
    lemma_at_split(d, 0, x3, sb3);
    lemma_at_split(d, 0, x2, sb2);
    lemma_at_split(d, 0, x1, sb1);
    lemma_at_split(d, 0, signature(), le32(TYPE_AUTHENTICATE));
    lemma_le32_at(d, 8, TYPE_AUTHENTICATE);
    lemma_secbuf_at(d, 12, lm.len() as int, base);
    lemma_secbuf_at(d, 20, nt.len() as int, o2);
    lemma_secbuf_at(d, 28, dm.len() as int, o3);
    lemma_secbuf_at(d, 36, u.len() as int, o4);
    lemma_secbuf_at(d, 44, w.len() as int, o5);
    lemma_secbuf_at(d, 52, k.len() as int, o6);
    lemma_le32_at(d, 60, flags);
    lemma_field(d, base, lm);
    lemma_field(d, o2, nt);
    lemma_field(d, o3, dm);
    lemma_field(d, o4, u);
    lemma_field(d, o5, w);
    lemma_field(d, o6, k);
}

/// An authenticate image whose buffers are laid end to end from `base` has its payload start there.
proof fn lemma_payload_start(d: Seq<u8>, base: int, l1: int, l2: int, l3: int, l4: int, l5: int, l6: int)
    requires
        0 <= base,
        0 <= l1 && 0 <= l2 && 0 <= l3 && 0 <= l4 && 0 <= l5 && 0 <= l6,
        base + l1 + l2 + l3 + l4 + l5 + l6 < 0x1_0000_0000,
        d.len() == base + l1 + l2 + l3 + l4 + l5 + l6,
        buf_len(d, 12) == l1 && buf_off(d, 12) == base,
        buf_len(d, 20) == l2 && buf_off(d, 20) == base + l1,
        buf_len(d, 28) == l3 && buf_off(d, 28) == base + l1 + l2,
        buf_len(d, 36) == l4 && buf_off(d, 36) == base + l1 + l2 + l3,
        buf_len(d, 44) == l5 && buf_off(d, 44) == base + l1 + l2 + l3 + l4,
        buf_len(d, 52) == l6 && buf_off(d, 52) == base + l1 + l2 + l3 + l4 + l5,
    ensures
        payload_start(d) == base,
{
    lemma_min_chain(base, l1, l2, l3, l4, l5, l6);
}

/// An authenticate image whose fields stand where the layout puts them decodes to the message.
#[verifier::spinoff_prover]
#[verifier::rlimit(40)]
proof fn lemma_authenticate_fields(d: Seq<u8>, m: AuthenticateModel, base: int)
    requires
        authenticate_wf(m),
        base == 64 + opt_version_bytes(m.version).len() + opt_mic_bytes(m.mic).len(),
        d.len() >= 64,
        d.subrange(0, 8) == signature(),
        get_le32(d, 8) == TYPE_AUTHENTICATE,
        get_le32(d, 60) == m.flags,
        version_if(d, 64, m.flags) == m.version,
        payload_start(d) == base,
        m.mic matches Some(c) ==> d.subrange(base - 16, base) == c,
        read_bytes_spec(d, buf_off(d, 12), buf_len(d, 12)) == Some(m.lm_response),
        read_bytes_spec(d, buf_off(d, 20), buf_len(d, 20)) == Some(m.nt_response),
        read_string_spec(d, buf_off(d, 28), buf_len(d, 28), m.flags) == Some(m.domain),
        read_string_spec(d, buf_off(d, 36), buf_len(d, 36), m.flags) == Some(m.user),
        read_string_spec(d, buf_off(d, 44), buf_len(d, 44), m.flags) == Some(m.workstation),
        read_bytes_spec(d, buf_off(d, 52), buf_len(d, 52)) == Some(m.encrypted_session_key),
    ensures
        authenticate_decode(d) == Some(m),
{
    let cursor = mic_cursor(d);
    assert(cursor == 64 + opt_version_bytes(m.version).len());
}

/// Decoding the image of a well-formed authenticate message gives the message back.
#[verifier::spinoff_prover]
#[verifier::rlimit(40)]
pub proof fn lemma_authenticate_roundtrip(m: AuthenticateModel)
    requires
        authenticate_wf(m),
    ensures
        authenticate_decode(authenticate_bytes(m)) == Some(m),
{
    let flags = m.flags;
    let lm = m.lm_response;
    let nt = m.nt_response;
    let dm = string_bytes(m.domain, flags);
    let u = string_bytes(m.user, flags);
    let w = string_bytes(m.workstation, flags);
    let k = m.encrypted_session_key;
    let v = opt_version_bytes(m.version);
    let mc = opt_mic_bytes(m.mic);
    let base = 64 + (if m.version is Some { 8int } else { 0int }) + (if m.mic is Some { 16int } else { 0int });
    assert(base == 64 + v.len() + mc.len());
    let o2: int = base + lm.len();
    let o3: int = o2 + nt.len();
    let o4: int = o3 + dm.len();
    let o5: int = o4 + u.len();
    let o6: int = o5 + w.len();
    let d = authenticate_bytes(m);
    assert(d == auth_image(flags, lm, nt, dm, u, w, k, v, mc, base)) by {
        reveal(auth_image);
    }
    lemma_authenticate_layout(flags, lm, nt, dm, u, w, k, v, mc, base);
    lemma_payload_start(d, base, lm.len() as int, nt.len() as int, dm.len() as int, u.len() as int, w.len() as int, k.len() as int);
    lemma_string_roundtrip(m.domain, flags);
    lemma_string_roundtrip(m.user, flags);
    lemma_string_roundtrip(m.workstation, flags);
    if let Some(ver) = m.version {
        lemma_version_at(d, 64, ver);
    }
    assert(version_if(d, 64, flags) == m.version);
    assert(payload_start(d) == base);
    if let Some(c) = m.mic {
        assert(d.subrange(base - 16, base) == c) by {
            assert(base - 16 == 64 + v.len());
        }
    }
    lemma_authenticate_fields(d, m, base);
}

} // verus!
