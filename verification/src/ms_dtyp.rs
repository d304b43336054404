//! Windows data types (GUID, FILETIME, SID, UNICODE_STRING) and a message that carries a
//! list of them, each tagged with its kind and length.
use vstd::prelude::*;
use crate::error::{ProtoError, ProtoResult};
use crate::ldap::ber::be_value;
use crate::ntlm::auth::{filetime_from_unix, filetime_of};
use crate::text::{decimal, decode_utf16le, le16_units, push_char, push_decimal, utf16_decode, utf16le, utf16le_bytes};
use crate::wire::{
    be32, concat_map, copy_range, get_be32, get_le16, get_le32, get_le64, le16, le32, le64, lemma_concat_map_push,
    push_be32, push_bytes, push_le16, push_le32, push_le64, read_be32, read_le16, read_le32, read_le64,
};

verus! {

/// A GUID, held in its textual byte order: the first three fields big-endian.
#[derive(Debug, Clone, PartialEq, Eq)]
pub struct Guid(pub [u8; 16]);

/// The position that byte `i` of a GUID's wire form is taken from: the first three
/// fields (4, 2 and 2 bytes) are byte-reversed, the last eight bytes stay.
pub open spec fn guid_source(i: int) -> int {
    if i < 4 {
        3 - i
    } else if i < 6 {
        9 - i
    } else if i < 8 {
        13 - i
    } else {
        i
    }
}

/// The 16 bytes of `b` with the first three GUID fields byte-reversed.
pub open spec fn guid_swap(b: Seq<u8>) -> Seq<u8> {
    Seq::new(16, |i: int| b[guid_source(i)])
}

/// The lower-case hexadecimal digit for `d`.
pub open spec fn hex_digit(d: nat) -> char {
    if d < 10 {
        ((48 + d) as u8) as char
    } else {
        ((87 + d) as u8) as char
    }
}

/// Two lower-case hexadecimal digits per byte.
pub open spec fn hex_text(b: Seq<u8>) -> Seq<char>
    decreases b.len(),
{
    if b.len() == 0 {
        Seq::empty()
    } else {
        hex_text(b.drop_last()) + seq![hex_digit((b.last() / 16) as nat), hex_digit((b.last() % 16) as nat)]
    }
}

/// The 8-4-4-4-12 hexadecimal text of 16 bytes.
pub open spec fn guid_text(b: Seq<u8>) -> Seq<char> {
    hex_text(b.subrange(0, 4)) + seq!['-'] + hex_text(b.subrange(4, 6)) + seq!['-'] + hex_text(b.subrange(6, 8))
        + seq!['-'] + hex_text(b.subrange(8, 10)) + seq!['-'] + hex_text(b.subrange(10, 16))
}

fn push_hex(out: &mut String, b: &[u8], start: usize, end: usize)
    requires
        start <= end <= b@.len(),
    ensures
        final(out)@ == old(out)@ + hex_text(b@.subrange(start as int, end as int)),
{
    let ghost s0 = out@;
    let mut i: usize = start;
    while i < end
        invariant
            start <= i <= end <= b@.len(),
            out@ == s0 + hex_text(b@.subrange(start as int, i as int)),
        decreases end - i,
    {
        let v = b[i];
        let hi = v / 16;
        let lo = v % 16;
        push_char(out, if hi < 10 { ((48 + hi) as u8) as char } else { ((87 + hi) as u8) as char });
        push_char(out, if lo < 10 { ((48 + lo) as u8) as char } else { ((87 + lo) as u8) as char });
        proof {
            let t = b@.subrange(start as int, i + 1);
            assert(t.drop_last() == b@.subrange(start as int, i as int));
            assert(t.last() == v);
        }
        i = i + 1;
        assert(out@ =~= s0 + hex_text(b@.subrange(start as int, i as int)));
    }
}

impl Guid {
    /// The wire form: the first three fields little-endian.
    pub fn encode(&self) -> (out: [u8; 16])
        ensures
            out@ == guid_swap(self.0@),
    {
        let b = self.0;
        let out: [u8; 16] = [b[3], b[2], b[1], b[0], b[5], b[4], b[7], b[6], b[8], b[9], b[10], b[11], b[12], b[13], b[14], b[15]];
        assert(out@ =~= guid_swap(b@));
        out
    }

    /// Reads a GUID from exactly 16 bytes of wire form.
    pub fn decode(bytes: &[u8]) -> (r: ProtoResult<Guid>)
        ensures
            match r {
                Ok(g) => bytes@.len() == 16 && g.0@ == guid_swap(bytes@),
                Err(e) => bytes@.len() != 16 && e is Parse,
            },
    {
        if bytes.len() != 16 {
            return Err(ProtoError::Parse("guid length"));
        }
        let b = bytes;
        let out: [u8; 16] = [b[3], b[2], b[1], b[0], b[5], b[4], b[7], b[6], b[8], b[9], b[10], b[11], b[12], b[13], b[14], b[15]];
        assert(out@ =~= guid_swap(b@));
        Ok(Guid(out))
    }

    /// The hexadecimal text of the wire form, grouped 8-4-4-4-12.
    pub fn to_string(&self) -> (s: String)
        ensures
            s@ == guid_text(guid_swap(self.0@)),
    {
        let b = self.encode();
        let bs = b.as_slice();
        let mut s = String::new();
        push_hex(&mut s, bs, 0, 4);
        push_char(&mut s, '-');
        push_hex(&mut s, bs, 4, 6);
        push_char(&mut s, '-');
        push_hex(&mut s, bs, 6, 8);
        push_char(&mut s, '-');
        push_hex(&mut s, bs, 8, 10);
        push_char(&mut s, '-');
        push_hex(&mut s, bs, 10, 16);
        assert(s@ =~= guid_text(b@));
        s
    }
}

/// Reversing the GUID fields twice gives the bytes back, so decoding the wire form of a
/// GUID gives the GUID.
pub proof fn lemma_guid_roundtrip(b: Seq<u8>)
    requires
        b.len() == 16,
    ensures
        guid_swap(guid_swap(b)) == b,
{
    assert(guid_swap(guid_swap(b)) =~= b);
}

/// Hundreds of nanoseconds between 1601-01-01 and the Unix epoch.
pub const FILETIME_UNIX_EPOCH: u64 = 116444736000000000;

/// A Windows FILETIME: hundreds of nanoseconds since 1601.
#[derive(Debug, Clone, Copy, PartialEq, Eq, Structural)]
pub struct FileTime(pub u64);

impl FileTime {
    /// The current time (the Unix clock, wrapping at 2^64).
    pub fn now() -> (r: FileTime)
        ensures
            exists|secs: u64, nanos: u32| nanos < 1_000_000_000 && r.0 == #[trigger] filetime_of(secs, nanos),
    {
        let (secs, nanos) = crate::clock::unix_time_now();
        FileTime(filetime_from_unix(secs, nanos))
    }

    /// Whole seconds since the Unix epoch; zero up to and at the epoch.
    pub fn to_unix_seconds(&self) -> (r: u64)
        ensures
            r == if self.0 <= FILETIME_UNIX_EPOCH { 0 } else { ((self.0 - FILETIME_UNIX_EPOCH) / 10_000_000) as u64 },
    {
        if self.0 <= FILETIME_UNIX_EPOCH {
            return 0;
        }
        (self.0 - FILETIME_UNIX_EPOCH) / 10_000_000
    }
}

/// A security identifier.
#[derive(Debug, Clone, PartialEq, Eq)]
pub struct Sid {
    pub revision: u8,
    pub identifier_authority: [u8; 6],
    pub sub_authorities: Vec<u32>,
}

/// The little-endian images of the sub-authorities, one after another.
pub open spec fn subs_bytes(subs: Seq<u32>) -> Seq<u8> {
    concat_map(subs, |x: u32| le32(x))
}

/// The wire form of a SID: revision, sub-authority count (modulo 256), the six authority
/// bytes, then each sub-authority little-endian.
pub open spec fn sid_bytes(revision: u8, authority: Seq<u8>, subs: Seq<u32>) -> Seq<u8> {
    seq![revision, (subs.len() % 256) as u8] + authority + subs_bytes(subs)
}

/// A SID read from `d`: revision, authority and as many sub-authorities as its count byte
/// says; `None` when `d` is shorter than that. Bytes after them are ignored.
pub open spec fn sid_decode(d: Seq<u8>) -> Option<(u8, Seq<u8>, Seq<u32>)> {
    if d.len() < 8 || 8 + 4 * d[1] > d.len() {
        None
    } else {
        Some((d[0], d.subrange(2, 8), Seq::new(d[1] as nat, |i: int| get_le32(d, 8 + 4 * i))))
    }
}

/// The text form: `S-`, the revision, the authority as a 48-bit big-endian number, then
/// each sub-authority, separated by `-`.
pub open spec fn sid_text(revision: u8, authority: Seq<u8>, subs: Seq<u32>) -> Seq<char> {
    seq!['S', '-'] + decimal(revision as nat) + seq!['-'] + decimal(be_value(authority)) + concat_map(
        subs,
        |x: u32| seq!['-'] + decimal(x as nat),
    )
}

proof fn lemma_be_value_bound(b: Seq<u8>)
    ensures
        be_value(b) < crate::ldap::ber::pow256(b.len()),
    decreases b.len(),
{
    if b.len() > 0 {
        lemma_be_value_bound(b.drop_last());
        assert(be_value(b.drop_last()) + 1 <= crate::ldap::ber::pow256(b.drop_last().len()));
        assert(be_value(b) == be_value(b.drop_last()) * 256 + b.last() as nat);
        assert((be_value(b.drop_last()) + 1) * 256 <= crate::ldap::ber::pow256(b.drop_last().len()) * 256) by (nonlinear_arith)
            requires
                be_value(b.drop_last()) + 1 <= crate::ldap::ber::pow256(b.drop_last().len()),
        ;
    }
}

impl Sid {
    /// The wire form.
    pub fn encode(&self) -> (out: Vec<u8>)
        ensures
            out@ == sid_bytes(self.revision, self.identifier_authority@, self.sub_authorities@),
    {
        let ghost f = |x: u32| le32(x);
        let mut out: Vec<u8> = Vec::new();
        out.push(self.revision);
        out.push((self.sub_authorities.len() % 256) as u8);
        push_bytes(&mut out, self.identifier_authority.as_slice());
        let ghost head = out@;
        let mut i: usize = 0;
        while i < self.sub_authorities.len()
            invariant
                i <= self.sub_authorities@.len(),
                f == (|x: u32| le32(x)),
                out@ == head + concat_map(self.sub_authorities@.subrange(0, i as int), f),
            decreases self.sub_authorities.len() - i,
        {
            push_le32(&mut out, self.sub_authorities[i]);
            proof {
                lemma_concat_map_push(self.sub_authorities@.subrange(0, i as int), self.sub_authorities@[i as int], f);
                assert(self.sub_authorities@.subrange(0, i as int).push(self.sub_authorities@[i as int])
                    == self.sub_authorities@.subrange(0, i + 1));
            }
            i = i + 1;
            assert(out@ =~= head + concat_map(self.sub_authorities@.subrange(0, i as int), f));
        }
        assert(self.sub_authorities@.subrange(0, i as int) == self.sub_authorities@);
        assert(out@ =~= sid_bytes(self.revision, self.identifier_authority@, self.sub_authorities@));
        out
    }

    /// Reads a SID from `data`.
    pub fn decode(data: &[u8]) -> (r: ProtoResult<Sid>)
        ensures
            match r {
                Ok(s) => sid_decode(data@) == Some((s.revision, s.identifier_authority@, s.sub_authorities@)),
                Err(e) => sid_decode(data@) is None && e is Parse,
            },
    {
        if data.len() < 8 {
            return Err(ProtoError::Parse("sid too short"));
        }
        let revision = data[0];
        let count = data[1] as usize;
        let auth: [u8; 6] = [data[2], data[3], data[4], data[5], data[6], data[7]];
        assert(auth@ =~= data@.subrange(2, 8));
        let mut subs: Vec<u32> = Vec::new();
        let mut idx: usize = 8;
        let mut k: usize = 0;
        while k < count
            invariant
                data@.len() >= 8,
                count == data@[1],
                k <= count,
                idx == 8 + 4 * k,
                idx <= data@.len(),
                subs@.len() == k,
                forall|j: int| 0 <= j < k ==> subs@[j] == get_le32(data@, 8 + 4 * j),
            decreases count - k,
        {
            if idx + 4 > data.len() {
                return Err(ProtoError::Parse("sid subauthority"));
            }
            subs.push(read_le32(data, idx));
            idx = idx + 4;
            k = k + 1;
        }
        assert(subs@ =~= Seq::new(data@[1] as nat, |i: int| get_le32(data@, 8 + 4 * i)));
        Ok(Sid { revision, identifier_authority: auth, sub_authorities: subs })
    }

    /// The text form, `S-1-5-21-...`.
    pub fn to_string(&self) -> (s: String)
        ensures
            s@ == sid_text(self.revision, self.identifier_authority@, self.sub_authorities@),
    {
        let a = self.identifier_authority;
        let mut auth: u64 = 0;
        let mut i: usize = 0;
        while i < 6
            invariant
                i <= 6,
                a@.len() == 6,
                auth == be_value(a@.subrange(0, i as int)),
                auth < crate::ldap::ber::pow256(i as nat),
            decreases 6 - i,
        {
            proof {
                assert(a@.subrange(0, i + 1).drop_last() == a@.subrange(0, i as int));
                reveal_with_fuel(crate::ldap::ber::pow256, 7);
            }
            auth = auth * 256 + a[i] as u64;
            i = i + 1;
            proof {
                lemma_be_value_bound(a@.subrange(0, i as int));
            }
        }
        assert(a@.subrange(0, 6) == a@);
        let ghost f = |x: u32| seq!['-'] + decimal(x as nat);
        let mut s = String::new();
        push_char(&mut s, 'S');
        push_char(&mut s, '-');
        push_decimal(&mut s, self.revision as u64);
        push_char(&mut s, '-');
        push_decimal(&mut s, auth);
        let ghost head = s@;
        let mut j: usize = 0;
        while j < self.sub_authorities.len()
            invariant
                j <= self.sub_authorities@.len(),
                f == (|x: u32| seq!['-'] + decimal(x as nat)),
                s@ == head + concat_map(self.sub_authorities@.subrange(0, j as int), f),
            decreases self.sub_authorities.len() - j,
        {
            push_char(&mut s, '-');
            push_decimal(&mut s, self.sub_authorities[j] as u64);
            proof {
                lemma_concat_map_push(self.sub_authorities@.subrange(0, j as int), self.sub_authorities@[j as int], f);
                assert(self.sub_authorities@.subrange(0, j as int).push(self.sub_authorities@[j as int])
                    == self.sub_authorities@.subrange(0, j + 1));
            }
            j = j + 1;
            assert(s@ =~= head + concat_map(self.sub_authorities@.subrange(0, j as int), f));
        }
        assert(self.sub_authorities@.subrange(0, j as int) == self.sub_authorities@);
        assert(s@ =~= sid_text(self.revision, self.identifier_authority@, self.sub_authorities@));
        s
    }
}

/// A counted UTF-16 string.
#[derive(Debug, Clone, PartialEq, Eq)]
pub struct UnicodeString {
    pub value: String,
}

/// The wire form: the byte length twice (16 bits, little-endian, modulo 2^16), a zero
/// 32-bit buffer pointer, then the UTF-16LE text.
pub open spec fn ustr_bytes(s: Seq<char>) -> Seq<u8> {
    let n = ((utf16le(s).len() % 65536) as u16);
    le16(n) + le16(n) + le32(0) + utf16le(s)
}

/// The text of a wire-form string: the UTF-16 units in the first `length` bytes after the
/// eight-byte header (an odd last byte is ignored); `None` when `d` is shorter than that
/// or the units are not well-formed UTF-16.
pub open spec fn ustr_decode(d: Seq<u8>) -> Option<Seq<char>> {
    if d.len() < 8 || 8 + get_le16(d, 0) > d.len() {
        None
    } else {
        utf16_decode(le16_units(d.subrange(8, 8 + get_le16(d, 0))))
    }
}

impl UnicodeString {
    /// The wire form.
    pub fn encode(&self) -> (out: Vec<u8>)
        ensures
            out@ == ustr_bytes(self.value@),
    {
        let text = utf16le_bytes(self.value.as_str());
        let n = (text.len() % 65536) as u16;
        let mut out: Vec<u8> = Vec::new();
        push_le16(&mut out, n);
        push_le16(&mut out, n);
        push_le32(&mut out, 0);
        push_bytes(&mut out, text.as_slice());
        assert(out@ =~= ustr_bytes(self.value@));
        out
    }

    /// Reads a wire-form string from `data`.
    pub fn decode(data: &[u8]) -> (r: ProtoResult<UnicodeString>)
        ensures
            match r {
                Ok(s) => ustr_decode(data@) == Some(s.value@),
                Err(e) => ustr_decode(data@) is None && e is Parse,
            },
    {
        if data.len() < 8 {
            return Err(ProtoError::Parse("unicode string too short"));
        }
        let len = read_le16(data, 0) as usize;
        if 8 + len > data.len() {
            return Err(ProtoError::Parse("unicode string bounds"));
        }
        let even = len - len % 2;
        let units = copy_range(data, 8, even);
        proof {
            let whole = data@.subrange(8, 8 + len as int);
            assert(le16_units(units@) =~= le16_units(whole)) by {
                assert forall|i: int| 0 <= i < le16_units(whole).len() implies le16_units(units@)[i] == le16_units(whole)[i] by {
                    assert(units@[2 * i] == whole[2 * i]);
                    assert(units@[2 * i + 1] == whole[2 * i + 1]);
                }
            }
        }
        match decode_utf16le(units.as_slice()) {
            Ok(value) => Ok(UnicodeString { value }),
            Err(_) => Err(ProtoError::Parse("unicode string utf16")),
        }
    }
}

/// One value of a message.
#[derive(Debug, Clone, PartialEq, Eq)]
pub enum DtypValue {
    Guid(Guid),
    FileTime(FileTime),
    Sid(Sid),
    UnicodeString(UnicodeString),
    Raw(Vec<u8>),
}

/// Abstract value of a message value.
pub enum DtypValueModel {
    Guid(Seq<u8>),
    FileTime(u64),
    Sid(u8, Seq<u8>, Seq<u32>),
    UnicodeString(Seq<char>),
    Raw(Seq<u8>),
}

impl View for DtypValue {
    type V = DtypValueModel;

    open spec fn view(&self) -> DtypValueModel {
        match self {
            DtypValue::Guid(g) => DtypValueModel::Guid(g.0@),
            DtypValue::FileTime(t) => DtypValueModel::FileTime(t.0),
            DtypValue::Sid(s) => DtypValueModel::Sid(s.revision, s.identifier_authority@, s.sub_authorities@),
            DtypValue::UnicodeString(u) => DtypValueModel::UnicodeString(u.value@),
            DtypValue::Raw(d) => DtypValueModel::Raw(d@),
        }
    }
}

/// The kind byte and the payload of a value.
pub open spec fn value_parts(v: DtypValueModel) -> (u8, Seq<u8>) {
    match v {
        DtypValueModel::Guid(b) => (1, guid_swap(b)),
        DtypValueModel::FileTime(t) => (2, le64(t)),
        DtypValueModel::Sid(r, a, subs) => (3, sid_bytes(r, a, subs)),
        DtypValueModel::UnicodeString(s) => (4, ustr_bytes(s)),
        DtypValueModel::Raw(d) => (255, d),
    }
}

/// The wire form of a value: kind, payload length (16 bits, little-endian, modulo 2^16),
/// payload.
pub open spec fn value_bytes(v: DtypValueModel) -> Seq<u8> {
    let (kind, payload) = value_parts(v);
    seq![kind] + le16((payload.len() % 65536) as u16) + payload
}

/// The wire form of a message: the value count (16 bits, little-endian, modulo 2^16),
/// then each value.
pub open spec fn message_bytes(values: Seq<DtypValueModel>) -> Seq<u8> {
    le16((values.len() % 65536) as u16) + concat_map(values, |v: DtypValueModel| value_bytes(v))
}

/// The value that a payload of the given kind stands for: kinds 1 to 4 are a GUID, a
/// FILETIME (exactly eight bytes), a SID and a string; any other kind is raw bytes.
#[verifier::opaque]
pub open spec fn value_decode(kind: u8, p: Seq<u8>) -> Option<DtypValueModel> {
    if kind == 1 {
        if p.len() == 16 { Some(DtypValueModel::Guid(guid_swap(p))) } else { None }
    } else if kind == 2 {
        if p.len() == 8 { Some(DtypValueModel::FileTime(get_le64(p, 0))) } else { None }
    } else if kind == 3 {
        match sid_decode(p) {
            Some((r, a, subs)) => Some(DtypValueModel::Sid(r, a, subs)),
            None => None,
        }
    } else if kind == 4 {
        match ustr_decode(p) {
            Some(t) => Some(DtypValueModel::UnicodeString(t)),
            None => None,
        }
    } else {
        Some(DtypValueModel::Raw(p))
    }
}

/// `n` values read one after another from `idx`.
pub open spec fn values_decode(d: Seq<u8>, idx: int, n: nat) -> Option<Seq<DtypValueModel>>
    decreases n,
{
    if n == 0 {
        Some(Seq::empty())
    } else if idx + 3 > d.len() || idx + 3 + get_le16(d, idx + 1) > d.len() {
        None
    } else {
        let end = idx + 3 + get_le16(d, idx + 1);
        match value_decode(d[idx], d.subrange(idx + 3, end)) {
            None => None,
            Some(v) => match values_decode(d, end, (n - 1) as nat) {
                None => None,
                Some(rest) => Some(seq![v] + rest),
            },
        }
    }
}

/// A message read from `d`: as many values as its count says; bytes after them are
/// ignored.
pub open spec fn message_decode(d: Seq<u8>) -> Option<Seq<DtypValueModel>> {
    if d.len() < 2 {
        None
    } else {
        values_decode(d, 2, get_le16(d, 0) as nat)
    }
}

/// A list of values.
#[derive(Debug, Clone, PartialEq, Eq)]
pub struct DtypMessage {
    pub values: Vec<DtypValue>,
}

/// Abstract value of a message: its values.
pub open spec fn values_model(v: Seq<DtypValue>) -> Seq<DtypValueModel> {
    v.map_values(|x: DtypValue| x@)
}

fn encode_value(out: &mut Vec<u8>, value: &DtypValue)
    ensures
        final(out)@ == old(out)@ + value_bytes(value@),
{
    let ghost start = out@;
    let (kind, data): (u8, Vec<u8>) = match value {
        DtypValue::Guid(g) => {
            let b = g.encode();
            let mut v: Vec<u8> = Vec::new();
            push_bytes(&mut v, b.as_slice());
            (1, v)
        },
        DtypValue::FileTime(t) => {
            let mut v: Vec<u8> = Vec::new();
            push_le64(&mut v, t.0);
            (2, v)
        },
        DtypValue::Sid(sid) => (3, sid.encode()),
        DtypValue::UnicodeString(u) => (4, u.encode()),
        DtypValue::Raw(d) => {
            let mut v: Vec<u8> = Vec::new();
            push_bytes(&mut v, d.as_slice());
            (255, v)
        },
    };
    assert((kind, data@) == value_parts(value@));
    out.push(kind);
    push_le16(out, (data.len() % 65536) as u16);
    push_bytes(out, data.as_slice());
    assert(out@ =~= start + value_bytes(value@));
}

impl DtypMessage {
    /// The wire form.
    pub fn encode(&self) -> (out: Vec<u8>)
        ensures
            out@ == message_bytes(values_model(self.values@)),
    {
        let ghost model = values_model(self.values@);
        let ghost f = |v: DtypValueModel| value_bytes(v);
        let mut out: Vec<u8> = Vec::new();
        push_le16(&mut out, (self.values.len() % 65536) as u16);
        let ghost head = out@;
        let mut i: usize = 0;
        while i < self.values.len()
            invariant
                i <= self.values@.len(),
                model == values_model(self.values@),
                f == (|v: DtypValueModel| value_bytes(v)),
                out@ == head + concat_map(model.subrange(0, i as int), f),
            decreases self.values.len() - i,
        {
            encode_value(&mut out, &self.values[i]);
            proof {
                lemma_concat_map_push(model.subrange(0, i as int), model[i as int], f);
                assert(model.subrange(0, i as int).push(model[i as int]) == model.subrange(0, i + 1));
            }
            i = i + 1;
            assert(out@ =~= head + concat_map(model.subrange(0, i as int), f));
        }
        assert(model.subrange(0, i as int) == model);
        assert(out@ =~= message_bytes(model));
        out
    }

    /// Reads a message from `data`.
    pub fn decode(data: &[u8]) -> (r: ProtoResult<DtypMessage>)
        ensures
            match r {
                Ok(m) => message_decode(data@) == Some(values_model(m.values@)),
                Err(e) => message_decode(data@) is None && e is Parse,
            },
    {
        if data.len() < 2 {
            return Err(ProtoError::Parse("dtyp message len"));
        }
        let count = read_le16(data, 0) as usize;
        let mut idx: usize = 2;
        let mut values: Vec<DtypValue> = Vec::new();
        let mut k: usize = 0;
        proof {
            assert forall|rest: Seq<DtypValueModel>| values_model(values@) + rest == rest by {
                assert(values_model(values@) + rest =~= rest);
            }
        }
        while k < count
            invariant
                data@.len() >= 2,
                count == get_le16(data@, 0),
                k <= count,
                2 <= idx <= data@.len(),
                message_decode(data@) == match values_decode(data@, idx as int, (count - k) as nat) {
                    None => None,
                    Some(rest) => Some(values_model(values@) + rest),
                },
            decreases count - k,
        {
            proof {
                reveal(value_decode);
            }
            if data.len() - idx < 3 {
                return Err(ProtoError::Parse("dtyp item header"));
            }
            let kind = data[idx];
            let len = read_le16(data, idx + 1) as usize;
            idx = idx + 3;
            if len > data.len() - idx {
                return Err(ProtoError::Parse("dtyp item bounds"));
            }
            let slice = copy_range(data, idx, len);
            let value = if kind == 1 {
                match Guid::decode(slice.as_slice()) {
                    Ok(g) => DtypValue::Guid(g),
                    Err(e) => {
                        return Err(e);
                    },
                }
            } else if kind == 2 {
                if slice.len() != 8 {
                    return Err(ProtoError::Parse("dtyp filetime len"));
                }
                DtypValue::FileTime(FileTime(read_le64(slice.as_slice(), 0)))
            } else if kind == 3 {
                match Sid::decode(slice.as_slice()) {
                    Ok(s) => DtypValue::Sid(s),
                    Err(e) => {
                        return Err(e);
                    },
                }
            } else if kind == 4 {
                match UnicodeString::decode(slice.as_slice()) {
                    Ok(u) => DtypValue::UnicodeString(u),
                    Err(e) => {
                        return Err(e);
                    },
                }
            } else {
                DtypValue::Raw(slice)
            };
            proof {
                assert(value_decode(kind, slice@) == Some(value@));
                assert(values_model(values@.push(value)) =~= values_model(values@).push(value@));
                assert forall|rest: Seq<DtypValueModel>| values_model(values@) + (seq![value@] + rest)
                    == values_model(values@).push(value@) + rest by {
                    assert(values_model(values@) + (seq![value@] + rest) =~= values_model(values@).push(value@) + rest);
                }
            }
            values.push(value);
            idx = idx + len;
            k = k + 1;
        }
        assert(values_model(values@) + Seq::<DtypValueModel>::empty() =~= values_model(values@));
        Ok(DtypMessage { values })
    }
}

/// What a DTYP server is configured with.
#[derive(Debug, Clone)]
pub struct DtypServerConfig {}

impl Default for DtypServerConfig {
    fn default() -> (r: Self)
        ensures
            r == (DtypServerConfig {}),
    {
        DtypServerConfig {}
    }
}

/// A message on the stream: its length (32 bits, big-endian, modulo 2^32), then its
/// wire form.
pub open spec fn framed(payload: Seq<u8>) -> Seq<u8> {
    be32((payload.len() % 0x1_0000_0000) as u32) + payload
}

/// The bytes that send `message` on a stream.
pub fn frame_message(message: &DtypMessage) -> (out: Vec<u8>)
    ensures
        out@ == framed(message_bytes(values_model(message.values@))),
{
    let payload = message.encode();
    let mut out: Vec<u8> = Vec::new();
    push_be32(&mut out, (payload.len() as u64 % 0x1_0000_0000) as u32);
    push_bytes(&mut out, payload.as_slice());
    out
}

/// The payload length that a frame header announces.
pub fn frame_length(header: [u8; 4]) -> (n: usize)
    ensures
        n == get_be32(header@, 0),
{
    read_be32(header.as_slice(), 0) as usize
}

/// The server's answer to a payload: the message it holds, sent back; a payload that
/// does not decode ends the connection with that error.
pub fn echo_reply(payload: &[u8]) -> (r: ProtoResult<Vec<u8>>)
    ensures
        match r {
            Ok(out) => message_decode(payload@) matches Some(vs) && out@ == framed(message_bytes(vs)),
            Err(e) => message_decode(payload@) is None && e is Parse,
        },
{
    let message = DtypMessage::decode(payload)?;
    Ok(frame_message(&message))
}

/// A value whose wire form reads back as the value: a 16-byte GUID, a SID with a
/// six-byte authority and fewer than 256 sub-authorities, and payloads that a 16-bit
/// length can count.
pub open spec fn value_wf(v: DtypValueModel) -> bool {
    match v {
        DtypValueModel::Guid(b) => b.len() == 16,
        DtypValueModel::FileTime(_) => true,
        DtypValueModel::Sid(_, a, subs) => a.len() == 6 && subs.len() < 256,
        DtypValueModel::UnicodeString(t) => 8 + utf16le(t).len() < 65536,
        DtypValueModel::Raw(d) => d.len() < 65536,
    }
}

/// A message whose wire form reads back as the message: fewer than 2^16 values, each
/// of them well-formed.
pub open spec fn message_wf(vs: Seq<DtypValueModel>) -> bool {
    vs.len() < 65536 && forall|i: int| 0 <= i < vs.len() ==> value_wf(#[trigger] vs[i])
}

proof fn lemma_subs_bytes(subs: Seq<u32>)
    ensures
        subs_bytes(subs).len() == 4 * subs.len(),
        forall|i: int| 0 <= i < subs.len() ==> get_le32(subs_bytes(subs), 4 * i) == #[trigger] subs[i],
    decreases subs.len(),
{
    if subs.len() > 0 {
        let init = subs.drop_last();
        lemma_subs_bytes(init);
        let a = subs_bytes(init);
        let b = subs_bytes(subs);
        assert(b == a + le32(subs.last()));
        assert forall|i: int| 0 <= i < subs.len() implies get_le32(b, 4 * i) == #[trigger] subs[i] by {
            if i < subs.len() - 1 {
                assert(b[4 * i] == a[4 * i] && b[4 * i + 1] == a[4 * i + 1] && b[4 * i + 2] == a[4 * i + 2]
                    && b[4 * i + 3] == a[4 * i + 3]);
                assert(init[i] == subs[i]);
            } else {
                let l = le32(subs.last());
                assert(b[4 * i] == l[0] && b[4 * i + 1] == l[1] && b[4 * i + 2] == l[2] && b[4 * i + 3] == l[3]);
            }
        }
    }
}

proof fn lemma_sid_roundtrip(r: u8, a: Seq<u8>, subs: Seq<u32>)
    requires
        a.len() == 6,
        subs.len() < 256,
    ensures
        sid_decode(sid_bytes(r, a, subs)) == Some((r, a, subs)),
        sid_bytes(r, a, subs).len() == 8 + 4 * subs.len(),
{
    lemma_subs_bytes(subs);
    let d = sid_bytes(r, a, subs);
    let sb = subs_bytes(subs);
    assert(d[1] == subs.len());
    assert(d.subrange(2, 8) =~= a);
    assert forall|i: int| 0 <= i < subs.len() implies get_le32(d, 8 + 4 * i) == #[trigger] subs[i] by {
        assert(d[8 + 4 * i] == sb[4 * i] && d[8 + 4 * i + 1] == sb[4 * i + 1] && d[8 + 4 * i + 2] == sb[4 * i + 2]
            && d[8 + 4 * i + 3] == sb[4 * i + 3]);
    }
    assert(Seq::new(d[1] as nat, |i: int| get_le32(d, 8 + 4 * i)) =~= subs);
}

proof fn lemma_ustr_roundtrip(t: Seq<char>)
    requires
        8 + utf16le(t).len() < 65536,
    ensures
        ustr_decode(ustr_bytes(t)) == Some(t),
        ustr_bytes(t).len() == 8 + utf16le(t).len(),
{
    crate::text::lemma_utf16le_roundtrip(t);
    let u = utf16le(t);
    let n = (u.len() % 65536) as u16;
    let d = ustr_bytes(t);
    crate::wire::lemma_fixed_width_roundtrip(Seq::empty(), le16(n) + le32(0) + u, n, 0, 0);
    assert(d =~= Seq::<u8>::empty() + le16(n) + (le16(n) + le32(0) + u));
    assert(get_le16(d, 0) == u.len());
    assert(d.subrange(8, 8 + u.len() as int) =~= u);
}

proof fn lemma_guid_value(b: Seq<u8>)
    requires
        b.len() == 16,
    ensures
        value_decode(1, guid_swap(b)) == Some(DtypValueModel::Guid(b)),
{
    reveal(value_decode);
    lemma_guid_roundtrip(b);
}

proof fn lemma_filetime_value(t: u64)
    ensures
        value_decode(2, le64(t)) == Some(DtypValueModel::FileTime(t)),
{
    reveal(value_decode);
    crate::wire::lemma_fixed_width_roundtrip(Seq::empty(), Seq::empty(), 0, 0, t);
    assert(Seq::<u8>::empty() + le64(t) + Seq::<u8>::empty() =~= le64(t));
}

proof fn lemma_sid_value(r: u8, a: Seq<u8>, subs: Seq<u32>)
    requires
        a.len() == 6,
        subs.len() < 256,
    ensures
        value_decode(3, sid_bytes(r, a, subs)) == Some(DtypValueModel::Sid(r, a, subs)),
        sid_bytes(r, a, subs).len() < 65536,
{
    reveal(value_decode);
    lemma_sid_roundtrip(r, a, subs);
}

proof fn lemma_ustr_value(t: Seq<char>)
    requires
        8 + utf16le(t).len() < 65536,
    ensures
        value_decode(4, ustr_bytes(t)) == Some(DtypValueModel::UnicodeString(t)),
        ustr_bytes(t).len() < 65536,
{
    reveal(value_decode);
    lemma_ustr_roundtrip(t);
}

proof fn lemma_value_roundtrip(v: DtypValueModel)
    requires
        value_wf(v),
    ensures
        value_decode(value_parts(v).0, value_parts(v).1) == Some(v),
        value_parts(v).1.len() < 65536,
{
    match v {
        DtypValueModel::Guid(b) => lemma_guid_value(b),
        DtypValueModel::FileTime(t) => lemma_filetime_value(t),
        DtypValueModel::Sid(r, a, subs) => lemma_sid_value(r, a, subs),
        DtypValueModel::UnicodeString(t) => lemma_ustr_value(t),
        DtypValueModel::Raw(d) => {
            reveal(value_decode);
        },
    }
}

#[verifier::spinoff_prover]
proof fn lemma_item_header(pre: Seq<u8>, kind: u8, payload: Seq<u8>, tail: Seq<u8>)
    requires
        payload.len() < 65536,
    ensures
        ({
            let d = pre + (seq![kind] + le16(payload.len() as u16) + payload) + tail;
            let p = pre.len() as int;
            &&& d[p] == kind
            &&& get_le16(d, p + 1) == payload.len()
            &&& p + 3 + payload.len() <= d.len()
            &&& d.subrange(p + 3, p + 3 + payload.len()) == payload
        }),
{
    let len = payload.len();
    let d = pre + (seq![kind] + le16(len as u16) + payload) + tail;
    let p = pre.len() as int;
    assert(d =~= (pre + seq![kind]) + le16(len as u16) + (payload + tail));
    crate::wire::lemma_fixed_width_roundtrip(pre + seq![kind], payload + tail, len as u16, 0, 0);
    assert(d.subrange(p + 3, p + 3 + len) =~= payload);
}

#[verifier::spinoff_prover]
proof fn lemma_values_roundtrip(pre: Seq<u8>, vs: Seq<DtypValueModel>, post: Seq<u8>)
    requires
        forall|i: int| 0 <= i < vs.len() ==> value_wf(#[trigger] vs[i]),
    ensures
        values_decode(pre + concat_map(vs, |v: DtypValueModel| value_bytes(v)) + post, pre.len() as int, vs.len())
            == Some(vs),
    decreases vs.len(),
{
    let f = |v: DtypValueModel| value_bytes(v);
    let d = pre + concat_map(vs, f) + post;
    if vs.len() > 0 {
        crate::wire::lemma_concat_map_front(vs, f);
        let v0 = vs[0];
        assert(value_wf(v0));
        lemma_value_roundtrip(v0);
        let rest = vs.drop_first();
        assert forall|i: int| 0 <= i < rest.len() implies value_wf(#[trigger] rest[i]) by {
            assert(rest[i] == vs[i + 1]);
        }
        let tail = concat_map(rest, f) + post;
        let kind = value_parts(v0).0;
        let payload = value_parts(v0).1;
        assert(value_bytes(v0) == seq![kind] + le16(payload.len() as u16) + payload);
        assert(d =~= pre + value_bytes(v0) + tail);
        lemma_item_header(pre, kind, payload, tail);
        let pre2 = pre + value_bytes(v0);
        assert(d =~= pre2 + concat_map(rest, f) + post);
        lemma_values_roundtrip(pre2, rest, post);
        assert(seq![v0] + rest =~= vs);
    }
}

/// Decoding the wire form of a well-formed message gives its values back.
pub proof fn lemma_message_roundtrip(vs: Seq<DtypValueModel>)
    requires
        message_wf(vs),
    ensures
        message_decode(message_bytes(vs)) == Some(vs),
{
    let f = |v: DtypValueModel| value_bytes(v);
    let n = vs.len() as u16;
    let body = concat_map(vs, f);
    crate::wire::lemma_fixed_width_roundtrip(Seq::empty(), body, n, 0, 0);
    assert(message_bytes(vs) =~= Seq::<u8>::empty() + le16(n) + body);
    lemma_values_roundtrip(le16(n), vs, Seq::empty());
    assert(le16(n) + body + Seq::<u8>::empty() =~= message_bytes(vs));
}

} // verus!
