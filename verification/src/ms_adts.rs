//! Key credential link structures (the `msDS-KeyCredentialLink` blob).
use vstd::prelude::*;
use crate::error::{ProtoError, ProtoResult};
use crate::wire::{concat_map, lemma_concat_map_front, lemma_concat_map_push, lemma_fixed_width_roundtrip, le16, le32, get_le16, get_le32, push_le16, push_le32, push_bytes, read_le16, read_le32, copy_range};

verus! {

/// One tagged entry of a key credential blob.
#[derive(Debug, Clone, PartialEq, Eq)]
pub struct KeyCredentialEntry {
    pub identifier: u8,
    pub data: Vec<u8>,
}

/// A versioned list of key credential entries.
#[derive(Debug, Clone, PartialEq, Eq)]
pub struct KeyCredentialStruct {
    pub version: u32,
    pub entries: Vec<KeyCredentialEntry>,
}

/// Abstract value of an entry: its identifier and its payload.
pub type EntryModel = (u8, Seq<u8>);

impl View for KeyCredentialEntry {
    type V = EntryModel;

    open spec fn view(&self) -> EntryModel {
        (self.identifier, self.data@)
    }
}

/// Abstract value of a key credential blob: its version and its entries.
pub open spec fn struct_model(ks: KeyCredentialStruct) -> (u32, Seq<EntryModel>) {
    (ks.version, ks.entries@.map_values(|e: KeyCredentialEntry| e@))
}

/// Wire image of an entry: payload length (16 bits, little-endian), identifier, payload.
pub open spec fn encode_entry(e: EntryModel) -> Seq<u8> {
    le16((e.1.len() % 65536) as u16) + seq![e.0] + e.1
}

/// Wire image of a blob: the version, then each entry.
pub open spec fn encode_struct(version: u32, entries: Seq<EntryModel>) -> Seq<u8> {
    le32(version) + concat_map(entries, |e: EntryModel| encode_entry(e))
}

/// The entry at the front of `s` and the bytes it takes, if `s` starts with a whole entry.
pub open spec fn decode_entry(s: Seq<u8>) -> Option<(EntryModel, int)> {
    if s.len() < 3 {
        None
    } else {
        let len = get_le16(s, 0) as int;
        if s.len() < 3 + len {
            None
        } else {
            Some(((s[2], s.subrange(3, 3 + len)), 3 + len))
        }
    }
}

/// The entries that fill `s` exactly, if it is a sequence of whole entries.
pub open spec fn decode_entries(s: Seq<u8>) -> Option<Seq<EntryModel>>
    decreases s.len(),
{
    if s.len() == 0 {
        Some(Seq::empty())
    } else {
        match decode_entry(s) {
            None => None,
            Some((e, n)) => match decode_entries(s.subrange(n, s.len() as int)) {
                None => None,
                Some(rest) => Some(seq![e] + rest),
            },
        }
    }
}

impl KeyCredentialEntry {
    /// Encodes the entry.
    pub fn encode(&self) -> (out: Vec<u8>)
        ensures
            out@ == encode_entry(self@),
    {
        let mut out = Vec::new();
        let len = (self.data.len() % 65536) as u16;
        push_le16(&mut out, len);
        out.push(self.identifier);
        push_bytes(&mut out, self.data.as_slice());
        out
    }

    /// Decodes the entry at the front of `data`, with the number of bytes it takes.
    pub fn decode(data: &[u8]) -> (r: ProtoResult<(KeyCredentialEntry, usize)>)
        ensures
            match r {
                Ok((e, n)) => decode_entry(data@) == Some((e@, n as int)),
                Err(err) => decode_entry(data@) is None && err is Parse,
            },
    {
        if data.len() < 3 {
            return Err(ProtoError::Parse("ms_adts entry too short"));
        }
        let len = read_le16(data, 0) as usize;
        if data.len() < 3 + len {
            return Err(ProtoError::Parse("ms_adts entry length invalid"));
        }
        let identifier = data[2];
        let payload = copy_range(data, 3, len);
        Ok((KeyCredentialEntry { identifier, data: payload }, 3 + len))
    }
}

impl KeyCredentialStruct {
    /// Encodes the blob.
    pub fn encode(&self) -> (out: Vec<u8>)
        ensures
            out@ == encode_struct(struct_model(*self).0, struct_model(*self).1),
    {
        let mut out = Vec::new();
        push_le32(&mut out, self.version);
        let ghost f = |e: EntryModel| encode_entry(e);
        let ghost model = self.entries@.map_values(|e: KeyCredentialEntry| e@);
        let mut i: usize = 0;
        while i < self.entries.len()
            invariant
                i <= self.entries.len(),
                model == self.entries@.map_values(|e: KeyCredentialEntry| e@),
                f == (|e: EntryModel| encode_entry(e)),
                out@ == le32(self.version) + concat_map(model.subrange(0, i as int), f),
            decreases self.entries.len() - i,
        {
            let bytes = self.entries[i].encode();
            assert(model[i as int] == self.entries@[i as int]@);
            push_bytes(&mut out, bytes.as_slice());
            proof {
                lemma_concat_map_push(model.subrange(0, i as int), model[i as int], f);
                assert(model.subrange(0, i as int).push(model[i as int]) == model.subrange(0, i + 1));
                assert(f(model[i as int]) == encode_entry(model[i as int]));
                assert(out@ =~= le32(self.version) + (concat_map(model.subrange(0, i as int), f) + f(model[i as int])));
            }
            i = i + 1;
        }
        assert(model.subrange(0, i as int) == model);
        out
    }

    /// Decodes a blob: a version followed by whole entries up to the end of `data`.
    pub fn decode(data: &[u8]) -> (r: ProtoResult<KeyCredentialStruct>)
        ensures
            match r {
                Ok(ks) => data@.len() >= 4 && ks.version == get_le32(data@, 0)
                    && decode_entries(data@.subrange(4, data@.len() as int)) == Some(struct_model(ks).1),
                Err(err) => (data@.len() < 4 || decode_entries(data@.subrange(4, data@.len() as int)) is None)
                    && err is Parse,
            },
    {
        if data.len() < 4 {
            return Err(ProtoError::Parse("ms_adts struct too short"));
        }
        let version = read_le32(data, 0);
        let mut entries: Vec<KeyCredentialEntry> = Vec::new();
        let mut offset: usize = 4;
        while offset < data.len()
            invariant
                4 <= offset <= data@.len(),
                decode_entries(data@.subrange(4, data@.len() as int)) == match decode_entries(data@.subrange(offset as int, data@.len() as int)) {
                    None => None,
                    Some(rest) => Some(entries@.map_values(|e: KeyCredentialEntry| e@) + rest),
                },
            decreases data.len() - offset,
        {
            let ghost suffix = data@.subrange(offset as int, data@.len() as int);
            let (entry, read) = match KeyCredentialEntry::decode(&data[offset..data.len()]) {
                Ok(v) => v,
                Err(e) => {
                    return Err(e);
                }
            };
            proof {
                assert(data@.subrange(offset as int, data@.len() as int) == suffix);
                assert(suffix.subrange(read as int, suffix.len() as int) == data@.subrange(offset + read, data@.len() as int));
                assert(entries@.push(entry).map_values(|e: KeyCredentialEntry| e@) == entries@.map_values(|e: KeyCredentialEntry| e@).push(entry@));
                assert forall|rest: Seq<EntryModel>| entries@.map_values(|e: KeyCredentialEntry| e@) + (seq![entry@] + rest) == entries@.map_values(|e: KeyCredentialEntry| e@).push(entry@) + rest by {
                    assert(entries@.map_values(|e: KeyCredentialEntry| e@) + (seq![entry@] + rest) =~= entries@.map_values(|e: KeyCredentialEntry| e@).push(entry@) + rest);
                }
            }
            entries.push(entry);
            offset = offset + read;
        }
        proof {
            assert(data@.subrange(offset as int, data@.len() as int).len() == 0);
            assert(entries@.map_values(|e: KeyCredentialEntry| e@) + Seq::<EntryModel>::empty() == entries@.map_values(|e: KeyCredentialEntry| e@));
        }
        Ok(KeyCredentialStruct { version, entries })
    }
}

/// Decoding the image of a list of entries gives the list back, when no payload
/// exceeds what a 16-bit length can count.
pub proof fn lemma_entries_roundtrip(entries: Seq<EntryModel>)
    requires
        forall|i: int| 0 <= i < entries.len() ==> #[trigger] entries[i].1.len() <= 65535,
    ensures
        decode_entries(concat_map(entries, |e: EntryModel| encode_entry(e))) == Some(entries),
    decreases entries.len(),
{
    let f = |e: EntryModel| encode_entry(e);
    if entries.len() == 0 {
        assert(concat_map(entries, f).len() == 0);
        assert(entries == Seq::<EntryModel>::empty());
    } else {
        lemma_concat_map_front(entries, f);
        let e = entries[0];
        let s = concat_map(entries, f);
        let rest = concat_map(entries.drop_first(), f);
        assert(entries[0].1.len() <= 65535);
        lemma_fixed_width_roundtrip(Seq::empty(), seq![e.0] + e.1 + rest, (e.1.len() % 65536) as u16, 0, 0);
        assert(s == Seq::<u8>::empty() + le16((e.1.len() % 65536) as u16) + (seq![e.0] + e.1 + rest));
        assert(s.subrange(3, 3 + e.1.len() as int) == e.1);
        assert(s[2] == e.0);
        assert(s.subrange(3 + e.1.len() as int, s.len() as int) == rest);
        assert forall|i: int| 0 <= i < entries.drop_first().len() implies #[trigger] entries.drop_first()[i].1.len() <= 65535 by {
            assert(entries.drop_first()[i] == entries[i + 1]);
        }
        lemma_entries_roundtrip(entries.drop_first());
        assert(seq![e] + entries.drop_first() == entries);
    }
}

/// A key credential blob decodes back to the blob that was encoded, when no
/// entry payload exceeds 65535 bytes.
pub proof fn lemma_struct_roundtrip(version: u32, entries: Seq<EntryModel>)
    requires
        forall|i: int| 0 <= i < entries.len() ==> #[trigger] entries[i].1.len() <= 65535,
    ensures
        ({
            let s = encode_struct(version, entries);
            &&& s.len() >= 4
            &&& get_le32(s, 0) == version
            &&& decode_entries(s.subrange(4, s.len() as int)) == Some(entries)
        }),
{
    let f = |e: EntryModel| encode_entry(e);
    let body = concat_map(entries, f);
    lemma_fixed_width_roundtrip(Seq::empty(), body, 0, version, 0);
    assert(encode_struct(version, entries) == Seq::<u8>::empty() + le32(version) + body);
    assert(encode_struct(version, entries).subrange(4, encode_struct(version, entries).len() as int) == body);
    lemma_entries_roundtrip(entries);
}

} // verus!
