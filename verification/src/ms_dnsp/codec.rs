//! MS-DNSP records and messages, and the codec between them and their bytes.
use vstd::prelude::*;
use vstd::utf8::encode_utf8;
use crate::error::{ProtoError, ProtoResult};
use crate::text::{lossy_text, string_from_utf8_lossy, utf8_bytes};
use crate::wire::{be32, copy_range, get_be32, get_le16, get_le32, le16, le32, push_be32, push_bytes, push_le16, push_le32, read_be32, read_le16, read_le32};

verus! {

/// The UDP port an MS-DNSP server listens on by default.
pub const MSDNSP_DEFAULT_PORT: u16 = 5354;

/// The record types, by their 16-bit code.
#[derive(Debug, Clone, Copy, PartialEq, Eq, Structural)]
pub enum MsDnspRecordType {
    A,
    NS,
    CNAME,
    SOA,
    PTR,
    MX,
    TXT,
    AAAA,
    SRV,
    WINS,
    WINSR,
}

/// The code of each record type.
pub open spec fn rtype_code(t: MsDnspRecordType) -> u16 {
    match t {
        MsDnspRecordType::A => 0x0001,
        MsDnspRecordType::NS => 0x0002,
        MsDnspRecordType::CNAME => 0x0005,
        MsDnspRecordType::SOA => 0x0006,
        MsDnspRecordType::PTR => 0x000c,
        MsDnspRecordType::MX => 0x000f,
        MsDnspRecordType::TXT => 0x0010,
        MsDnspRecordType::AAAA => 0x001c,
        MsDnspRecordType::SRV => 0x0021,
        MsDnspRecordType::WINS => 0xff01,
        MsDnspRecordType::WINSR => 0xff02,
    }
}

/// The record type of a code; an unknown code reads as TXT.
pub open spec fn rtype_of(c: u16) -> MsDnspRecordType {
    if c == 0x0001 {
        MsDnspRecordType::A
    } else if c == 0x0002 {
        MsDnspRecordType::NS
    } else if c == 0x0005 {
        MsDnspRecordType::CNAME
    } else if c == 0x0006 {
        MsDnspRecordType::SOA
    } else if c == 0x000c {
        MsDnspRecordType::PTR
    } else if c == 0x000f {
        MsDnspRecordType::MX
    } else if c == 0x001c {
        MsDnspRecordType::AAAA
    } else if c == 0x0021 {
        MsDnspRecordType::SRV
    } else if c == 0xff01 {
        MsDnspRecordType::WINS
    } else if c == 0xff02 {
        MsDnspRecordType::WINSR
    } else {
        MsDnspRecordType::TXT
    }
}

impl MsDnspRecordType {
    /// The code of this record type.
    pub fn code(self) -> (c: u16)
        ensures
            c == rtype_code(self),
    {
        match self {
            MsDnspRecordType::A => 0x0001,
            MsDnspRecordType::NS => 0x0002,
            MsDnspRecordType::CNAME => 0x0005,
            MsDnspRecordType::SOA => 0x0006,
            MsDnspRecordType::PTR => 0x000c,
            MsDnspRecordType::MX => 0x000f,
            MsDnspRecordType::TXT => 0x0010,
            MsDnspRecordType::AAAA => 0x001c,
            MsDnspRecordType::SRV => 0x0021,
            MsDnspRecordType::WINS => 0xff01,
            MsDnspRecordType::WINSR => 0xff02,
        }
    }

    /// The record type of a code; an unknown code reads as TXT.
    pub fn from_code(c: u16) -> (t: MsDnspRecordType)
        ensures
            t == rtype_of(c),
    {
        if c == 0x0001 {
            MsDnspRecordType::A
        } else if c == 0x0002 {
            MsDnspRecordType::NS
        } else if c == 0x0005 {
            MsDnspRecordType::CNAME
        } else if c == 0x0006 {
            MsDnspRecordType::SOA
        } else if c == 0x000c {
            MsDnspRecordType::PTR
        } else if c == 0x000f {
            MsDnspRecordType::MX
        } else if c == 0x001c {
            MsDnspRecordType::AAAA
        } else if c == 0x0021 {
            MsDnspRecordType::SRV
        } else if c == 0xff01 {
            MsDnspRecordType::WINS
        } else if c == 0xff02 {
            MsDnspRecordType::WINSR
        } else {
            MsDnspRecordType::TXT
        }
    }
}

/// The data of a record: an IPv4 or IPv6 address, or raw bytes.
#[derive(Debug, Clone, PartialEq, Eq)]
pub enum MsDnspRData {
    A([u8; 4]),
    AAAA([u8; 16]),
    Raw(Vec<u8>),
}

/// The data of a record as a value.
pub enum RDataModel {
    A(Seq<u8>),
    AAAA(Seq<u8>),
    Raw(Seq<u8>),
}

impl View for MsDnspRData {
    type V = RDataModel;

    open spec fn view(&self) -> RDataModel {
        match self {
            MsDnspRData::A(b) => RDataModel::A(b@),
            MsDnspRData::AAAA(b) => RDataModel::AAAA(b@),
            MsDnspRData::Raw(b) => RDataModel::Raw(b@),
        }
    }
}

/// The bytes of record data.
pub open spec fn rdata_bytes(d: RDataModel) -> Seq<u8> {
    match d {
        RDataModel::A(b) => b,
        RDataModel::AAAA(b) => b,
        RDataModel::Raw(b) => b,
    }
}

/// A DNS record as the server stores it.
#[derive(Debug, Clone, PartialEq, Eq)]
pub struct MsDnspRecord {
    pub record_type: MsDnspRecordType,
    pub version: u8,
    pub rank: u8,
    pub flags: u16,
    pub serial: u32,
    pub ttl_seconds: u32,
    pub reserved: u32,
    pub timestamp: u32,
    pub data: MsDnspRData,
}

/// A record as a value.
pub struct RecordModel {
    pub record_type: MsDnspRecordType,
    pub version: u8,
    pub rank: u8,
    pub flags: u16,
    pub serial: u32,
    pub ttl_seconds: u32,
    pub reserved: u32,
    pub timestamp: u32,
    pub data: RDataModel,
}

impl View for MsDnspRecord {
    type V = RecordModel;

    open spec fn view(&self) -> RecordModel {
        RecordModel {
            record_type: self.record_type,
            version: self.version,
            rank: self.rank,
            flags: self.flags,
            serial: self.serial,
            ttl_seconds: self.ttl_seconds,
            reserved: self.reserved,
            timestamp: self.timestamp,
            data: self.data@,
        }
    }
}

/// The bytes of a record: the data length, the type, version, rank, flags, serial (all
/// little-endian), the TTL big-endian, the reserved word and timestamp little-endian, then
/// the data.
pub open spec fn record_bytes(r: RecordModel) -> Seq<u8> {
    let data = rdata_bytes(r.data);
    le16((data.len() % 65536) as u16) + le16(rtype_code(r.record_type)) + seq![r.version, r.rank] + le16(r.flags)
        + le32(r.serial) + be32(r.ttl_seconds) + le32(r.reserved) + le32(r.timestamp) + data
}

/// The record that `d` starts with, and the position after it. Four bytes of an A record
/// read as an address, sixteen of an AAAA record too, anything else as raw bytes.
pub open spec fn record_read(d: Seq<u8>) -> Option<(RecordModel, int)> {
    if d.len() < 24 {
        None
    } else {
        let n = get_le16(d, 0) as int;
        let t = rtype_of(get_le16(d, 2));
        let end = 24 + n;
        if end > d.len() {
            None
        } else {
            let raw = d.subrange(24, end);
            let data = if t == MsDnspRecordType::A && n == 4 {
                RDataModel::A(raw)
            } else if t == MsDnspRecordType::AAAA && n == 16 {
                RDataModel::AAAA(raw)
            } else {
                RDataModel::Raw(raw)
            };
            Some(
                (
                    RecordModel {
                        record_type: t,
                        version: d[4],
                        rank: d[5],
                        flags: get_le16(d, 6),
                        serial: get_le32(d, 8),
                        ttl_seconds: get_be32(d, 12),
                        reserved: get_le32(d, 16),
                        timestamp: get_le32(d, 20),
                        data,
                    },
                    end,
                ),
            )
        }
    }
}

fn rdata_vec(d: &MsDnspRData) -> (r: Vec<u8>)
    ensures
        r@ == rdata_bytes(d@),
{
    match d {
        MsDnspRData::A(b) => copy_range(b, 0, 4),
        MsDnspRData::AAAA(b) => copy_range(b, 0, 16),
        MsDnspRData::Raw(b) => copy_range(b.as_slice(), 0, b.len()),
    }
}

impl MsDnspRecord {
    /// A copy of the record.
    pub fn copy(&self) -> (r: MsDnspRecord)
        ensures
            r@ == self@,
    {
        let data = match &self.data {
            MsDnspRData::A(b) => MsDnspRData::A(*b),
            MsDnspRData::AAAA(b) => MsDnspRData::AAAA(*b),
            MsDnspRData::Raw(b) => {
                let v = copy_range(b.as_slice(), 0, b.len());
                assert(v@ =~= b@);
                MsDnspRData::Raw(v)
            },
        };
        MsDnspRecord {
            record_type: self.record_type,
            version: self.version,
            rank: self.rank,
            flags: self.flags,
            serial: self.serial,
            ttl_seconds: self.ttl_seconds,
            reserved: self.reserved,
            timestamp: self.timestamp,
            data,
        }
    }

    /// The bytes of the record.
    pub fn encode(&self) -> (r: Vec<u8>)
        ensures
            r@ == record_bytes(self@),
    {
        let data = rdata_vec(&self.data);
        let mut out: Vec<u8> = Vec::new();
        push_le16(&mut out, (data.len() % 65536) as u16);
        push_le16(&mut out, self.record_type.code());
        out.push(self.version);
        out.push(self.rank);
        push_le16(&mut out, self.flags);
        push_le32(&mut out, self.serial);
        push_be32(&mut out, self.ttl_seconds);
        push_le32(&mut out, self.reserved);
        push_le32(&mut out, self.timestamp);
        push_bytes(&mut out, data.as_slice());
        assert(out@ =~= record_bytes(self@));
        out
    }

    /// The record that `data` starts with, and the position after it.
    pub fn decode(data: &[u8]) -> (r: ProtoResult<(MsDnspRecord, usize)>)
        ensures
            r is Ok <==> record_read(data@) is Some,
            r matches Ok((rec, end)) ==> record_read(data@) == Some((rec@, end as int)),
    {
        if data.len() < 24 {
            return Err(ProtoError::Parse("ms_dnsp record too short"));
        }
        let n = read_le16(data, 0) as usize;
        let record_type = MsDnspRecordType::from_code(read_le16(data, 2));
        if data.len() - 24 < n {
            return Err(ProtoError::Parse("ms_dnsp rdata out of bounds"));
        }
        let end = 24 + n;
        let rdata = if record_type == MsDnspRecordType::A && n == 4 {
            let b = [data[24], data[25], data[26], data[27]];
            assert(b@ =~= data@.subrange(24, end as int));
            MsDnspRData::A(b)
        } else if record_type == MsDnspRecordType::AAAA && n == 16 {
            let mut arr = [0u8; 16];
            let mut k: usize = 0;
            while k < 16
                invariant
                    k <= 16,
                    n == 16,
                    end == 24 + n,
                    end <= data.len(),
                    forall|j: int| 0 <= j < k ==> arr@[j] == data@[24 + j],
                decreases 16 - k,
            {
                arr.set(k, data[24 + k]);
                k = k + 1;
            }
            assert(arr@ =~= data@.subrange(24, end as int));
            MsDnspRData::AAAA(arr)
        } else {
            MsDnspRData::Raw(copy_range(data, 24, n))
        };
        Ok(
            (
                MsDnspRecord {
                    record_type,
                    version: data[4],
                    rank: data[5],
                    flags: read_le16(data, 6),
                    serial: read_le32(data, 8),
                    ttl_seconds: read_be32(data, 12),
                    reserved: read_le32(data, 16),
                    timestamp: read_le32(data, 20),
                    data: rdata,
                },
                end,
            ),
        )
    }
}

/// A record under a name.
#[derive(Debug, Clone, PartialEq, Eq)]
pub struct MsDnspEntry {
    pub name: String,
    pub record: MsDnspRecord,
}

/// What a message asks or answers.
#[derive(Debug, Clone, Copy, PartialEq, Eq, Structural)]
pub enum MsDnspOpcode {
    Query,
    Update,
    Response,
}

/// The code of each opcode.
pub open spec fn opcode_code(o: MsDnspOpcode) -> u16 {
    match o {
        MsDnspOpcode::Query => 1,
        MsDnspOpcode::Update => 2,
        MsDnspOpcode::Response => 3,
    }
}

/// The opcode of a code; an unknown code reads as a query.
pub open spec fn opcode_of(c: u16) -> MsDnspOpcode {
    if c == 2 {
        MsDnspOpcode::Update
    } else if c == 3 {
        MsDnspOpcode::Response
    } else {
        MsDnspOpcode::Query
    }
}

/// A message: an id, an opcode, flags (bit 0: success) and entries.
#[derive(Debug, Clone)]
pub struct MsDnspMessage {
    pub id: u16,
    pub opcode: MsDnspOpcode,
    pub flags: u16,
    pub entries: Vec<MsDnspEntry>,
}

/// The entries as values: name and record.
pub open spec fn entries_view(es: Seq<MsDnspEntry>) -> Seq<(Seq<char>, RecordModel)> {
    es.map_values(|e: MsDnspEntry| (e.name@, e.record@))
}

/// An entry on the wire: the name's length and UTF-8 bytes, then the record's length and
/// bytes, both lengths 16 bits little-endian (cut to 16 bits).
pub open spec fn entry_bytes(e: (Seq<char>, RecordModel)) -> Seq<u8> {
    let n = encode_utf8(e.0);
    let r = record_bytes(e.1);
    le16((n.len() % 65536) as u16) + n + le16((r.len() % 65536) as u16) + r
}

/// The entries, one after the other.
pub open spec fn entries_bytes(es: Seq<(Seq<char>, RecordModel)>) -> Seq<u8>
    decreases es.len(),
{
    if es.len() == 0 {
        Seq::empty()
    } else {
        entries_bytes(es.drop_last()) + entry_bytes(es.last())
    }
}

/// The bytes of a message.
pub open spec fn message_bytes(id: u16, opcode: MsDnspOpcode, flags: u16, es: Seq<(Seq<char>, RecordModel)>) -> Seq<u8> {
    le16(id) + le16(opcode_code(opcode)) + le16(flags) + le16((es.len() % 65536) as u16) + entries_bytes(es)
}

/// Reads `n` entries from `i` on.
pub open spec fn entries_read(d: Seq<u8>, i: int, n: nat) -> Option<Seq<(Seq<char>, RecordModel)>>
    decreases n,
{
    if n == 0 {
        Some(Seq::empty())
    } else if i < 0 || i + 2 > d.len() {
        None
    } else {
        let nl = get_le16(d, i) as int;
        let j = i + 2 + nl;
        if j + 2 > d.len() {
            None
        } else {
            let rl = get_le16(d, j) as int;
            let k = j + 2 + rl;
            if k > d.len() {
                None
            } else {
                match record_read(d.subrange(j + 2, k)) {
                    None => None,
                    Some((r, _)) => match entries_read(d, k, (n - 1) as nat) {
                        None => None,
                        Some(rest) => Some(seq![(lossy_text(d.subrange(i + 2, j)), r)] + rest),
                    },
                }
            }
        }
    }
}

/// The message that `d` holds: id, opcode, flags and entries.
pub open spec fn message_read(d: Seq<u8>) -> Option<(u16, MsDnspOpcode, u16, Seq<(Seq<char>, RecordModel)>)> {
    if d.len() < 8 {
        None
    } else {
        match entries_read(d, 8, get_le16(d, 6) as nat) {
            None => None,
            Some(es) => Some((get_le16(d, 0), opcode_of(get_le16(d, 2)), get_le16(d, 4), es)),
        }
    }
}

/// `r` with `done` in front of it.
pub open spec fn prepend_entries(done: Seq<(Seq<char>, RecordModel)>, r: Option<Seq<(Seq<char>, RecordModel)>>) -> Option<
    Seq<(Seq<char>, RecordModel)>,
> {
    match r {
        Some(rest) => Some(done + rest),
        None => None,
    }
}

impl MsDnspMessage {
    /// The bytes of the message.
    pub fn encode(&self) -> (r: Vec<u8>)
        ensures
            r@ == message_bytes(self.id, self.opcode, self.flags, entries_view(self.entries@)),
    {
        let mut out: Vec<u8> = Vec::new();
        push_le16(&mut out, self.id);
        let oc: u16 = match self.opcode {
            MsDnspOpcode::Query => 1,
            MsDnspOpcode::Update => 2,
            MsDnspOpcode::Response => 3,
        };
        push_le16(&mut out, oc);
        push_le16(&mut out, self.flags);
        push_le16(&mut out, (self.entries.len() % 65536) as u16);
        let ghost head = out@;
        let mut i: usize = 0;
        while i < self.entries.len()
            invariant
                i <= self.entries.len(),
                out@ == head + entries_bytes(entries_view(self.entries@.subrange(0, i as int))),
            decreases self.entries.len() - i,
        {
            let entry = &self.entries[i];
            let name = utf8_bytes(entry.name.as_str());
            push_le16(&mut out, (name.len() % 65536) as u16);
            push_bytes(&mut out, name.as_slice());
            let record = entry.record.encode();
            push_le16(&mut out, (record.len() % 65536) as u16);
            push_bytes(&mut out, record.as_slice());
            proof {
                let v = entries_view(self.entries@.subrange(0, i + 1));
                assert(v.drop_last() =~= entries_view(self.entries@.subrange(0, i as int)));
                assert(v.last() == (entry.name@, entry.record@));
            }
            i = i + 1;
        }
        assert(self.entries@.subrange(0, i as int) =~= self.entries@);
        out
    }

    /// The message that `data` holds; an unknown opcode reads as a query.
    pub fn decode(data: &[u8]) -> (r: ProtoResult<MsDnspMessage>)
        ensures
            r is Ok <==> message_read(data@) is Some,
            r matches Ok(m) ==> message_read(data@) == Some((m.id, m.opcode, m.flags, entries_view(m.entries@))),
    {
        if data.len() < 8 {
            return Err(ProtoError::Parse("ms_dnsp message too short"));
        }
        let id = read_le16(data, 0);
        let oc = read_le16(data, 2);
        let opcode = if oc == 2 {
            MsDnspOpcode::Update
        } else if oc == 3 {
            MsDnspOpcode::Response
        } else {
            MsDnspOpcode::Query
        };
        let flags = read_le16(data, 4);
        let count = read_le16(data, 6) as usize;
        let mut entries: Vec<MsDnspEntry> = Vec::new();
        let mut idx: usize = 8;
        let mut c: usize = 0;
        assert(entries_view(entries@) =~= Seq::<(Seq<char>, RecordModel)>::empty());
        assert(forall|x: Seq<(Seq<char>, RecordModel)>| Seq::<(Seq<char>, RecordModel)>::empty() + x =~= x);
        while c < count
            invariant
                c <= count,
                idx <= data.len(),
                data.len() >= 8,
                count == get_le16(data@, 6),
                entries_read(data@, 8, count as nat) == prepend_entries(
                    entries_view(entries@),
                    entries_read(data@, idx as int, (count - c) as nat),
                ),
            decreases count - c,
        {
            let ghost left = (count - c) as nat;
            assert(left > 0);
            if data.len() - idx < 2 {
                assert(entries_read(data@, idx as int, left) is None);
                return Err(ProtoError::Parse("ms_dnsp entry name len"));
            }
            let nl = read_le16(data, idx) as usize;
            if data.len() - idx - 2 < nl {
                assert(entries_read(data@, idx as int, left) is None);
                return Err(ProtoError::Parse("ms_dnsp entry name"));
            }
            let raw = copy_range(data, idx + 2, nl);
            let name = string_from_utf8_lossy(raw.as_slice());
            let j = idx + 2 + nl;
            if data.len() - j < 2 {
                return Err(ProtoError::Parse("ms_dnsp record len"));
            }
            let rl = read_le16(data, j) as usize;
            if data.len() - j - 2 < rl {
                return Err(ProtoError::Parse("ms_dnsp record data"));
            }
            let rbytes = copy_range(data, j + 2, rl);
            let (record, _) = match MsDnspRecord::decode(rbytes.as_slice()) {
                Ok(x) => x,
                Err(e) => {
                    return Err(e);
                },
            };
            let ghost before = entries_view(entries@);
            let ghost ev = (name@, record@);
            entries.push(MsDnspEntry { name, record });
            proof {
                assert(entries_view(entries@) =~= before.push(ev));
                match entries_read(data@, (j + 2 + rl) as int, (count - c - 1) as nat) {
                    Some(rest) => {
                        assert(before + (seq![ev] + rest) =~= before.push(ev) + rest);
                    },
                    None => {},
                }
            }
            idx = j + 2 + rl;
            c = c + 1;
        }
        assert(entries_view(entries@) + Seq::<(Seq<char>, RecordModel)>::empty() =~= entries_view(entries@));
        Ok(MsDnspMessage { id, opcode, flags, entries })
    }
}

} // verus!
