//! MS-NRTP name registration: the message codec, the name table and the server's answers.
use vstd::prelude::*;
use vstd::utf8::encode_utf8;
use crate::error::{ProtoError, ProtoResult};
use crate::text::{lossy_text, str_eq, string_from_utf8_lossy, utf8_bytes};
use crate::wire::{at, be16, copy_range, get_be16, lemma_at_split, lemma_read_at, push_be16, push_bytes, read_be16};

verus! {

/// The UDP port an NRTP server listens on by default.
pub const MSNRTP_DEFAULT_PORT: u16 = 5355;

/// The kinds of message, by their type byte.
#[derive(Debug, Clone, Copy, PartialEq, Eq, Structural)]
pub enum NrtpMessageType {
    Register,
    Resolve,
    Unregister,
    Response,
}

/// The type byte of each kind.
pub open spec fn nrtp_type_code(t: NrtpMessageType) -> u8 {
    match t {
        NrtpMessageType::Register => 1,
        NrtpMessageType::Resolve => 2,
        NrtpMessageType::Unregister => 3,
        NrtpMessageType::Response => 4,
    }
}

/// An endpoint: an IPv4 or IPv6 address and a port.
#[derive(Debug, Clone, Copy, PartialEq, Eq)]
pub enum NrtpEndpoint {
    V4 { ip: [u8; 4], port: u16 },
    V6 { ip: [u8; 16], port: u16 },
}

/// A message: its kind, id, name, endpoints and status.
#[derive(Debug, Clone)]
pub struct NrtpMessage {
    pub msg_type: NrtpMessageType,
    pub id: u16,
    pub name: String,
    pub addresses: Vec<NrtpEndpoint>,
    pub status: u8,
}

/// The bytes of an endpoint: 4 or 6, the port big-endian, then the address.
pub open spec fn endpoint_bytes(e: NrtpEndpoint) -> Seq<u8> {
    match e {
        NrtpEndpoint::V4 { ip, port } => seq![4u8] + be16(port) + ip@,
        NrtpEndpoint::V6 { ip, port } => seq![6u8] + be16(port) + ip@,
    }
}

/// The endpoints, one after the other.
pub open spec fn endpoints_bytes(es: Seq<NrtpEndpoint>) -> Seq<u8>
    decreases es.len(),
{
    if es.len() == 0 {
        Seq::empty()
    } else {
        endpoints_bytes(es.drop_last()) + endpoint_bytes(es.last())
    }
}

/// The bytes of a message: the magic `NRTP`, the type, the id big-endian, the status, the
/// name's length (16 bits, cut) and UTF-8 bytes, the number of endpoints (8 bits, cut), the
/// endpoints.
pub open spec fn nrtp_bytes(t: NrtpMessageType, id: u16, status: u8, name: Seq<char>, es: Seq<NrtpEndpoint>) -> Seq<u8> {
    let n = encode_utf8(name);
    seq![78u8, 82, 84, 80, nrtp_type_code(t)] + be16(id) + seq![status] + be16((n.len() % 65536) as u16) + n + seq![
        (es.len() % 256) as u8,
    ] + endpoints_bytes(es)
}

/// Reads `n` endpoints from `i` on.
pub open spec fn endpoints_read(d: Seq<u8>, i: int, n: nat) -> Option<Seq<NrtpEndpoint>>
    decreases n,
{
    if n == 0 {
        Some(Seq::empty())
    } else if i < 0 || i + 3 > d.len() {
        None
    } else {
        let kind = d[i];
        let port = get_be16(d, i + 1);
        let j = i + 3;
        if kind == 4 {
            if j + 4 > d.len() {
                None
            } else {
                match endpoints_read(d, j + 4, (n - 1) as nat) {
                    None => None,
                    Some(rest) => Some(
                        seq![NrtpEndpoint::V4 { ip: seq_to_4(d.subrange(j, j + 4)), port }] + rest,
                    ),
                }
            }
        } else if kind == 6 {
            if j + 16 > d.len() {
                None
            } else {
                match endpoints_read(d, j + 16, (n - 1) as nat) {
                    None => None,
                    Some(rest) => Some(
                        seq![NrtpEndpoint::V6 { ip: seq_to_16(d.subrange(j, j + 16)), port }] + rest,
                    ),
                }
            }
        } else {
            None
        }
    }
}

/// The array of four bytes whose view is `s`.
pub open spec fn seq_to_4(s: Seq<u8>) -> [u8; 4] {
    choose|a: [u8; 4]| a@ == s
}

/// The array of sixteen bytes whose view is `s`.
pub open spec fn seq_to_16(s: Seq<u8>) -> [u8; 16] {
    choose|a: [u8; 16]| a@ == s
}

/// The kind of a type byte.
pub open spec fn nrtp_type_of(b: u8) -> Option<NrtpMessageType> {
    if b == 1 {
        Some(NrtpMessageType::Register)
    } else if b == 2 {
        Some(NrtpMessageType::Resolve)
    } else if b == 3 {
        Some(NrtpMessageType::Unregister)
    } else if b == 4 {
        Some(NrtpMessageType::Response)
    } else {
        None
    }
}

/// The message that `d` holds: kind, id, status, name and endpoints.
pub open spec fn nrtp_read(d: Seq<u8>) -> Option<(NrtpMessageType, u16, u8, Seq<char>, Seq<NrtpEndpoint>)> {
    if d.len() < 9 || d.subrange(0, 4) != seq![78u8, 82, 84, 80] {
        None
    } else {
        match nrtp_type_of(d[4]) {
            None => None,
            Some(t) => {
                let nl = get_be16(d, 8) as int;
                let i = 10 + nl;
                if i > d.len() || i >= d.len() {
                    None
                } else {
                    match endpoints_read(d, i + 1, d[i] as nat) {
                        None => None,
                        Some(es) => Some((t, get_be16(d, 5), d[7], lossy_text(d.subrange(10, i)), es)),
                    }
                }
            }
        }
    }
}

/// The inputs on which reading a message would look past its end: nine bytes with the magic
/// and a known type, where the name's length is read from bytes 8 and 9.
pub open spec fn nrtp_overruns(d: Seq<u8>) -> bool {
    d.len() == 9 && d.subrange(0, 4) == seq![78u8, 82, 84, 80] && nrtp_type_of(d[4]) is Some
}

/// `r` with `done` in front of it.
pub open spec fn prepend_endpoints(done: Seq<NrtpEndpoint>, r: Option<Seq<NrtpEndpoint>>) -> Option<Seq<NrtpEndpoint>> {
    match r {
        Some(rest) => Some(done + rest),
        None => None,
    }
}

impl NrtpMessage {
    /// The bytes of the message.
    pub fn encode(&self) -> (r: Vec<u8>)
        ensures
            r@ == nrtp_bytes(self.msg_type, self.id, self.status, self.name@, self.addresses@),
    {
        let t: u8 = match self.msg_type {
            NrtpMessageType::Register => 1,
            NrtpMessageType::Resolve => 2,
            NrtpMessageType::Unregister => 3,
            NrtpMessageType::Response => 4,
        };
        let mut out: Vec<u8> = vec![78u8, 82, 84, 80, t];
        push_be16(&mut out, self.id);
        out.push(self.status);
        let n = utf8_bytes(self.name.as_str());
        push_be16(&mut out, (n.len() % 65536) as u16);
        push_bytes(&mut out, n.as_slice());
        out.push((self.addresses.len() % 256) as u8);
        let ghost head = out@;
        let mut i: usize = 0;
        while i < self.addresses.len()
            invariant
                i <= self.addresses.len(),
                out@ == head + endpoints_bytes(self.addresses@.subrange(0, i as int)),
            decreases self.addresses.len() - i,
        {
            match self.addresses[i] {
                NrtpEndpoint::V4 { ip, port } => {
                    out.push(4);
                    push_be16(&mut out, port);
                    push_bytes(&mut out, &ip);
                },
                NrtpEndpoint::V6 { ip, port } => {
                    out.push(6);
                    push_be16(&mut out, port);
                    push_bytes(&mut out, &ip);
                },
            }
            proof {
                let v = self.addresses@.subrange(0, i + 1);
                assert(v.drop_last() =~= self.addresses@.subrange(0, i as int));
            }
            i = i + 1;
        }
        assert(self.addresses@.subrange(0, i as int) =~= self.addresses@);
        assert(out@ =~= nrtp_bytes(self.msg_type, self.id, self.status, self.name@, self.addresses@));
        out
    }

    /// The message that `data` holds.
    pub fn decode(data: &[u8]) -> (r: ProtoResult<NrtpMessage>)
        requires
            !nrtp_overruns(data@),
        ensures
            r is Ok <==> nrtp_read(data@) is Some,
            r matches Ok(m) ==> nrtp_read(data@) == Some((m.msg_type, m.id, m.status, m.name@, m.addresses@)),
    {
        if data.len() < 9 {
            return Err(ProtoError::Parse("nrtp packet too short"));
        }
        if !(data[0] == 78 && data[1] == 82 && data[2] == 84 && data[3] == 80) {
            assert(data@.subrange(0, 4)[0] == data@[0]);
            assert(data@.subrange(0, 4)[1] == data@[1]);
            assert(data@.subrange(0, 4)[2] == data@[2]);
            assert(data@.subrange(0, 4)[3] == data@[3]);
            return Err(ProtoError::Parse("nrtp bad magic"));
        }
        assert(data@.subrange(0, 4) =~= seq![78u8, 82, 84, 80]);
        let msg_type = if data[4] == 1 {
            NrtpMessageType::Register
        } else if data[4] == 2 {
            NrtpMessageType::Resolve
        } else if data[4] == 3 {
            NrtpMessageType::Unregister
        } else if data[4] == 4 {
            NrtpMessageType::Response
        } else {
            return Err(ProtoError::Parse("nrtp invalid type"));
        };
        let id = read_be16(data, 5);
        let status = data[7];
        let nl = read_be16(data, 8) as usize;
        if data.len() - 10 < nl {
            return Err(ProtoError::Parse("nrtp name bounds"));
        }
        let raw = copy_range(data, 10, nl);
        let name = string_from_utf8_lossy(raw.as_slice());
        let i = 10 + nl;
        if i >= data.len() {
            return Err(ProtoError::Parse("nrtp addr count"));
        }
        let count = data[i] as usize;
        let mut idx = i + 1;
        let mut addresses: Vec<NrtpEndpoint> = Vec::new();
        let mut c: usize = 0;
        assert(forall|x: Seq<NrtpEndpoint>| Seq::<NrtpEndpoint>::empty() + x =~= x);
        while c < count
            invariant
                c <= count,
                idx <= data.len(),
                data.len() >= 9,
                data@.subrange(0, 4) == seq![78u8, 82, 84, 80],
                nrtp_type_of(data@[4]) is Some,
                i == 10 + get_be16(data@, 8),
                i < data.len(),
                count == data@[i as int],
                endpoints_read(data@, i + 1, count as nat) == prepend_endpoints(
                    addresses@,
                    endpoints_read(data@, idx as int, (count - c) as nat),
                ),
            decreases count - c,
        {
            let ghost left = (count - c) as nat;
            if data.len() - idx < 3 {
                assert(endpoints_read(data@, idx as int, left) is None);
                return Err(ProtoError::Parse("nrtp addr header"));
            }
            let kind = data[idx];
            let port = read_be16(data, idx + 1);
            let j = idx + 3;
            let ghost before = addresses@;
            if kind == 4 {
                if data.len() - j < 4 {
                    assert(endpoints_read(data@, idx as int, left) is None);
                    return Err(ProtoError::Parse("nrtp addr v4"));
                }
                let ip = [data[j], data[j + 1], data[j + 2], data[j + 3]];
                assert(ip@ =~= data@.subrange(j as int, j + 4));
                let e = NrtpEndpoint::V4 { ip, port };
                addresses.push(e);
                proof {
                    assert(seq_to_4(data@.subrange(j as int, j + 4))@ == ip@);
                    assert(seq_to_4(data@.subrange(j as int, j + 4)) == ip);
                    assert(addresses@ =~= before.push(e));
                    match endpoints_read(data@, j + 4, (left - 1) as nat) {
                        Some(rest) => {
                            assert(before + (seq![e] + rest) =~= before.push(e) + rest);
                        },
                        None => {},
                    }
                }
                idx = j + 4;
            } else if kind == 6 {
                if data.len() - j < 16 {
                    assert(endpoints_read(data@, idx as int, left) is None);
                    return Err(ProtoError::Parse("nrtp addr v6"));
                }
                let mut ip = [0u8; 16];
                let mut k: usize = 0;
                while k < 16
                    invariant
                        k <= 16,
                        j + 16 <= data.len(),
                        forall|q: int| 0 <= q < k ==> ip@[q] == data@[j + q],
                    decreases 16 - k,
                {
                    ip.set(k, data[j + k]);
                    k = k + 1;
                }
                assert(ip@ =~= data@.subrange(j as int, j + 16));
                let e = NrtpEndpoint::V6 { ip, port };
                addresses.push(e);
                proof {
                    assert(seq_to_16(data@.subrange(j as int, j + 16))@ == ip@);
                    assert(seq_to_16(data@.subrange(j as int, j + 16)) == ip);
                    assert(addresses@ =~= before.push(e));
                    match endpoints_read(data@, j + 16, (left - 1) as nat) {
                        Some(rest) => {
                            assert(before + (seq![e] + rest) =~= before.push(e) + rest);
                        },
                        None => {},
                    }
                }
                idx = j + 16;
            } else {
                assert(endpoints_read(data@, idx as int, left) is None);
                return Err(ProtoError::Parse("nrtp addr type"));
            }
            c = c + 1;
        }
        assert(addresses@ + Seq::<NrtpEndpoint>::empty() =~= addresses@);
        Ok(NrtpMessage { msg_type, id, name, addresses, status })
    }
}

// ---------------------------------------------------------------------------
// The name table
// ---------------------------------------------------------------------------

/// The table as a value: each name with its endpoints.
pub type TableModel = Seq<(Seq<char>, Seq<NrtpEndpoint>)>;

/// The position of `name` in a table.
pub open spec fn table_index_from(t: TableModel, name: Seq<char>, i: int) -> Option<int>
    decreases t.len() - i,
{
    if i < 0 || i >= t.len() {
        None
    } else if t[i].0 == name {
        Some(i)
    } else {
        table_index_from(t, name, i + 1)
    }
}

/// The endpoints of `name`; none for an unknown name.
pub open spec fn table_resolve(t: TableModel, name: Seq<char>) -> Seq<NrtpEndpoint> {
    match table_index_from(t, name, 0) {
        Some(i) => t[i].1,
        None => Seq::empty(),
    }
}

/// The table after registering `name` with `es`, replacing what it had.
pub open spec fn table_register(t: TableModel, name: Seq<char>, es: Seq<NrtpEndpoint>) -> TableModel {
    match table_index_from(t, name, 0) {
        Some(i) => t.update(i, (name, es)),
        None => t.push((name, es)),
    }
}

/// The table after removing `name`.
pub open spec fn table_unregister(t: TableModel, name: Seq<char>) -> TableModel {
    match table_index_from(t, name, 0) {
        Some(i) => t.remove(i),
        None => t,
    }
}

/// No name occurs twice.
pub open spec fn table_wf(t: TableModel) -> bool {
    forall|i: int, j: int| 0 <= i < j < t.len() ==> (#[trigger] t[i]).0 != (#[trigger] t[j]).0
}

/// The registered names and their endpoints.
pub struct NameTable {
    entries: Vec<(String, Vec<NrtpEndpoint>)>,
}

impl View for NameTable {
    type V = TableModel;

    closed spec fn view(&self) -> TableModel {
        self.entries@.map_values(|e: (String, Vec<NrtpEndpoint>)| (e.0@, e.1@))
    }
}

impl NameTable {
    /// No name is registered twice.
    #[verifier::type_invariant]
    spec fn names_distinct(self) -> bool {
        table_wf(self@)
    }
}

proof fn lemma_table_index(t: TableModel, name: Seq<char>, i: int)
    requires
        0 <= i,
    ensures
        table_index_from(t, name, i) matches Some(j) ==> i <= j < t.len() && t[j].0 == name,
        table_index_from(t, name, i) is None ==> forall|j: int| i <= j < t.len() ==> t[j].0 != name,
    decreases t.len() - i,
{
    if i < t.len() && t[i].0 != name {
        lemma_table_index(t, name, i + 1);
    }
}

/// Resolving a name gives what was last registered for it, or nothing after it was
/// unregistered; other names are unaffected.
pub proof fn lemma_table_laws(t: TableModel, name: Seq<char>, es: Seq<NrtpEndpoint>, other: Seq<char>)
    requires
        table_wf(t),
    ensures
        table_resolve(table_register(t, name, es), name) == es,
        table_resolve(table_unregister(t, name), name) == Seq::<NrtpEndpoint>::empty(),
        other != name ==> table_resolve(table_register(t, name, es), other) == table_resolve(t, other),
        other != name ==> table_resolve(table_unregister(t, name), other) == table_resolve(t, other),
        table_wf(table_register(t, name, es)),
        table_wf(table_unregister(t, name)),
{
    lemma_table_index(t, name, 0);
    lemma_table_index(t, other, 0);
    let r = table_register(t, name, es);
    let u = table_unregister(t, name);
    lemma_table_index(r, name, 0);
    lemma_table_index(r, other, 0);
    lemma_table_index(u, name, 0);
    lemma_table_index(u, other, 0);
    match table_index_from(t, name, 0) {
        Some(k) => {
            assert(r[k].0 == name);
            assert forall|a: int, b: int| 0 <= a < b < r.len() implies (#[trigger] r[a]).0 != (#[trigger] r[b]).0 by {
                assert(r[a].0 == t[a].0 && r[b].0 == t[b].0);
            }
            assert forall|a: int, b: int| 0 <= a < b < u.len() implies (#[trigger] u[a]).0 != (#[trigger] u[b]).0 by {
                let x = if a < k { a } else { a + 1 };
                let y = if b < k { b } else { b + 1 };
                assert(u[a] == t[x] && u[b] == t[y]);
            }
            assert forall|j: int| 0 <= j < u.len() implies u[j].0 != name by {
                let x = if j < k { j } else { j + 1 };
                assert(u[j] == t[x]);
                if x != k {
                    assert(t[x].0 != t[k].0);
                }
            }
            if other != name {
                match table_index_from(t, other, 0) {
                    Some(m) => {
                        assert(r[m] == t[m]);
                        assert(table_index_from(r, other, 0) == Some(m));
                        let x = if m < k { m } else { m - 1 };
                        assert(u[x] == t[m]);
                        assert(table_index_from(u, other, 0) == Some(x));
                    },
                    None => {
                        assert forall|j: int| 0 <= j < u.len() implies u[j].0 != other by {
                            let x = if j < k { j } else { j + 1 };
                            assert(u[j] == t[x]);
                        }
                    },
                }
            }
        },
        None => {
            assert(r[t.len() as int] == (name, es));
            assert forall|a: int, b: int| 0 <= a < b < r.len() implies (#[trigger] r[a]).0 != (#[trigger] r[b]).0 by {
                if b < t.len() {
                    assert(r[a] == t[a] && r[b] == t[b]);
                }
            }
            if other != name {
                match table_index_from(t, other, 0) {
                    Some(m) => {
                        assert(r[m] == t[m]);
                        assert(table_index_from(r, other, 0) == Some(m));
                    },
                    None => {},
                }
            }
        },
    }
}

impl NameTable {
    /// An empty table.
    pub fn new() -> (t: NameTable)
        ensures
            t@ == Seq::<(Seq<char>, Seq<NrtpEndpoint>)>::empty(),
    {
        NameTable { entries: Vec::new() }
    }

    fn find(&self, name: &str) -> (r: Option<usize>)
        ensures
            r matches Some(i) ==> table_index_from(self@, name@, 0) == Some(i as int) && i < self@.len(),
            r is None ==> table_index_from(self@, name@, 0) is None,
    {
        proof {
            lemma_table_index(self@, name@, 0);
        }
        let mut i: usize = 0;
        while i < self.entries.len()
            invariant
                i <= self.entries.len(),
                table_index_from(self@, name@, 0) == table_index_from(self@, name@, i as int),
            decreases self.entries.len() - i,
        {
            assert(self@[i as int].0 == self.entries@[i as int].0@);
            if str_eq(self.entries[i].0.as_str(), name) {
                return Some(i);
            }
            i = i + 1;
        }
        None
    }

    /// Registers `name` with `addresses`, replacing what it had.
    pub fn register(&mut self, name: String, addresses: Vec<NrtpEndpoint>)
        ensures
            final(self)@ == table_register(old(self)@, name@, addresses@),
            table_wf(final(self)@),
    {
        proof {
            use_type_invariant(&*self);
            lemma_table_laws(self@, name@, addresses@, name@);
        }
        let ghost before = self@;
        let ghost nv = name@;
        let ghost av = addresses@;
        let found = self.find(name.as_str());
        let mut entries: Vec<(String, Vec<NrtpEndpoint>)> = Vec::new();
        std::mem::swap(&mut entries, &mut self.entries);
        assert(entries@.map_values(|e: (String, Vec<NrtpEndpoint>)| (e.0@, e.1@)) == before);
        match found {
            Some(i) => {
                entries.set(i, (name, addresses));
                assert(entries@.map_values(|e: (String, Vec<NrtpEndpoint>)| (e.0@, e.1@)) =~= before.update(i as int, (nv, av)));
            },
            None => {
                entries.push((name, addresses));
                assert(entries@.map_values(|e: (String, Vec<NrtpEndpoint>)| (e.0@, e.1@)) =~= before.push((nv, av)));
            },
        }
        self.entries = entries;
    }

    /// The endpoints of `name`; none for an unknown name.
    pub fn resolve(&self, name: &str) -> (r: Vec<NrtpEndpoint>)
        ensures
            r@ == table_resolve(self@, name@),
    {
        match self.find(name) {
            Some(i) => self.entries[i].1.clone(),
            None => Vec::new(),
        }
    }

    /// Removes `name`.
    pub fn unregister(&mut self, name: &str)
        ensures
            final(self)@ == table_unregister(old(self)@, name@),
            table_wf(final(self)@),
    {
        proof {
            use_type_invariant(&*self);
            lemma_table_laws(self@, name@, Seq::empty(), name@);
        }
        let ghost before = self@;
        match self.find(name) {
            Some(i) => {
                let mut entries: Vec<(String, Vec<NrtpEndpoint>)> = Vec::new();
                std::mem::swap(&mut entries, &mut self.entries);
                assert(entries@.map_values(|e: (String, Vec<NrtpEndpoint>)| (e.0@, e.1@)) == before);
                entries.remove(i);
                assert(entries@.map_values(|e: (String, Vec<NrtpEndpoint>)| (e.0@, e.1@)) =~= before.remove(i as int));
                self.entries = entries;
            },
            None => {},
        }
    }
}

/// The server's answer to a message: a registration or removal updates the table and is
/// echoed as a response with status 0; a resolution is answered with the name's endpoints;
/// a response is sent back as it is.
pub fn handle_nrtp_message(table: &mut NameTable, msg: NrtpMessage) -> (r: NrtpMessage)
    ensures
        table_wf(final(table)@),
        msg.msg_type != NrtpMessageType::Response ==> r.msg_type == NrtpMessageType::Response && r.status == 0
            && r.id == msg.id && r.name@ == msg.name@,
        msg.msg_type == NrtpMessageType::Register ==> final(table)@ == table_register(
            old(table)@,
            msg.name@,
            msg.addresses@,
        ) && r.addresses@ == msg.addresses@,
        msg.msg_type == NrtpMessageType::Resolve ==> final(table)@ == old(table)@ && r.addresses@ == table_resolve(
            old(table)@,
            msg.name@,
        ),
        msg.msg_type == NrtpMessageType::Unregister ==> final(table)@ == table_unregister(old(table)@, msg.name@)
            && r.addresses@ == msg.addresses@,
        msg.msg_type == NrtpMessageType::Response ==> final(table)@ == old(table)@ && r.msg_type == msg.msg_type
            && r.status == msg.status && r.id == msg.id && r.name@ == msg.name@ && r.addresses@ == msg.addresses@,
{
    proof {
        use_type_invariant(&*table);
    }
    match msg.msg_type {
        NrtpMessageType::Register => {
            table.register(msg.name.clone(), msg.addresses.clone());
            NrtpMessage { status: 0, msg_type: NrtpMessageType::Response, ..msg }
        },
        NrtpMessageType::Resolve => {
            let addresses = table.resolve(msg.name.as_str());
            NrtpMessage { msg_type: NrtpMessageType::Response, status: 0, addresses, ..msg }
        },
        NrtpMessageType::Unregister => {
            table.unregister(msg.name.as_str());
            NrtpMessage { status: 0, msg_type: NrtpMessageType::Response, ..msg }
        },
        NrtpMessageType::Response => msg,
    }
}

/// The request a client sends: status 0.
pub fn nrtp_request(msg_type: NrtpMessageType, id: u16, name: &str, addresses: Vec<NrtpEndpoint>) -> (m: NrtpMessage)
    ensures
        m.msg_type == msg_type && m.id == id && m.name@ == name@ && m.addresses@ == addresses@ && m.status == 0,
{
    NrtpMessage { msg_type, id, name: String::from_str(name), addresses, status: 0 }
}

/// Whether a response reports success: status 0.
pub fn nrtp_succeeded(resp: &NrtpMessage) -> (r: ProtoResult<()>)
    ensures
        r is Ok <==> resp.status == 0,
{
    if resp.status == 0 {
        Ok(())
    } else {
        Err(ProtoError::Message("nrtp request failed"))
    }
}

} // verus!
