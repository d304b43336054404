//! NAT-PMP (RFC 6886) requests and responses.
use vstd::prelude::*;
use crate::error::{ProtoError, ProtoResult};
use crate::wire::{be16, be32, get_be16, get_be32, lemma_read_at, push_be16, push_be32, read_be16, read_be32};

verus! {

pub const NATPMP_DEFAULT_PORT: u16 = 5351;

/// The operations of NAT-PMP.
#[derive(Debug, Clone, Copy, PartialEq, Eq, Hash)]
pub enum NatPmpOpcode {
    PublicAddress,
    MapUdp,
    MapTcp,
}

/// The wire value of an operation.
pub open spec fn opcode_value(op: NatPmpOpcode) -> u8 {
    match op {
        NatPmpOpcode::PublicAddress => 0,
        NatPmpOpcode::MapUdp => 1,
        NatPmpOpcode::MapTcp => 2,
    }
}

/// The operation a wire value names, if any.
pub open spec fn opcode_of(v: u8) -> Option<NatPmpOpcode> {
    if v == 0 {
        Some(NatPmpOpcode::PublicAddress)
    } else if v == 1 {
        Some(NatPmpOpcode::MapUdp)
    } else if v == 2 {
        Some(NatPmpOpcode::MapTcp)
    } else {
        None
    }
}

impl NatPmpOpcode {
    /// The wire value of the operation.
    pub fn to_u8(self) -> (r: u8)
        ensures
            r == opcode_value(self),
    {
        match self {
            NatPmpOpcode::PublicAddress => 0,
            NatPmpOpcode::MapUdp => 1,
            NatPmpOpcode::MapTcp => 2,
        }
    }

    /// The operation a wire value names.
    pub fn from_u8(value: u8) -> (r: ProtoResult<NatPmpOpcode>)
        ensures
            match r {
                Ok(op) => opcode_of(value) == Some(op),
                Err(e) => opcode_of(value) is None && e is Parse,
            },
    {
        if value == 0 {
            Ok(NatPmpOpcode::PublicAddress)
        } else if value == 1 {
            Ok(NatPmpOpcode::MapUdp)
        } else if value == 2 {
            Ok(NatPmpOpcode::MapTcp)
        } else {
            Err(ProtoError::Parse("natpmp invalid opcode"))
        }
    }
}

/// The result codes of NAT-PMP.
#[derive(Debug, Clone, Copy, PartialEq, Eq)]
pub enum NatPmpResultCode {
    Success,
    UnsupportedVersion,
    NotAuthorized,
    NetworkFailure,
    OutOfResources,
    UnsupportedOpcode,
}

/// The wire value of a result code.
pub open spec fn result_value(r: NatPmpResultCode) -> u16 {
    match r {
        NatPmpResultCode::Success => 0,
        NatPmpResultCode::UnsupportedVersion => 1,
        NatPmpResultCode::NotAuthorized => 2,
        NatPmpResultCode::NetworkFailure => 3,
        NatPmpResultCode::OutOfResources => 4,
        NatPmpResultCode::UnsupportedOpcode => 5,
    }
}

/// The result code a wire value names; unknown values read as a network failure.
pub open spec fn result_of(v: u16) -> NatPmpResultCode {
    if v == 0 {
        NatPmpResultCode::Success
    } else if v == 1 {
        NatPmpResultCode::UnsupportedVersion
    } else if v == 2 {
        NatPmpResultCode::NotAuthorized
    } else if v == 4 {
        NatPmpResultCode::OutOfResources
    } else if v == 5 {
        NatPmpResultCode::UnsupportedOpcode
    } else {
        NatPmpResultCode::NetworkFailure
    }
}

impl NatPmpResultCode {
    /// The wire value of the result code.
    pub fn to_u16(self) -> (r: u16)
        ensures
            r == result_value(self),
    {
        match self {
            NatPmpResultCode::Success => 0,
            NatPmpResultCode::UnsupportedVersion => 1,
            NatPmpResultCode::NotAuthorized => 2,
            NatPmpResultCode::NetworkFailure => 3,
            NatPmpResultCode::OutOfResources => 4,
            NatPmpResultCode::UnsupportedOpcode => 5,
        }
    }

    /// The result code a wire value names.
    pub fn from_u16(value: u16) -> (r: NatPmpResultCode)
        ensures
            r == result_of(value),
    {
        if value == 0 {
            NatPmpResultCode::Success
        } else if value == 1 {
            NatPmpResultCode::UnsupportedVersion
        } else if value == 2 {
            NatPmpResultCode::NotAuthorized
        } else if value == 4 {
            NatPmpResultCode::OutOfResources
        } else if value == 5 {
            NatPmpResultCode::UnsupportedOpcode
        } else {
            NatPmpResultCode::NetworkFailure
        }
    }
}

/// A request from a client to its gateway.
#[derive(Debug, Clone, PartialEq, Eq)]
pub enum NatPmpRequest {
    PublicAddress,
    Mapping { opcode: NatPmpOpcode, internal_port: u16, requested_external_port: u16, lifetime: u32 },
}

/// Wire image of a request.
pub open spec fn request_bytes(r: NatPmpRequest) -> Seq<u8> {
    match r {
        NatPmpRequest::PublicAddress => seq![0u8, 0, 0, 0, 0, 0, 0, 0, 0, 0, 0, 0],
        NatPmpRequest::Mapping { opcode, internal_port, requested_external_port, lifetime } => seq![0u8, opcode_value(opcode), 0, 0]
            + be16(internal_port) + be16(requested_external_port) + be32(lifetime),
    }
}

/// The request `d` holds, if it is one.
pub open spec fn request_decode(d: Seq<u8>) -> Option<NatPmpRequest> {
    if d.len() < 2 || d[0] != 0 {
        None
    } else {
        match opcode_of(d[1]) {
            None => None,
            Some(NatPmpOpcode::PublicAddress) => Some(NatPmpRequest::PublicAddress),
            Some(op) => if d.len() < 12 {
                None
            } else {
                Some(NatPmpRequest::Mapping {
                    opcode: op,
                    internal_port: get_be16(d, 4),
                    requested_external_port: get_be16(d, 6),
                    lifetime: get_be32(d, 8),
                })
            },
        }
    }
}

impl NatPmpRequest {
    /// The request for the gateway's public address.
    pub fn public_address() -> (r: NatPmpRequest)
        ensures
            r == NatPmpRequest::PublicAddress,
    {
        NatPmpRequest::PublicAddress
    }

    /// The request to map a UDP port.
    pub fn map_udp(internal_port: u16, requested_external_port: u16, lifetime: u32) -> (r: NatPmpRequest)
        ensures
            r == (NatPmpRequest::Mapping { opcode: NatPmpOpcode::MapUdp, internal_port, requested_external_port, lifetime }),
    {
        NatPmpRequest::Mapping { opcode: NatPmpOpcode::MapUdp, internal_port, requested_external_port, lifetime }
    }

    /// The request to map a TCP port.
    pub fn map_tcp(internal_port: u16, requested_external_port: u16, lifetime: u32) -> (r: NatPmpRequest)
        ensures
            r == (NatPmpRequest::Mapping { opcode: NatPmpOpcode::MapTcp, internal_port, requested_external_port, lifetime }),
    {
        NatPmpRequest::Mapping { opcode: NatPmpOpcode::MapTcp, internal_port, requested_external_port, lifetime }
    }

    /// Encodes the request.
    pub fn encode(&self) -> (out: Vec<u8>)
        ensures
            out@ == request_bytes(*self),
    {
        let mut out: Vec<u8> = Vec::new();
        out.push(0u8);
        match self {
            NatPmpRequest::PublicAddress => {
                out.push(0u8);
                let mut k: usize = 0;
                while k < 10
                    invariant
                        k <= 10,
                        out@ == seq![0u8, 0u8] + Seq::new(k as nat, |i: int| 0u8),
                    decreases 10 - k,
                {
                    out.push(0u8);
                    k = k + 1;
                    assert(Seq::new(k as nat, |i: int| 0u8) =~= Seq::new((k - 1) as nat, |i: int| 0u8).push(0u8));
                }
                assert(out@ =~= request_bytes(*self));
            },
            NatPmpRequest::Mapping { opcode, internal_port, requested_external_port, lifetime } => {
                out.push(opcode.to_u8());
                out.push(0u8);
                out.push(0u8);
                push_be16(&mut out, *internal_port);
                push_be16(&mut out, *requested_external_port);
                push_be32(&mut out, *lifetime);
                assert(out@ =~= request_bytes(*self));
            },
        }
        out
    }

    /// Decodes a request.
    pub fn decode(data: &[u8]) -> (r: ProtoResult<NatPmpRequest>)
        ensures
            match r {
                Ok(req) => request_decode(data@) == Some(req),
                Err(e) => request_decode(data@) is None && e is Parse,
            },
    {
        if data.len() < 2 {
            return Err(ProtoError::Parse("natpmp request too short"));
        }
        if data[0] != 0 {
            return Err(ProtoError::Parse("natpmp unsupported version"));
        }
        let opcode = NatPmpOpcode::from_u8(data[1])?;
        match opcode {
            NatPmpOpcode::PublicAddress => Ok(NatPmpRequest::PublicAddress),
            _ => {
                if data.len() < 12 {
                    return Err(ProtoError::Parse("natpmp map request"));
                }
                Ok(NatPmpRequest::Mapping {
                    opcode,
                    internal_port: read_be16(data, 4),
                    requested_external_port: read_be16(data, 6),
                    lifetime: read_be32(data, 8),
                })
            },
        }
    }
}

/// A response from the gateway.
#[derive(Debug, Clone, PartialEq, Eq)]
pub enum NatPmpResponse {
    PublicAddress { result: NatPmpResultCode, epoch: u32, address: [u8; 4] },
    Mapping {
        opcode: NatPmpOpcode,
        result: NatPmpResultCode,
        epoch: u32,
        internal_port: u16,
        external_port: u16,
        lifetime: u32,
    },
}

/// Wire image of a response.
pub open spec fn response_bytes(r: NatPmpResponse) -> Seq<u8> {
    match r {
        NatPmpResponse::PublicAddress { result, epoch, address } => seq![0u8, 0x80u8] + be16(result_value(result))
            + be32(epoch) + address@,
        NatPmpResponse::Mapping { opcode, result, epoch, internal_port, external_port, lifetime } => seq![
            0u8,
            (opcode_value(opcode) | 0x80) as u8,
        ] + be16(result_value(result)) + be32(epoch) + be16(internal_port) + be16(external_port) + be32(
            lifetime,
        ),
    }
}

/// The response `d` holds, if it is one.
pub open spec fn response_decode(d: Seq<u8>) -> Option<NatPmpResponse> {
    if d.len() < 8 || d[0] != 0 {
        None
    } else {
        let result = result_of(get_be16(d, 2));
        let epoch = get_be32(d, 4);
        match opcode_of(d[1] & 0x7f) {
            None => None,
            Some(NatPmpOpcode::PublicAddress) => if d.len() < 12 {
                None
            } else {
                Some(NatPmpResponse::PublicAddress { result, epoch, address: [d[8], d[9], d[10], d[11]] })
            },
            Some(op) => if d.len() < 16 {
                None
            } else {
                Some(NatPmpResponse::Mapping {
                    opcode: op,
                    result,
                    epoch,
                    internal_port: get_be16(d, 8),
                    external_port: get_be16(d, 10),
                    lifetime: get_be32(d, 12),
                })
            },
        }
    }
}

impl NatPmpResponse {
    /// Encodes the response.
    pub fn encode(&self) -> (out: Vec<u8>)
        ensures
            out@ == response_bytes(*self),
    {
        let mut out: Vec<u8> = Vec::new();
        out.push(0u8);
        match self {
            NatPmpResponse::PublicAddress { result, epoch, address } => {
                out.push(0x80u8);
                push_be16(&mut out, result.to_u16());
                push_be32(&mut out, *epoch);
                crate::wire::push_bytes(&mut out, address.as_slice());
                assert(out@ =~= response_bytes(*self));
            },
            NatPmpResponse::Mapping { opcode, result, epoch, internal_port, external_port, lifetime } => {
                out.push(opcode.to_u8() | 0x80);
                push_be16(&mut out, result.to_u16());
                push_be32(&mut out, *epoch);
                push_be16(&mut out, *internal_port);
                push_be16(&mut out, *external_port);
                push_be32(&mut out, *lifetime);
                assert(out@ =~= response_bytes(*self));
            },
        }
        out
    }

    /// Decodes a response.
    pub fn decode(data: &[u8]) -> (r: ProtoResult<NatPmpResponse>)
        ensures
            match r {
                Ok(resp) => response_decode(data@) == Some(resp),
                Err(e) => response_decode(data@) is None && e is Parse,
            },
    {
        if data.len() < 8 {
            return Err(ProtoError::Parse("natpmp response too short"));
        }
        if data[0] != 0 {
            return Err(ProtoError::Parse("natpmp response version"));
        }
        let opcode = NatPmpOpcode::from_u8(data[1] & 0x7f)?;
        let result = NatPmpResultCode::from_u16(read_be16(data, 2));
        let epoch = read_be32(data, 4);
        match opcode {
            NatPmpOpcode::PublicAddress => {
                if data.len() < 12 {
                    return Err(ProtoError::Parse("natpmp response addr"));
                }
                let address = [data[8], data[9], data[10], data[11]];
                Ok(NatPmpResponse::PublicAddress { result, epoch, address })
            },
            _ => {
                if data.len() < 16 {
                    return Err(ProtoError::Parse("natpmp response map"));
                }
                Ok(NatPmpResponse::Mapping {
                    opcode,
                    result,
                    epoch,
                    internal_port: read_be16(data, 8),
                    external_port: read_be16(data, 10),
                    lifetime: read_be32(data, 12),
                })
            },
        }
    }
}

/// What a mapping is looked up by: the operation, the client's address and its port.
#[derive(Debug, Clone, Copy)]
pub struct MappingKey {
    pub opcode: NatPmpOpcode,
    pub internal_addr: [u8; 4],
    pub internal_port: u16,
}

/// A granted mapping: its key, the external port and the second at which it lapses.
#[derive(Debug, Clone, Copy)]
pub struct NatPmpLease {
    pub key: MappingKey,
    pub external_port: u16,
    pub expires_at: u64,
}

/// What the gateway answers with and which external ports it hands out.
#[derive(Debug, Clone, Copy)]
pub struct NatPmpServerConfig {
    pub public_address: [u8; 4],
    pub port_range_start: u16,
    pub port_range_end: u16,
}

impl Default for NatPmpServerConfig {
    fn default() -> (c: NatPmpServerConfig)
        ensures
            c.public_address == [203u8, 0u8, 113u8, 1u8],
            c.port_range_start == 40000,
            c.port_range_end == 50000,
    {
        NatPmpServerConfig { public_address: [203u8, 0u8, 113u8, 1u8], port_range_start: 40000, port_range_end: 50000 }
    }
}

/// The gateway's table of mappings.
pub struct NatPmpState {
    leases: Vec<NatPmpLease>,
}

/// No key and no external port occurs twice in the table.
pub open spec fn leases_wf(s: Seq<NatPmpLease>) -> bool {
    forall|i: int, j: int|
        0 <= i < s.len() && 0 <= j < s.len() && i != j ==> s[i].key != s[j].key && s[i].external_port
            != s[j].external_port
}

/// The mappings still alive at `now`.
pub open spec fn live_leases(s: Seq<NatPmpLease>, now: u64) -> Seq<NatPmpLease> {
    s.filter(|l: NatPmpLease| l.expires_at > now)
}

/// Whether some mapping holds external port `p`.
pub open spec fn port_used(s: Seq<NatPmpLease>, p: u16) -> bool {
    exists|i: int| 0 <= i < s.len() && s[i].external_port == p
}

/// Where the mapping for `key` stands, if there is one.
pub open spec fn lease_index(s: Seq<NatPmpLease>, key: MappingKey) -> Option<int> {
    if exists|i: int| 0 <= i < s.len() && s[i].key == key {
        Some(choose|i: int| 0 <= i < s.len() && s[i].key == key)
    } else {
        None
    }
}

/// The lowest free port from `p` up to `end`.
pub open spec fn first_free_port(s: Seq<NatPmpLease>, p: int, end: int) -> Option<u16>
    decreases end - p,
{
    if p < 0 || p > end || p > u16::MAX {
        None
    } else if !port_used(s, p as u16) {
        Some(p as u16)
    } else if p == end {
        None
    } else {
        first_free_port(s, p + 1, end)
    }
}

/// The port a new mapping gets: the requested one when it is set and free,
/// else the lowest free port of the range.
pub open spec fn allocate_port_spec(s: Seq<NatPmpLease>, requested: u16, start: u16, end: u16) -> Option<u16> {
    if requested != 0 && !port_used(s, requested) {
        Some(requested)
    } else {
        first_free_port(s, start as int, end as int)
    }
}

/// The table after the client's request with the given key is answered.
pub open spec fn with_lease(s: Seq<NatPmpLease>, l: NatPmpLease) -> Seq<NatPmpLease> {
    match lease_index(s, l.key) {
        Some(i) => s.update(i, l),
        None => s.push(l),
    }
}

/// The table without the mapping for `key`.
pub open spec fn without_key(s: Seq<NatPmpLease>, key: MappingKey) -> Seq<NatPmpLease> {
    s.filter(|l: NatPmpLease| l.key != key)
}

/// The external port a mapping request ends with, if one can be had.
pub open spec fn mapping_port(s: Seq<NatPmpLease>, key: MappingKey, requested: u16, cfg: NatPmpServerConfig) -> Option<u16> {
    match lease_index(s, key) {
        Some(i) => {
            let port = s[i].external_port;
            if requested != 0 && requested != port && !port_used(s, requested) {
                Some(requested)
            } else {
                Some(port)
            }
        },
        None => allocate_port_spec(s, requested, cfg.port_range_start, cfg.port_range_end),
    }
}

/// The answer to a request, and the table after it.
pub open spec fn natpmp_step(
    s: Seq<NatPmpLease>,
    cfg: NatPmpServerConfig,
    peer: Option<[u8; 4]>,
    data: Seq<u8>,
    epoch: u32,
    now: u64,
) -> (Seq<NatPmpLease>, NatPmpResponse) {
    match request_decode(data) {
        None => (s, NatPmpResponse::PublicAddress {
            result: NatPmpResultCode::UnsupportedVersion,
            epoch,
            address: cfg.public_address,
        }),
        Some(req) => match peer {
            None => (s, NatPmpResponse::PublicAddress {
                result: NatPmpResultCode::UnsupportedOpcode,
                epoch,
                address: cfg.public_address,
            }),
            Some(addr) => {
                let t = live_leases(s, now);
                match req {
                    NatPmpRequest::PublicAddress => (t, NatPmpResponse::PublicAddress {
                        result: NatPmpResultCode::Success,
                        epoch,
                        address: cfg.public_address,
                    }),
                    NatPmpRequest::Mapping { opcode, internal_port, requested_external_port, lifetime } => {
                        let key = MappingKey { opcode, internal_addr: addr, internal_port };
                        if lifetime == 0 {
                            let external_port = match lease_index(t, key) {
                                Some(i) => t[i].external_port,
                                None => 0,
                            };
                            (without_key(t, key), NatPmpResponse::Mapping {
                                opcode,
                                result: NatPmpResultCode::Success,
                                epoch,
                                internal_port,
                                external_port,
                                lifetime: 0,
                            })
                        } else {
                            match mapping_port(t, key, requested_external_port, cfg) {
                                None => (t, NatPmpResponse::Mapping {
                                    opcode,
                                    result: NatPmpResultCode::OutOfResources,
                                    epoch,
                                    internal_port,
                                    external_port: 0,
                                    lifetime: 0,
                                }),
                                Some(port) => (
                                    with_lease(
                                        t,
                                        NatPmpLease { key, external_port: port, expires_at: (now + lifetime) as u64 },
                                    ),
                                    NatPmpResponse::Mapping {
                                        opcode,
                                        result: NatPmpResultCode::Success,
                                        epoch,
                                        internal_port,
                                        external_port: port,
                                        lifetime,
                                    },
                                ),
                            }
                        }
                    },
                }
            },
        },
    }
}

fn same_key(a: &MappingKey, b: &MappingKey) -> (r: bool)
    ensures
        r == (*a == *b),
{
    let op_eq = match (a.opcode, b.opcode) {
        (NatPmpOpcode::PublicAddress, NatPmpOpcode::PublicAddress) => true,
        (NatPmpOpcode::MapUdp, NatPmpOpcode::MapUdp) => true,
        (NatPmpOpcode::MapTcp, NatPmpOpcode::MapTcp) => true,
        _ => false,
    };
    let r = op_eq && a.internal_addr[0] == b.internal_addr[0] && a.internal_addr[1] == b.internal_addr[1]
        && a.internal_addr[2] == b.internal_addr[2] && a.internal_addr[3] == b.internal_addr[3]
        && a.internal_port == b.internal_port;
    proof {
        broadcast use vstd::array::group_array_axioms;
        if r {
            assert(a.opcode == b.opcode);
            assert(a.internal_addr@ =~= b.internal_addr@);
            assert(a.internal_addr == b.internal_addr);
        }
    }
    r
}

impl View for NatPmpState {
    type V = Seq<NatPmpLease>;

    closed spec fn view(&self) -> Seq<NatPmpLease> {
        self.leases@
    }
}

impl NatPmpState {
    /// No key and no external port is mapped twice.
    #[verifier::type_invariant]
    spec fn leases_distinct(self) -> bool {
        leases_wf(self@)
    }

    /// An empty table.
    pub fn new() -> (st: NatPmpState)
        ensures
            st@ == Seq::<NatPmpLease>::empty(),
    {
        NatPmpState { leases: Vec::new() }
    }

    /// Drops the mappings that have lapsed at `now`.
    pub fn cleanup(&mut self, now: u64)
        ensures
            final(self)@ == live_leases(old(self)@, now),
    {
        proof {
            use_type_invariant(&*self);
            lemma_live_wf(self@, now);
        }
        let mut kept: Vec<NatPmpLease> = Vec::new();
        let mut i: usize = 0;
        while i < self.leases.len()
            invariant
                i <= self.leases.len(),
                kept@ == live_leases(self.leases@.take(i as int), now),
            decreases self.leases.len() - i,
        {
            let l = self.leases[i];
            proof {
                reveal(Seq::filter);
                assert(self.leases@.take(i as int + 1).drop_last() =~= self.leases@.take(i as int));
            }
            if l.expires_at > now {
                kept.push(l);
            }
            i = i + 1;
        }
        assert(self.leases@.take(i as int) =~= self.leases@);
        self.leases = kept;
    }

    /// Whether no mapping holds external port `port`.
    pub fn is_port_free(&self, port: u16) -> (r: bool)
        ensures
            r == !port_used(self@, port),
    {
        let mut i: usize = 0;
        while i < self.leases.len()
            invariant
                i <= self.leases.len(),
                forall|j: int| 0 <= j < i ==> self.leases@[j].external_port != port,
            decreases self.leases.len() - i,
        {
            if self.leases[i].external_port == port {
                return false;
            }
            i = i + 1;
        }
        true
    }

    /// Where the mapping for `key` stands.
    fn find(&self, key: &MappingKey) -> (r: Option<usize>)
        ensures
            match r {
                Some(i) => lease_index(self@, *key) == Some(i as int),
                None => lease_index(self@, *key) is None,
            },
    {
        proof {
            use_type_invariant(self);
        }
        let mut i: usize = 0;
        while i < self.leases.len()
            invariant
                i <= self.leases.len(),
                leases_wf(self@),
                forall|j: int| 0 <= j < i ==> self.leases@[j].key != *key,
            decreases self.leases.len() - i,
        {
            if same_key(&self.leases[i].key, key) {
                proof {
                    let k = choose|k: int| 0 <= k < self@.len() && self@[k].key == *key;
                    assert(k == i);
                }
                return Some(i);
            }
            i = i + 1;
        }
        None
    }

    /// The port a new mapping gets.
    pub fn allocate_port(&self, requested: u16, start: u16, end: u16) -> (r: Option<u16>)
        ensures
            r == allocate_port_spec(self@, requested, start, end),
            r matches Some(p) ==> !port_used(self@, p),
    {
        if requested != 0 && self.is_port_free(requested) {
            return Some(requested);
        }
        if start > end {
            return None;
        }
        let mut p: u16 = start;
        loop
            invariant
                start <= p <= end,
                allocate_port_spec(self@, requested, start, end) == first_free_port(self@, start as int, end as int),
                first_free_port(self@, start as int, end as int) == first_free_port(self@, p as int, end as int),
            decreases end - p,
        {
            if self.is_port_free(p) {
                assert(first_free_port(self@, p as int, end as int) == Some(p));
                return Some(p);
            }
            if p == end {
                assert(first_free_port(self@, p as int, end as int) is None);
                return None;
            }
            p = p + 1;
        }
    }

    /// Answers one request: `peer` is the client's IPv4 address (`None` for an IPv6 peer),
    /// `epoch` the seconds since the gateway started and `now` the current second.
    pub fn handle_request(
        &mut self,
        config: &NatPmpServerConfig,
        peer: Option<[u8; 4]>,
        data: &[u8],
        epoch: u32,
        now: u64,
    ) -> (resp: NatPmpResponse)
        requires
            now + u32::MAX <= u64::MAX,
        ensures
            (final(self)@, resp) == natpmp_step(old(self)@, *config, peer, data@, epoch, now),
            leases_wf(final(self)@),
    {
        proof {
            use_type_invariant(&*self);
        }
        let request = match NatPmpRequest::decode(data) {
            Ok(req) => req,
            Err(_) => {
                return NatPmpResponse::PublicAddress {
                    result: NatPmpResultCode::UnsupportedVersion,
                    epoch,
                    address: config.public_address,
                };
            },
        };
        let internal_addr = match peer {
            Some(a) => a,
            None => {
                return NatPmpResponse::PublicAddress {
                    result: NatPmpResultCode::UnsupportedOpcode,
                    epoch,
                    address: config.public_address,
                };
            },
        };
        proof {
            lemma_live_wf(self@, now);
        }
        self.cleanup(now);
        match request {
            NatPmpRequest::PublicAddress => NatPmpResponse::PublicAddress {
                result: NatPmpResultCode::Success,
                epoch,
                address: config.public_address,
            },
            NatPmpRequest::Mapping { opcode, internal_port, requested_external_port, lifetime } => {
                let key = MappingKey { opcode, internal_addr, internal_port };
                let found = self.find(&key);
                if lifetime == 0 {
                    let external_port = match found {
                        Some(i) => self.leases[i].external_port,
                        None => 0,
                    };
                    self.remove_key(&key);
                    return NatPmpResponse::Mapping {
                        opcode,
                        result: NatPmpResultCode::Success,
                        epoch,
                        internal_port,
                        external_port,
                        lifetime: 0,
                    };
                }
                let external_port = match found {
                    Some(i) => {
                        let port = self.leases[i].external_port;
                        if requested_external_port != 0 && requested_external_port != port
                            && self.is_port_free(requested_external_port) {
                            requested_external_port
                        } else {
                            port
                        }
                    },
                    None => match self.allocate_port(
                        requested_external_port,
                        config.port_range_start,
                        config.port_range_end,
                    ) {
                        Some(port) => port,
                        None => {
                            return NatPmpResponse::Mapping {
                                opcode,
                                result: NatPmpResultCode::OutOfResources,
                                epoch,
                                internal_port,
                                external_port: 0,
                                lifetime: 0,
                            };
                        },
                    },
                };
                let lease = NatPmpLease { key, external_port, expires_at: now + lifetime as u64 };
                proof {
                    lemma_with_lease_wf(self@, lease);
                }
                let mut leases: Vec<NatPmpLease> = Vec::new();
                std::mem::swap(&mut leases, &mut self.leases);
                match found {
                    Some(i) => {
                        leases.set(i, lease);
                    },
                    None => {
                        leases.push(lease);
                    },
                }
                self.leases = leases;
                NatPmpResponse::Mapping {
                    opcode,
                    result: NatPmpResultCode::Success,
                    epoch,
                    internal_port,
                    external_port,
                    lifetime,
                }
            },
        }
    }

    fn remove_key(&mut self, key: &MappingKey)
        ensures
            final(self)@ == without_key(old(self)@, *key),
            leases_wf(final(self)@),
    {
        proof {
            use_type_invariant(&*self);
        }
        let mut kept: Vec<NatPmpLease> = Vec::new();
        let mut i: usize = 0;
        while i < self.leases.len()
            invariant
                i <= self.leases.len(),
                kept@ == without_key(self.leases@.take(i as int), *key),
            decreases self.leases.len() - i,
        {
            let l = self.leases[i];
            proof {
                reveal(Seq::filter);
                assert(self.leases@.take(i as int + 1).drop_last() =~= self.leases@.take(i as int));
            }
            if !same_key(&l.key, key) {
                kept.push(l);
            }
            i = i + 1;
        }
        assert(self.leases@.take(i as int) =~= self.leases@);
        proof {
            lemma_filter_wf(self@, |l: NatPmpLease| l.key != *key);
        }
        self.leases = kept;
    }
}

proof fn lemma_filter_from(s: Seq<NatPmpLease>, f: spec_fn(NatPmpLease) -> bool, k: int)
    requires
        0 <= k < s.filter(f).len(),
    ensures
        exists|m: int| 0 <= m < s.len() && s[m] == s.filter(f)[k],
    decreases s.len(),
{
    reveal(Seq::filter);
    let t = s.drop_last();
    if f(s.last()) && k == s.filter(f).len() - 1 {
        assert(s[s.len() - 1] == s.filter(f)[k]);
    } else {
        lemma_filter_from(t, f, k);
        let m = choose|m: int| 0 <= m < t.len() && t[m] == t.filter(f)[k];
        assert(s[m] == s.filter(f)[k]);
    }
}

proof fn lemma_filter_wf(s: Seq<NatPmpLease>, f: spec_fn(NatPmpLease) -> bool)
    requires
        leases_wf(s),
    ensures
        leases_wf(s.filter(f)),
    decreases s.len(),
{
    reveal(Seq::filter);
    if s.len() > 0 {
        let t = s.drop_last();
        assert forall|i: int, j: int| 0 <= i < t.len() && 0 <= j < t.len() && i != j implies t[i].key != t[j].key
            && t[i].external_port != t[j].external_port by {
            assert(t[i] == s[i] && t[j] == s[j]);
        }
        lemma_filter_wf(t, f);
        if f(s.last()) {
            let u = t.filter(f);
            assert forall|k: int| 0 <= k < u.len() implies u[k].key != s.last().key && u[k].external_port
                != s.last().external_port by {
                lemma_filter_from(t, f, k);
                let m = choose|m: int| 0 <= m < t.len() && t[m] == u[k];
                assert(s[m] == u[k]);
                assert(m != s.len() - 1);
            }
            let v = s.filter(f);
            assert(v == u.push(s.last()));
            assert forall|i: int, j: int| 0 <= i < v.len() && 0 <= j < v.len() && i != j implies v[i].key
                != v[j].key && v[i].external_port != v[j].external_port by {
                if i < u.len() && j < u.len() {
                    assert(v[i] == u[i] && v[j] == u[j]);
                } else if i < u.len() {
                    assert(v[i] == u[i]);
                } else if j < u.len() {
                    assert(v[j] == u[j]);
                }
            }
        }
    }
}

proof fn lemma_live_wf(s: Seq<NatPmpLease>, now: u64)
    requires
        leases_wf(s),
    ensures
        leases_wf(live_leases(s, now)),
{
    lemma_filter_wf(s, |l: NatPmpLease| l.expires_at > now);
}

proof fn lemma_with_lease_wf(s: Seq<NatPmpLease>, l: NatPmpLease)
    requires
        leases_wf(s),
        forall|j: int| 0 <= j < s.len() && s[j].key != l.key ==> s[j].external_port != l.external_port,
    ensures
        leases_wf(with_lease(s, l)),
{
}

/// Decoding an encoded request gives the request back.
pub proof fn lemma_request_roundtrip(r: NatPmpRequest)
    requires
        r matches NatPmpRequest::Mapping { opcode, .. } ==> opcode != NatPmpOpcode::PublicAddress,
    ensures
        request_decode(request_bytes(r)) == Some(r),
{
    let b = request_bytes(r);
    if let NatPmpRequest::Mapping { opcode, internal_port, requested_external_port, lifetime } = r {
        lemma_read_at(b, 4);
        lemma_read_at(b, 6);
        lemma_read_at(b, 8);
        assert(b.subrange(4, 6) =~= be16(internal_port));
        assert(b.subrange(6, 8) =~= be16(requested_external_port));
        assert(b.subrange(8, 12) =~= be32(lifetime));
    }
}

/// Decoding an encoded response gives the response back.
pub proof fn lemma_response_roundtrip(r: NatPmpResponse)
    requires
        r matches NatPmpResponse::Mapping { opcode, .. } ==> opcode != NatPmpOpcode::PublicAddress,
    ensures
        response_decode(response_bytes(r)) == Some(r),
{
    let b = response_bytes(r);
    lemma_read_at(b, 2);
    lemma_read_at(b, 4);
    match r {
        NatPmpResponse::PublicAddress { result, epoch, address } => {
            assert(b.subrange(2, 4) =~= be16(result_value(result)));
            assert(b.subrange(4, 8) =~= be32(epoch));
            let x = b[1];
            assert(x == 0x80u8);
            assert(x & 0x7f == 0u8) by (bit_vector)
                requires
                    x == 0x80u8,
            ;
            broadcast use vstd::array::group_array_axioms;
            assert([b[8], b[9], b[10], b[11]]@ =~= address@);
            assert([b[8], b[9], b[10], b[11]] == address);
        },
        NatPmpResponse::Mapping { opcode, result, epoch, internal_port, external_port, lifetime } => {
            let v = opcode_value(opcode);
            assert(((v | 0x80) as u8 & 0x7f) == v) by (bit_vector)
                requires
                    v < 0x80u8,
            ;
            lemma_read_at(b, 8);
            lemma_read_at(b, 10);
            lemma_read_at(b, 12);
            assert(b.subrange(2, 4) =~= be16(result_value(result)));
            assert(b.subrange(4, 8) =~= be32(epoch));
            assert(b.subrange(8, 10) =~= be16(internal_port));
            assert(b.subrange(10, 12) =~= be16(external_port));
            assert(b.subrange(12, 16) =~= be32(lifetime));
        },
    }
}

/// A port that no mapping holds is still free once lapsed mappings are dropped, and a key
/// without a mapping still has none.
proof fn lemma_live_keeps_free(s: Seq<NatPmpLease>, now: u64, p: u16, key: MappingKey)
    requires
        !port_used(s, p),
        lease_index(s, key) is None,
    ensures
        !port_used(live_leases(s, now), p),
        lease_index(live_leases(s, now), key) is None,
{
    let f = |l: NatPmpLease| l.expires_at > now;
    let t = s.filter(f);
    assert(live_leases(s, now) == t);
    assert forall|i: int| 0 <= i < t.len() implies t[i].external_port != p && t[i].key != key by {
        lemma_filter_from(s, f, i);
    }
}

/// A new mapping that asks for a nonzero external port no mapping holds gets exactly that
/// port: the gateway answers success with the requested port and the requested lifetime.
pub proof fn lemma_new_mapping_gets_requested_port(
    s: Seq<NatPmpLease>,
    cfg: NatPmpServerConfig,
    addr: [u8; 4],
    data: Seq<u8>,
    epoch: u32,
    now: u64,
    opcode: NatPmpOpcode,
    internal_port: u16,
    requested: u16,
    lifetime: u32,
)
    requires
        request_decode(data) == Some(
            NatPmpRequest::Mapping { opcode, internal_port, requested_external_port: requested, lifetime },
        ),
        lifetime != 0,
        requested != 0,
        !port_used(s, requested),
        lease_index(s, MappingKey { opcode, internal_addr: addr, internal_port }) is None,
    ensures
        natpmp_step(s, cfg, Some(addr), data, epoch, now).1 == (NatPmpResponse::Mapping {
            opcode,
            result: NatPmpResultCode::Success,
            epoch,
            internal_port,
            external_port: requested,
            lifetime,
        }),
{
    lemma_live_keeps_free(s, now, requested, MappingKey { opcode, internal_addr: addr, internal_port });
}

/// The port search from `p` up to `end` finds the lowest port of that range that no
/// mapping holds, and finds none only when every port of the range is held.
pub proof fn lemma_first_free_port(s: Seq<NatPmpLease>, p: int, end: int)
    requires
        0 <= p,
        end <= u16::MAX,
    ensures
        match first_free_port(s, p, end) {
            Some(q) => p <= q <= end && !port_used(s, q) && forall|x: int|
                p <= x < q ==> #[trigger] port_used(s, x as u16),
            None => forall|x: int| p <= x <= end ==> #[trigger] port_used(s, x as u16),
        },
    decreases end - p,
{
    if p <= end && port_used(s, p as u16) && p < end {
        lemma_first_free_port(s, p + 1, end);
    }
}

/// The port a new mapping gets: the requested port when it is nonzero and free; otherwise
/// the lowest free port of the gateway's range, and none only when the whole range is held.
pub proof fn lemma_allocated_port(s: Seq<NatPmpLease>, requested: u16, start: u16, end: u16)
    ensures
        requested != 0 && !port_used(s, requested) ==> allocate_port_spec(s, requested, start, end) == Some(requested),
        !(requested != 0 && !port_used(s, requested)) ==> match allocate_port_spec(s, requested, start, end) {
            Some(q) => start <= q <= end && !port_used(s, q) && forall|x: int|
                start <= x < q ==> #[trigger] port_used(s, x as u16),
            None => forall|x: int| start <= x <= end ==> #[trigger] port_used(s, x as u16),
        },
{
    lemma_first_free_port(s, start as int, end as int);
}

} // verus!