//! NTP: timestamps, the 48-byte packet, and the decisions of a client and a server.
use vstd::prelude::*;
use crate::error::{ProtoError, ProtoResult};
use crate::wire::{be32, get_be32, push_be32, read_be32};

verus! {

/// The UDP port an NTP server listens on by default.
pub const NTP_DEFAULT_PORT: u16 = 123;

/// Seconds from 1900-01-01 (the NTP era) to the Unix epoch.
pub const NTP_EPOCH_OFFSET: u64 = 2_208_988_800;

/// An NTP timestamp: seconds since 1900 and a binary fraction of a second.
#[derive(Debug, Clone, Copy, PartialEq, Eq, Structural)]
pub struct NtpTimestamp {
    pub seconds: u32,
    pub fraction: u32,
}

/// Seconds since 1900 for `secs` seconds since the Unix epoch, saturating at the largest
/// 64-bit value, then cut to 32 bits.
pub open spec fn ntp_seconds(secs: u64) -> u32 {
    (if secs + NTP_EPOCH_OFFSET > u64::MAX { u64::MAX as int } else { secs + NTP_EPOCH_OFFSET }) as u32
}

/// The 32-bit binary fraction for `nanos` nanoseconds (cut to 32 bits).
pub open spec fn ntp_fraction(nanos: u32) -> u32 {
    ((nanos * 0x1_0000_0000) / 1_000_000_000) as u32
}

/// The nanoseconds a 32-bit binary fraction stands for, rounded down.
pub open spec fn fraction_nanos(fraction: u32) -> u32 {
    ((fraction * 1_000_000_000) / 0x1_0000_0000) as u32
}

/// Unix seconds for NTP seconds; zero before the Unix epoch.
pub open spec fn unix_seconds(seconds: u32) -> u64 {
    if seconds >= NTP_EPOCH_OFFSET { (seconds - NTP_EPOCH_OFFSET) as u64 } else { 0 }
}

impl NtpTimestamp {
    /// The timestamp of a time given as `secs` seconds and `nanos` nanoseconds since the
    /// Unix epoch (a time before the epoch is passed as zero).
    pub fn from_system_time(secs: u64, nanos: u32) -> (r: NtpTimestamp)
        ensures
            r.seconds == ntp_seconds(secs),
            r.fraction == ntp_fraction(nanos),
    {
        let seconds = secs.saturating_add(NTP_EPOCH_OFFSET);
        let fraction = ((nanos as u64) * 0x1_0000_0000u64) / 1_000_000_000u64;
        NtpTimestamp { seconds: seconds as u32, fraction: fraction as u32 }
    }

    /// The time since the Unix epoch that the timestamp stands for: whole seconds (zero
    /// before the epoch) and nanoseconds.
    pub fn to_system_time(&self) -> (r: (u64, u32))
        ensures
            r == (unix_seconds(self.seconds), fraction_nanos(self.fraction)),
            r.1 < 1_000_000_000,
    {
        let nanos = ((self.fraction as u64) * 1_000_000_000u64) / 0x1_0000_0000u64;
        assert(nanos < 1_000_000_000) by (nonlinear_arith)
            requires
                nanos == (self.fraction as u64 * 1_000_000_000) / 0x1_0000_0000,
                self.fraction < 0x1_0000_0000,
        ;
        let seconds = self.seconds as u64;
        let unix = seconds.saturating_sub(NTP_EPOCH_OFFSET);
        (unix, nanos as u32)
    }
}

/// A time within the 32-bit NTP era survives the trip through a timestamp: the seconds
/// come back exactly and the nanoseconds at most one short.
pub proof fn lemma_timestamp_roundtrip(secs: u64, nanos: u32)
    requires
        secs + NTP_EPOCH_OFFSET < 0x1_0000_0000,
        nanos < 1_000_000_000,
    ensures
        unix_seconds(ntp_seconds(secs)) == secs,
        fraction_nanos(ntp_fraction(nanos)) <= nanos,
        nanos <= fraction_nanos(ntp_fraction(nanos)) + 1,
{
    let f = (nanos * 0x1_0000_0000) / 1_000_000_000;
    assert(f < 0x1_0000_0000) by (nonlinear_arith)
        requires
            f == (nanos * 0x1_0000_0000) / 1_000_000_000,
            nanos < 1_000_000_000,
    ;
    let back = (f * 1_000_000_000) / 0x1_0000_0000;
    assert(back <= nanos && nanos <= back + 1) by (nonlinear_arith)
        requires
            f == (nanos * 0x1_0000_0000) / 1_000_000_000,
            back == (f * 1_000_000_000) / 0x1_0000_0000,
            0 <= nanos < 1_000_000_000,
    ;
}

/// An NTP packet.
#[derive(Debug, Clone, Copy, PartialEq, Eq, Structural)]
pub struct NtpPacket {
    pub li_vn_mode: u8,
    pub stratum: u8,
    pub poll: i8,
    pub precision: i8,
    pub root_delay: u32,
    pub root_dispersion: u32,
    pub reference_id: u32,
    pub reference_timestamp: NtpTimestamp,
    pub originate_timestamp: NtpTimestamp,
    pub receive_timestamp: NtpTimestamp,
    pub transmit_timestamp: NtpTimestamp,
}

/// The eight bytes of a timestamp: seconds, then fraction, big-endian.
pub open spec fn ts_bytes(t: NtpTimestamp) -> Seq<u8> {
    be32(t.seconds) + be32(t.fraction)
}

/// The 48 bytes of a packet, in field order, integers big-endian.
pub open spec fn packet_bytes(p: NtpPacket) -> Seq<u8> {
    seq![p.li_vn_mode, p.stratum, p.poll as u8, p.precision as u8] + be32(p.root_delay) + be32(p.root_dispersion)
        + be32(p.reference_id) + ts_bytes(p.reference_timestamp) + ts_bytes(p.originate_timestamp) + ts_bytes(
        p.receive_timestamp,
    ) + ts_bytes(p.transmit_timestamp)
}

/// The timestamp stored at `i`.
pub open spec fn ts_at(d: Seq<u8>, i: int) -> NtpTimestamp {
    NtpTimestamp { seconds: get_be32(d, i), fraction: get_be32(d, i + 4) }
}

/// The packet in the first 48 bytes of `d`.
pub open spec fn packet_at(d: Seq<u8>) -> NtpPacket {
    NtpPacket {
        li_vn_mode: d[0],
        stratum: d[1],
        poll: d[2] as i8,
        precision: d[3] as i8,
        root_delay: get_be32(d, 4),
        root_dispersion: get_be32(d, 8),
        reference_id: get_be32(d, 12),
        reference_timestamp: ts_at(d, 16),
        originate_timestamp: ts_at(d, 24),
        receive_timestamp: ts_at(d, 32),
        transmit_timestamp: ts_at(d, 40),
    }
}

/// The first byte of a client request: leap indicator 0, version 4, mode 3.
pub const CLIENT_LI_VN_MODE: u8 = 0x23;

/// The first byte of a server response: leap indicator 0, version 4, mode 4.
pub const SERVER_LI_VN_MODE: u8 = 0x24;

/// The zero timestamp.
pub open spec fn zero_ts() -> NtpTimestamp {
    NtpTimestamp { seconds: 0, fraction: 0 }
}

/// The request a client sends at time `t`: version 4, mode 3, poll 4, precision -20, and
/// `t` as its transmit timestamp.
pub open spec fn client_request_spec(t: NtpTimestamp) -> NtpPacket {
    NtpPacket {
        li_vn_mode: CLIENT_LI_VN_MODE,
        stratum: 0,
        poll: 4,
        precision: -20i8,
        root_delay: 0,
        root_dispersion: 0,
        reference_id: 0,
        reference_timestamp: zero_ts(),
        originate_timestamp: zero_ts(),
        receive_timestamp: zero_ts(),
        transmit_timestamp: t,
    }
}

/// The response a server at `stratum` with `reference_id` gives to `request` at time `t`:
/// version 4, mode 4, the request's poll, the request's transmit timestamp as originate
/// timestamp, and `t` as reference, receive and transmit timestamp.
pub open spec fn server_response_spec(request: NtpPacket, stratum: u8, reference_id: u32, t: NtpTimestamp) -> NtpPacket {
    NtpPacket {
        li_vn_mode: SERVER_LI_VN_MODE,
        stratum,
        poll: request.poll,
        precision: -20i8,
        root_delay: 0,
        root_dispersion: 0,
        reference_id,
        reference_timestamp: t,
        originate_timestamp: request.transmit_timestamp,
        receive_timestamp: t,
        transmit_timestamp: t,
    }
}

fn push_ts(out: &mut Vec<u8>, t: NtpTimestamp)
    ensures
        final(out)@ == old(out)@ + ts_bytes(t),
{
    let ghost start = out@;
    push_be32(out, t.seconds);
    push_be32(out, t.fraction);
    assert(out@ =~= start + ts_bytes(t));
}

fn read_ts(data: &[u8], i: usize) -> (t: NtpTimestamp)
    requires
        i + 8 <= data.len(),
    ensures
        t == ts_at(data@, i as int),
{
    NtpTimestamp { seconds: read_be32(data, i), fraction: read_be32(data, i + 4) }
}

/// The time now, as a timestamp.
fn now_timestamp() -> (t: NtpTimestamp)
    ensures
        exists|secs: u64, nanos: u32| t == #[trigger] ntp_at(secs, nanos),
{
    let (secs, nanos) = crate::clock::unix_time_now();
    let t = NtpTimestamp::from_system_time(secs, nanos);
    assert(t == ntp_at(secs, nanos));
    t
}

/// The timestamp of `secs` seconds and `nanos` nanoseconds since the Unix epoch.
pub open spec fn ntp_at(secs: u64, nanos: u32) -> NtpTimestamp {
    NtpTimestamp { seconds: ntp_seconds(secs), fraction: ntp_fraction(nanos) }
}

impl NtpPacket {
    /// A client request stamped with the time `t`.
    pub fn client_request_at(t: NtpTimestamp) -> (p: NtpPacket)
        ensures
            p == client_request_spec(t),
    {
        NtpPacket {
            li_vn_mode: CLIENT_LI_VN_MODE,
            stratum: 0,
            poll: 4,
            precision: -20,
            root_delay: 0,
            root_dispersion: 0,
            reference_id: 0,
            reference_timestamp: NtpTimestamp { seconds: 0, fraction: 0 },
            originate_timestamp: NtpTimestamp { seconds: 0, fraction: 0 },
            receive_timestamp: NtpTimestamp { seconds: 0, fraction: 0 },
            transmit_timestamp: t,
        }
    }

    /// A client request stamped with the current time.
    pub fn client_request() -> (p: NtpPacket)
        ensures
            exists|secs: u64, nanos: u32| p == client_request_spec(#[trigger] ntp_at(secs, nanos)),
    {
        let t = now_timestamp();
        NtpPacket::client_request_at(t)
    }

    /// The response to `request` at time `t`.
    pub fn server_response_at(request: &NtpPacket, stratum: u8, reference_id: u32, t: NtpTimestamp) -> (p: NtpPacket)
        ensures
            p == server_response_spec(*request, stratum, reference_id, t),
    {
        NtpPacket {
            li_vn_mode: SERVER_LI_VN_MODE,
            stratum,
            poll: request.poll,
            precision: -20,
            root_delay: 0,
            root_dispersion: 0,
            reference_id,
            reference_timestamp: t,
            originate_timestamp: request.transmit_timestamp,
            receive_timestamp: t,
            transmit_timestamp: t,
        }
    }

    /// The response to `request` at the current time.
    pub fn server_response(request: &NtpPacket, stratum: u8, reference_id: u32) -> (p: NtpPacket)
        ensures
            exists|secs: u64, nanos: u32| p == server_response_spec(*request, stratum, reference_id, #[trigger] ntp_at(secs, nanos)),
    {
        let t = now_timestamp();
        NtpPacket::server_response_at(request, stratum, reference_id, t)
    }

    /// The 48 bytes of the packet.
    pub fn encode(&self) -> (out: [u8; 48])
        ensures
            out@ == packet_bytes(*self),
    {
        let mut v: Vec<u8> = Vec::new();
        v.push(self.li_vn_mode);
        v.push(self.stratum);
        v.push(self.poll as u8);
        v.push(self.precision as u8);
        push_be32(&mut v, self.root_delay);
        push_be32(&mut v, self.root_dispersion);
        push_be32(&mut v, self.reference_id);
        push_ts(&mut v, self.reference_timestamp);
        push_ts(&mut v, self.originate_timestamp);
        push_ts(&mut v, self.receive_timestamp);
        push_ts(&mut v, self.transmit_timestamp);
        assert(v@ =~= packet_bytes(*self));
        let out: [u8; 48] = [
            v[0], v[1], v[2], v[3], v[4], v[5], v[6], v[7], v[8], v[9], v[10], v[11], v[12], v[13], v[14], v[15],
            v[16], v[17], v[18], v[19], v[20], v[21], v[22], v[23], v[24], v[25], v[26], v[27], v[28], v[29], v[30],
            v[31], v[32], v[33], v[34], v[35], v[36], v[37], v[38], v[39], v[40], v[41], v[42], v[43], v[44], v[45],
            v[46], v[47],
        ];
        assert(out@ =~= v@);
        out
    }

    /// Reads a packet from the first 48 bytes of `data`; shorter data is an error.
    pub fn decode(data: &[u8]) -> (r: ProtoResult<NtpPacket>)
        ensures
            match r {
                Ok(p) => data@.len() >= 48 && p == packet_at(data@),
                Err(e) => data@.len() < 48 && e is Parse,
            },
    {
        if data.len() < 48 {
            return Err(ProtoError::Parse("ntp packet too short"));
        }
        Ok(NtpPacket {
            li_vn_mode: data[0],
            stratum: data[1],
            poll: data[2] as i8,
            precision: data[3] as i8,
            root_delay: read_be32(data, 4),
            root_dispersion: read_be32(data, 8),
            reference_id: read_be32(data, 12),
            reference_timestamp: read_ts(data, 16),
            originate_timestamp: read_ts(data, 24),
            receive_timestamp: read_ts(data, 32),
            transmit_timestamp: read_ts(data, 40),
        })
    }

    /// The mode: the low three bits of the first byte.
    pub fn mode(&self) -> (m: u8)
        ensures
            m == self.li_vn_mode % 8,
    {
        let b = self.li_vn_mode;
        assert(b & 0x07 == b % 8) by (bit_vector);
        b & 0x07
    }
}

proof fn lemma_i8_bytes(x: i8)
    ensures
        ((x as u8) as i8) == x,
{
    assert(((x as u8) as i8) == x) by (bit_vector);
}

/// Reading back the bytes of a packet gives the packet.
pub proof fn lemma_packet_roundtrip(p: NtpPacket)
    ensures
        packet_bytes(p).len() == 48,
        packet_at(packet_bytes(p)) == p,
{
    let d = packet_bytes(p);
    lemma_i8_bytes(p.poll);
    lemma_i8_bytes(p.precision);
    assert(d.len() == 48);
    assert(d.subrange(4, 8) == be32(p.root_delay));
    assert(d.subrange(8, 12) == be32(p.root_dispersion));
    assert(d.subrange(12, 16) == be32(p.reference_id));
    assert(d.subrange(16, 20) == be32(p.reference_timestamp.seconds));
    assert(d.subrange(20, 24) == be32(p.reference_timestamp.fraction));
    assert(d.subrange(24, 28) == be32(p.originate_timestamp.seconds));
    assert(d.subrange(28, 32) == be32(p.originate_timestamp.fraction));
    assert(d.subrange(32, 36) == be32(p.receive_timestamp.seconds));
    assert(d.subrange(36, 40) == be32(p.receive_timestamp.fraction));
    assert(d.subrange(40, 44) == be32(p.transmit_timestamp.seconds));
    assert(d.subrange(44, 48) == be32(p.transmit_timestamp.fraction));
    crate::wire::lemma_read_at(d, 4);
    crate::wire::lemma_read_at(d, 8);
    crate::wire::lemma_read_at(d, 12);
    crate::wire::lemma_read_at(d, 16);
    crate::wire::lemma_read_at(d, 20);
    crate::wire::lemma_read_at(d, 24);
    crate::wire::lemma_read_at(d, 28);
    crate::wire::lemma_read_at(d, 32);
    crate::wire::lemma_read_at(d, 36);
    crate::wire::lemma_read_at(d, 40);
    crate::wire::lemma_read_at(d, 44);
}

/// What an NTP client is configured with.
#[derive(Debug, Clone)]
pub struct NtpClientConfig {}

impl Default for NtpClientConfig {
    fn default() -> (r: Self)
        ensures
            r == (NtpClientConfig {}),
    {
        NtpClientConfig {}
    }
}

/// What an NTP server is configured with: the stratum and reference id it answers with.
#[derive(Debug, Clone)]
pub struct NtpServerConfig {
    pub stratum: u8,
    pub reference_id: u32,
}

impl Default for NtpServerConfig {
    /// Stratum 2, reference id `LOCL`.
    fn default() -> (r: Self)
        ensures
            r.stratum == 2,
            r.reference_id == 0x4C4F_434C,
    {
        NtpServerConfig { stratum: 2, reference_id: 0x4C4F_434C }
    }
}

/// The server's answer at time `t` to a datagram: a datagram that is not a packet, or
/// not a client request (mode 3), gets none.
pub open spec fn server_reply_spec(config: NtpServerConfig, d: Seq<u8>, t: NtpTimestamp) -> Option<Seq<u8>> {
    if d.len() < 48 || packet_at(d).li_vn_mode % 8 != 3 {
        None
    } else {
        Some(packet_bytes(server_response_spec(packet_at(d), config.stratum, config.reference_id, t)))
    }
}

/// Answers a datagram at time `t`.
pub fn server_reply_at(config: &NtpServerConfig, data: &[u8], t: NtpTimestamp) -> (r: Option<[u8; 48]>)
    ensures
        match r {
            Some(out) => server_reply_spec(*config, data@, t) == Some(out@),
            None => server_reply_spec(*config, data@, t) is None,
        },
{
    let request = match NtpPacket::decode(data) {
        Ok(p) => p,
        Err(_) => {
            return None;
        },
    };
    if request.mode() != 3 {
        return None;
    }
    let response = NtpPacket::server_response_at(&request, config.stratum, config.reference_id, t);
    Some(response.encode())
}

/// Answers a datagram at the current time.
pub fn server_reply(config: &NtpServerConfig, data: &[u8]) -> (r: Option<[u8; 48]>)
    ensures
        exists|secs: u64, nanos: u32| match r {
            Some(out) => server_reply_spec(*config, data@, #[trigger] ntp_at(secs, nanos)) == Some(out@),
            None => server_reply_spec(*config, data@, ntp_at(secs, nanos)) is None,
        },
{
    let t = now_timestamp();
    server_reply_at(config, data, t)
}

/// The time a server's response carries: its transmit timestamp as time since the Unix
/// epoch; data that is not a packet, or not a server response (mode 4), is an error.
pub fn time_from_response(data: &[u8]) -> (r: ProtoResult<(u64, u32)>)
    ensures
        match r {
            Ok(t) => data@.len() >= 48 && packet_at(data@).li_vn_mode % 8 == 4 && t == (
                unix_seconds(packet_at(data@).transmit_timestamp.seconds),
                fraction_nanos(packet_at(data@).transmit_timestamp.fraction),
            ),
            Err(e) => e is Parse && (data@.len() < 48 || packet_at(data@).li_vn_mode % 8 != 4),
        },
{
    let response = NtpPacket::decode(data)?;
    if response.mode() != 4 {
        return Err(ProtoError::Parse("ntp invalid mode"));
    }
    Ok(response.transmit_timestamp.to_system_time())
}

/// NTP counts seconds from 1900-01-01, 2_208_988_800 seconds before the Unix epoch:
/// within the 32-bit NTP era a Unix time's NTP seconds are its Unix seconds plus that
/// offset, and reading them back gives the Unix seconds again.
pub proof fn lemma_ntp_era(secs: u64)
    requires
        secs + 2_208_988_800 < 0x1_0000_0000,
    ensures
        ntp_seconds(secs) == secs + 2_208_988_800,
        unix_seconds((secs + 2_208_988_800) as u32) == secs,
{
}

/// Unix seconds of an NTP timestamp lie 2_208_988_800 seconds behind its NTP seconds; an
/// NTP time before 1970 reads as the Unix epoch.
pub proof fn lemma_unix_seconds_offset(seconds: u32)
    ensures
        seconds >= 2_208_988_800 ==> unix_seconds(seconds) + 2_208_988_800 == seconds,
        seconds < 2_208_988_800 ==> unix_seconds(seconds) == 0,
{
}

/// The fraction of a timestamp counts units of 2^-32 seconds: for a sub-second time it is
/// the whole number of such units in the nanoseconds, and reading a fraction back gives the
/// whole nanoseconds it spans.
pub proof fn lemma_fraction_units(nanos: u32, fraction: u32)
    requires
        nanos < 1_000_000_000,
    ensures
        ntp_fraction(nanos) * 1_000_000_000 <= nanos * 0x1_0000_0000,
        nanos * 0x1_0000_0000 < (ntp_fraction(nanos) + 1) * 1_000_000_000,
        fraction_nanos(fraction) * 0x1_0000_0000 <= fraction * 1_000_000_000,
        fraction * 1_000_000_000 < (fraction_nanos(fraction) + 1) * 0x1_0000_0000,
{
    let f = (nanos * 0x1_0000_0000) / 1_000_000_000;
    assert(0 <= f < 0x1_0000_0000 && f * 1_000_000_000 <= nanos * 0x1_0000_0000 && nanos * 0x1_0000_0000 < (f + 1)
        * 1_000_000_000) by (nonlinear_arith)
        requires
            f == (nanos * 0x1_0000_0000) / 1_000_000_000,
            0 <= nanos < 1_000_000_000,
    ;
    let n = (fraction * 1_000_000_000) / 0x1_0000_0000;
    assert(0 <= n < 1_000_000_000 && n * 0x1_0000_0000 <= fraction * 1_000_000_000 && fraction * 1_000_000_000 < (n
        + 1) * 0x1_0000_0000) by (nonlinear_arith)
        requires
            n == (fraction * 1_000_000_000) / 0x1_0000_0000,
            0 <= fraction < 0x1_0000_0000,
    ;
}

} // verus!
