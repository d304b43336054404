//! The system clock, read where the protocols need the time of day.
use vstd::prelude::*;

verus! {

/// Seconds and nanoseconds since the Unix epoch by the system clock (`SystemTime::now`);
/// zero when the clock reads before the epoch.
#[verifier::external_body]
pub(crate) fn unix_time_now() -> (r: (u64, u32))
    ensures
        r.1 < 1_000_000_000,
{
    let d = std::time::SystemTime::now().duration_since(std::time::UNIX_EPOCH).unwrap_or_default();
    (d.as_secs(), d.subsec_nanos())
}

/// The nanoseconds of `secs` seconds and `nanos` nanoseconds, modulo 2^64.
pub open spec fn nanos_of(secs: u64, nanos: u32) -> u64 {
    ((secs * 1_000_000_000 + nanos) % 0x1_0000_0000_0000_0000) as u64
}

/// Nanoseconds since the Unix epoch, modulo 2^64 (`Duration::as_nanos` cut to 64 bits).
pub(crate) fn unix_nanos() -> (r: u64)
    ensures
        exists|secs: u64, nanos: u32| nanos < 1_000_000_000 && r == #[trigger] nanos_of(secs, nanos),
{
    let (secs, nanos) = unix_time_now();
    let r = secs.wrapping_mul(1_000_000_000).wrapping_add(nanos as u64);
    proof {
        let m: int = 0x1_0000_0000_0000_0000;
        let a = (secs * 1_000_000_000) % m;
        assert((a + nanos) % m == (secs * 1_000_000_000 + nanos) % m) by {
            vstd::arithmetic::div_mod::lemma_add_mod_noop(secs * 1_000_000_000, nanos as int, m);
            vstd::arithmetic::div_mod::lemma_mod_twice(secs * 1_000_000_000, m);
            vstd::arithmetic::div_mod::lemma_add_mod_noop(a, nanos as int, m);
        }
        assert(r == nanos_of(secs, nanos));
    }
    r
}

} // verus!
