//! Conversion between calendar UTC instants and 64-bit NTP timestamps.
//!
//! An NTP timestamp (RFC 5905 section 6) packs a 32-bit count of whole
//! seconds since 1900-01-01T00:00:00Z together with a 32-bit binary
//! fraction of a second into one 64-bit value: the upper 32 bits hold the
//! seconds, the lower 32 bits the fraction, scaled so that the range
//! `[0, 2^32)` covers `[0.0, 1.0)` seconds.

use vstd::prelude::*;

verus! {

/// Seconds between the NTP epoch (1900-01-01T00:00:00Z) and the Unix
/// epoch (1970-01-01T00:00:00Z).
pub const NTP_JAN_1970: u32 = 2_208_988_800;

/// The scale of the binary fraction field: 2^32.
pub const NTP_FRAC_SCALE: u64 = 4_294_967_296;

/// Nanoseconds in one second.
pub const NANOS_PER_SEC: u32 = 1_000_000_000;

/// A 64-bit NTP timestamp, split into its two 32-bit fields.
///
/// `seconds` counts whole seconds since the NTP epoch; `fraction` is the
/// sub-second remainder as a binary fraction of one second scaled by 2^32.
#[derive(Copy, Clone, Eq, PartialEq, Structural, Debug)]
pub struct NTPTimestamp {
    pub seconds: u32,
    pub fraction: u32,
}

/// A calendar UTC instant with whole-second granularity plus a
/// nanosecond remainder.
///
/// `secs` counts civil seconds since the Unix epoch (1970-01-01T00:00:00Z)
/// and may be negative for earlier instants; `nanos` is the sub-second
/// remainder and is meaningful only in `[0, 1_000_000_000)`.
#[derive(Copy, Clone, Eq, PartialEq, Structural, Debug)]
pub struct UtcInstant {
    pub secs: i64,
    pub nanos: u32,
}

impl UtcInstant {
    /// A well-formed instant keeps its nanosecond remainder below one second.
    pub open spec fn wf(self) -> bool {
        self.nanos < NANOS_PER_SEC
    }

    /// An instant lies in the NTP era when its seconds count, shifted to
    /// the 1900 epoch, fits the unsigned 32-bit seconds field without
    /// wrapping.
    pub open spec fn in_ntp_era(self) -> bool {
        0 <= self.secs + NTP_JAN_1970 < 0x1_0000_0000
    }
}

/// The seconds field produced for a civil seconds count: the count shifted
/// to the 1900 epoch, wrapped to 32 bits exactly as unsigned arithmetic
/// would wrap it.
pub open spec fn ntp_seconds_of(civil_secs: int) -> int {
    (civil_secs + NTP_JAN_1970) % 0x1_0000_0000
}

/// The fraction field produced for a nanosecond remainder: the remainder
/// scaled by 2^32 and divided by 10^9, rounded down.
pub open spec fn ntp_fraction_of(nanos: int) -> int {
    nanos * 0x1_0000_0000 / 1_000_000_000
}

/// The nanosecond remainder decoded from a fraction field: the field
/// scaled by 10^9 and divided by 2^32, rounded down.
pub open spec fn nanos_of_fraction(fraction: int) -> int {
    fraction * 1_000_000_000 / 0x1_0000_0000
}

/// The packed 64-bit value of a seconds and a fraction field: the seconds
/// in the upper 32 bits, the fraction in the lower 32.
pub open spec fn packed_of(seconds: int, fraction: int) -> int {
    seconds * 0x1_0000_0000 + fraction
}

impl NTPTimestamp {
    /// The packed 64-bit value of this timestamp.
    pub open spec fn packed(self) -> int {
        packed_of(self.seconds as int, self.fraction as int)
    }

    /// Converts a calendar UTC instant to an NTP timestamp.
    ///
    /// The seconds field wraps modulo 2^32, so instants before 1900 or
    /// after the first NTP era silently fold into the era; the fraction
    /// field is the nanosecond remainder scaled to a binary fraction,
    /// rounded down.
    pub fn from_instant(instant: UtcInstant) -> (r: NTPTimestamp)
        requires
            instant.wf(),
        ensures
            r.seconds == ntp_seconds_of(instant.secs as int),
            r.fraction == ntp_fraction_of(instant.nanos as int),
    {
        let seconds = wrapped_era_seconds(instant.secs);
        proof {
            vstd::arithmetic::div_mod::lemma_multiply_divide_lt(
                instant.nanos * NTP_FRAC_SCALE,
                NANOS_PER_SEC as int,
                0x1_0000_0000,
            );
        }
        let fraction: u32 = ((instant.nanos as u64 * NTP_FRAC_SCALE) / NANOS_PER_SEC as u64) as u32;
        NTPTimestamp { seconds, fraction }
    }
}

impl core::convert::From<NTPTimestamp> for u64 {
    /// Packs the two 32-bit fields into one 64-bit value: the seconds in
    /// the upper 32 bits, the fraction in the lower 32.
    fn from(ntp: NTPTimestamp) -> (r: u64) {
        ntp.seconds as u64 * NTP_FRAC_SCALE + ntp.fraction as u64
    }
}

impl vstd::std_specs::convert::FromSpecImpl<NTPTimestamp> for u64 {
    open spec fn obeys_from_spec() -> bool {
        true
    }

    open spec fn from_spec(ntp: NTPTimestamp) -> u64 {
        ntp.packed() as u64
    }
}

/// Converts a packed 64-bit NTP timestamp back to a calendar UTC instant.
///
/// The upper 32 bits shift back to civil seconds since 1970, which may be
/// negative for instants before 1970; the lower 32 bits scale back to a
/// nanosecond remainder, rounded down, which always stays below one
/// second.
pub fn convert_raw_ntp_timestamp_to_utc(ntp_time: u64) -> (r: UtcInstant)
    ensures
        r.secs == ntp_time as int / 0x1_0000_0000 - NTP_JAN_1970,
        r.nanos == nanos_of_fraction(ntp_time as int % 0x1_0000_0000),
        r.wf(),
{
    let high: u64 = ntp_time / NTP_FRAC_SCALE;
    proof {
        vstd::arithmetic::div_mod::lemma_multiply_divide_lt(
            ntp_time as int,
            0x1_0000_0000,
            0x1_0000_0000,
        );
        vstd::arithmetic::div_mod::lemma_mod_bound(ntp_time as int, 0x1_0000_0000);
    }
    let secs: i64 = high as i64 - NTP_JAN_1970 as i64;
    let frac: u64 = ntp_time % NTP_FRAC_SCALE;
    proof {
        vstd::arithmetic::div_mod::lemma_multiply_divide_lt(
            frac * NANOS_PER_SEC,
            0x1_0000_0000,
            NANOS_PER_SEC as int,
        );
    }
    let nanos: u32 = ((frac * NANOS_PER_SEC as u64) / NTP_FRAC_SCALE) as u32;
    UtcInstant { secs, nanos }
}

/// Shifts a civil seconds count to the 1900 epoch and wraps it to the
/// 32-bit seconds field.
fn wrapped_era_seconds(secs: i64) -> (r: u32)
    ensures
        r == ntp_seconds_of(secs as int),
{
    let base: u64 = if secs >= 0 {
        (secs as u64) % NTP_FRAC_SCALE
    } else {
        // For a negative count, reduce its negation instead, so that the
        // remainder is taken of a non-negative value:
        // (-(t + 1)) mod 2^32 == 2^32 - 1 - (t mod 2^32) for t >= 0.
        let t: u64 = (-(secs + 1)) as u64;
        let b = 4_294_967_295u64 - t % NTP_FRAC_SCALE;
        proof {
            lemma_negative_low_bits_match(secs as int, t as int, b as int);
        }
        b
    };
    proof {
        vstd::arithmetic::div_mod::lemma_add_mod_noop(
            secs as int,
            NTP_JAN_1970 as int,
            0x1_0000_0000,
        );
        vstd::arithmetic::div_mod::lemma_small_mod(NTP_JAN_1970 as nat, 0x1_0000_0000);
        vstd::arithmetic::div_mod::lemma_mod_bound(
            base as int + NTP_JAN_1970 as int,
            0x1_0000_0000,
        );
    }
    ((base + NTP_JAN_1970 as u64) % NTP_FRAC_SCALE) as u32
}

/// Relates the remainder of a negative count to the remainder of its
/// complement: for `secs == -(t + 1)` with `t >= 0`,
/// `secs mod 2^32 == 2^32 - 1 - (t mod 2^32)`.
proof fn lemma_negative_low_bits_match(secs: int, t: int, b: int)
    requires
        secs < 0,
        t == -(secs + 1),
        b == 0xFFFF_FFFF - t % 0x1_0000_0000,
    ensures
        b == secs % 0x1_0000_0000,
{
    let n = 0x1_0000_0000int;
    vstd::arithmetic::div_mod::lemma_fundamental_div_mod(t, n);
    let q = t / n;
    let r = t % n;
    vstd::arithmetic::div_mod::lemma_mod_bound(t, n);
    assert(secs == (-q - 1) * n + (n - 1 - r)) by {
        assert(secs == -(q * n + r) - 1);
        assert((-q - 1) * n == -(q * n) - n) by (nonlinear_arith);
    }
    vstd::arithmetic::div_mod::lemma_fundamental_div_mod_converse(secs, n, -q - 1, n - 1 - r);
}

/// The fraction field encoded for a well-formed nanosecond remainder fits
/// 32 bits.
proof fn lemma_fraction_bounds(nanos: int)
    requires
        0 <= nanos < 1_000_000_000,
    ensures
        0 <= ntp_fraction_of(nanos) < 0x1_0000_0000,
{
    vstd::arithmetic::div_mod::lemma_div_pos_is_pos(nanos * 0x1_0000_0000, 1_000_000_000);
    vstd::arithmetic::div_mod::lemma_multiply_divide_lt(
        nanos * 0x1_0000_0000,
        1_000_000_000,
        0x1_0000_0000,
    );
}

/// Decoding the fraction field encoded for a nanosecond remainder rounds
/// down by at most one nanosecond and never rounds up.
proof fn lemma_decode_of_encode(nanos: int)
    requires
        0 <= nanos < 1_000_000_000,
    ensures
        nanos - 1 <= nanos_of_fraction(ntp_fraction_of(nanos)) <= nanos,
{
    let f = ntp_fraction_of(nanos);
    vstd::arithmetic::div_mod::lemma_fundamental_div_mod(nanos * 0x1_0000_0000, 1_000_000_000);
    vstd::arithmetic::div_mod::lemma_mod_bound(nanos * 0x1_0000_0000, 1_000_000_000);
    let r1 = (nanos * 0x1_0000_0000) % 1_000_000_000;
    assert(1_000_000_000 * f == nanos * 0x1_0000_0000 - r1);
    if r1 == 0 {
        vstd::arithmetic::div_mod::lemma_fundamental_div_mod_converse(
            f * 1_000_000_000,
            0x1_0000_0000,
            nanos,
            0,
        );
    } else {
        vstd::arithmetic::div_mod::lemma_fundamental_div_mod_converse(
            f * 1_000_000_000,
            0x1_0000_0000,
            nanos - 1,
            0x1_0000_0000 - r1,
        );
    }
}

/// The fraction encoding is strictly monotonic: within one second, a
/// larger nanosecond remainder encodes to a strictly larger fraction
/// field, because one nanosecond spans more than one fraction unit.
proof fn lemma_fraction_strictly_monotonic(na: int, nb: int)
    requires
        0 <= na < nb < 1_000_000_000,
    ensures
        ntp_fraction_of(na) < ntp_fraction_of(nb),
{
    let fa = ntp_fraction_of(na);
    let fb = ntp_fraction_of(nb);
    vstd::arithmetic::div_mod::lemma_fundamental_div_mod(na * 0x1_0000_0000, 1_000_000_000);
    vstd::arithmetic::div_mod::lemma_fundamental_div_mod(nb * 0x1_0000_0000, 1_000_000_000);
    vstd::arithmetic::div_mod::lemma_mod_bound(na * 0x1_0000_0000, 1_000_000_000);
    vstd::arithmetic::div_mod::lemma_mod_bound(nb * 0x1_0000_0000, 1_000_000_000);
    let ra = (na * 0x1_0000_0000) % 1_000_000_000;
    let rb = (nb * 0x1_0000_0000) % 1_000_000_000;
    assert(1_000_000_000 * (fb - fa) == (nb - na) * 0x1_0000_0000 - rb + ra);
    assert((nb - na) * 0x1_0000_0000 >= 0x1_0000_0000);
    assert(1_000_000_000 * (fb - fa) > 0);
}

/// Round trip: encoding a well-formed calendar instant that lies in the
/// NTP era, packing the two fields, and decoding the packed value
/// reproduces the instant's seconds exactly and its nanosecond remainder
/// within one nanosecond (the decoded remainder never exceeds the
/// original).
pub proof fn lemma_round_trip(instant: UtcInstant)
    requires
        instant.wf(),
        instant.in_ntp_era(),
    ensures
        ({
            let p = packed_of(
                ntp_seconds_of(instant.secs as int),
                ntp_fraction_of(instant.nanos as int),
            );
            let back_secs = p / 0x1_0000_0000 - NTP_JAN_1970;
            let back_nanos = nanos_of_fraction(p % 0x1_0000_0000);
            &&& back_secs == instant.secs
            &&& instant.nanos - 1 <= back_nanos <= instant.nanos
        }),
{
    let s = ntp_seconds_of(instant.secs as int);
    let f = ntp_fraction_of(instant.nanos as int);
    vstd::arithmetic::div_mod::lemma_small_mod(
        (instant.secs + NTP_JAN_1970) as nat,
        0x1_0000_0000nat,
    );
    lemma_fraction_bounds(instant.nanos as int);
    vstd::arithmetic::div_mod::lemma_fundamental_div_mod_converse(
        packed_of(s, f),
        0x1_0000_0000,
        s,
        f,
    );
    lemma_decode_of_encode(instant.nanos as int);
}

/// Monotonicity: of two well-formed calendar instants in the NTP era, the
/// strictly earlier one packs to the strictly smaller 64-bit NTP value.
pub proof fn lemma_monotonic(a: UtcInstant, b: UtcInstant)
    requires
        a.wf(),
        b.wf(),
        a.in_ntp_era(),
        b.in_ntp_era(),
        a.secs < b.secs || (a.secs == b.secs && a.nanos < b.nanos),
    ensures
        packed_of(ntp_seconds_of(a.secs as int), ntp_fraction_of(a.nanos as int)) < packed_of(
            ntp_seconds_of(b.secs as int),
            ntp_fraction_of(b.nanos as int),
        ),
{
    vstd::arithmetic::div_mod::lemma_small_mod((a.secs + NTP_JAN_1970) as nat, 0x1_0000_0000nat);
    vstd::arithmetic::div_mod::lemma_small_mod((b.secs + NTP_JAN_1970) as nat, 0x1_0000_0000nat);
    lemma_fraction_bounds(a.nanos as int);
    lemma_fraction_bounds(b.nanos as int);
    if a.secs == b.secs {
        lemma_fraction_strictly_monotonic(a.nanos as int, b.nanos as int);
    } else {
        assert((a.secs + NTP_JAN_1970 + 1) * 0x1_0000_0000 <= (b.secs + NTP_JAN_1970)
            * 0x1_0000_0000) by (nonlinear_arith)
            requires
                a.secs + NTP_JAN_1970 + 1 <= b.secs + NTP_JAN_1970,
        ;
    }
}

/// Re-encoding is exact on the fraction fields that a nanosecond
/// remainder represents without loss, the multiples of 2^23: since 2^32
/// and 10^9 share exactly the factor 2^9, such fields scale to a whole
/// number of nanoseconds and back. Decoding a packed timestamp whose
/// fraction is such a multiple and re-encoding the resulting instant
/// reproduces the original 64-bit value bit for bit. (Any other fraction
/// loses its low bits in the rounding to nanoseconds, so re-encoding it
/// cannot be exact.)
pub proof fn lemma_reencode_exact(ntp_time: u64)
    requires
        (ntp_time as int % 0x1_0000_0000) % 0x80_0000 == 0,
    ensures
        ({
            let secs = ntp_time as int / 0x1_0000_0000 - NTP_JAN_1970;
            let nanos = nanos_of_fraction(ntp_time as int % 0x1_0000_0000);
            packed_of(ntp_seconds_of(secs), ntp_fraction_of(nanos)) == ntp_time
        }),
{
    let f = ntp_time as int % 0x1_0000_0000;
    let hi = ntp_time as int / 0x1_0000_0000;
    vstd::arithmetic::div_mod::lemma_fundamental_div_mod(ntp_time as int, 0x1_0000_0000);
    vstd::arithmetic::div_mod::lemma_mod_bound(ntp_time as int, 0x1_0000_0000);
    vstd::arithmetic::div_mod::lemma_multiply_divide_lt(
        ntp_time as int,
        0x1_0000_0000,
        0x1_0000_0000,
    );
    vstd::arithmetic::div_mod::lemma_small_mod(hi as nat, 0x1_0000_0000nat);
    vstd::arithmetic::div_mod::lemma_fundamental_div_mod(f, 0x80_0000);
    let t = f / 0x80_0000;
    assert(f == 0x80_0000 * t);
    assert(f * 1_000_000_000 == (t * 1_953_125) * 0x1_0000_0000) by (nonlinear_arith)
        requires
            f == 0x80_0000 * t,
    ;
    vstd::arithmetic::div_mod::lemma_fundamental_div_mod_converse(
        f * 1_000_000_000,
        0x1_0000_0000,
        t * 1_953_125,
        0,
    );
    vstd::arithmetic::div_mod::lemma_fundamental_div_mod_converse(
        (t * 1_953_125) * 0x1_0000_0000,
        1_000_000_000,
        f,
        0,
    );
}

} // verus!
