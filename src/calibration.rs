//! Conversion of raw counts into calibrated irradiance, in exact fractions.
//!
//! A raw count is first normalised by gain and integration time into "basic
//! counts"; the ratio to the basic counts of a factory reference reading,
//! scaled by that reading's irradiance constant, gives the irradiance.
//! Times are kept in nanoseconds (one integration step is 2.78 µs = 2780 ns)
//! and gains in halves (code `g` stands for `2^g / 2`), so every quantity is
//! an exact integer and the result an exact fraction.
use vstd::prelude::*;
use vstd::arithmetic::power2::{pow2, lemma2_to64, lemma_pow2_unfold, lemma_pow2_strictly_increases};

verus! {

/// Nanoseconds in one integration step.
pub const STEP_NS: u64 = 2780;

/// Nanoseconds in a millisecond.
pub const NS_PER_MS: u64 = 1_000_000;

/// A non-negative fraction `numerator / denominator`.
#[derive(Clone, Copy, Debug, PartialEq, Eq, Structural)]
pub struct Fraction {
    pub numerator: u128,
    pub denominator: u128,
}

impl Fraction {
    /// Whether the fraction equals the integer `k`.
    pub open spec fn equals_int(self, k: int) -> bool {
        self.numerator == k * self.denominator
    }

    /// Whether the fraction equals `n / d`.
    pub open spec fn equals(self, n: int, d: int) -> bool {
        self.numerator * d == n * self.denominator
    }
}

/// Twice the gain of a gain code: the gain of code `g` is `2^g / 2`.
pub open spec fn gain_halves(code: u8) -> nat {
    pow2(code as nat)
}

/// Number of 2.78 µs steps in one integration.
pub open spec fn integration_steps(atime: u8, astep: u16) -> nat {
    (atime as nat + 1) * (astep as nat + 1)
}

/// Integration time in nanoseconds.
pub open spec fn integration_ns(atime: u8, astep: u16) -> nat {
    integration_steps(atime, astep) * 2780
}

/// Basic counts `raw / (gain × time_ms)` as a numerator and a denominator,
/// with the gain given by its code and the time in nanoseconds: with gain
/// `2^g / 2` and `time_ms = time_ns / 10^6` this is
/// `raw × 2 × 10^6 / (2^g × time_ns)`.
pub open spec fn basic_counts(raw: nat, gain: u8, time_ns: nat) -> (nat, nat) {
    (raw * 2 * 1_000_000, gain_halves(gain) * time_ns)
}

/// Irradiance of a reading, as a numerator and a denominator: the basic counts
/// of the reading (taken at the device's gain and integration time) divided by
/// the basic counts of the reference reading, times the reference constant.
pub open spec fn irradiance_of(
    raw: u16,
    gain: u8,
    atime: u8,
    astep: u16,
    ref_count: u16,
    ref_time_ns: u32,
    ref_gain: u8,
    ref_ee: u32,
) -> (nat, nat) {
    let reading = basic_counts(raw as nat, gain, integration_ns(atime, astep));
    let reference = basic_counts(ref_count as nat, ref_gain, ref_time_ns as nat);
    (reading.0 * reference.1 * (ref_ee as nat), reading.1 * reference.0)
}

/// Twice the gain of `code`, for a valid code.
fn gain_halves_of(code: u8) -> (r: u32)
    requires
        code <= 12,
    ensures
        r == gain_halves(code),
        1 <= r <= 4096,
{
    let mut v: u32 = 1;
    let mut i: u8 = 0;
    proof {
        lemma2_to64();
    }
    while i < code
        invariant
            i <= code <= 12,
            v == pow2(i as nat),
            1 <= v <= pow2(i as nat),
            pow2(12) == 4096,
        decreases code - i,
    {
        proof {
            lemma_pow2_unfold((i + 1) as nat);
            if i + 1 < 12 {
                lemma_pow2_strictly_increases((i + 1) as nat, 12);
            }
        }
        v = v * 2;
        i = i + 1;
    }
    proof {
        if code < 12 {
            lemma_pow2_strictly_increases(code as nat, 12);
        }
    }
    v
}

/// The gain value of a code: `Some(1/2)` for code 0, `Some(2^(g-1))` for a
/// code `g` in 1..=12, `None` for any other code.
pub fn gain_value(code: u8) -> (r: Option<Fraction>)
    ensures
        r is Some <==> code <= 12,
        code <= 12 ==> r == Some(
            (Fraction { numerator: gain_halves(code) as u128, denominator: 2 }),
        ),
        code == 0 ==> r->Some_0.equals(1, 2),
        1 <= code <= 12 ==> r->Some_0.equals_int(pow2((code - 1) as nat) as int),
{
    if code > 12 {
        return None;
    }
    let h = gain_halves_of(code);
    proof {
        lemma2_to64();
        if code >= 1 {
            lemma_pow2_unfold(code as nat);
        }
    }
    Some(Fraction { numerator: h as u128, denominator: 2 })
}

/// Integration time in nanoseconds: `(atime + 1) × (astep + 1) × 2780`, that is
/// `(atime + 1) × (astep + 1) × 2.78` µs.
pub fn integration_time_ns(atime: u8, astep: u16) -> (r: u64)
    ensures
        r == integration_ns(atime, astep),
        r == (atime as int + 1) * (astep as int + 1) * 2780,
{
    let a = atime as u64 + 1;
    let s = astep as u64 + 1;
    assert(a * s <= 256 * 65536) by (nonlinear_arith)
        requires
            1 <= a <= 256,
            1 <= s <= 65536,
    ;
    let steps = a * s;
    steps * STEP_NS
}

/// Basic counts of a raw count taken at gain code `gain` and the integration
/// time that `atime` and `astep` give: `raw / (gain_value(gain) × time_ms)`,
/// with `time_ms = (atime + 1) × (astep + 1) × 2.78 / 1000`. `None` for a gain
/// code outside 0..=12.
pub fn basic_counts_of(raw: u16, gain: u8, atime: u8, astep: u16) -> (r: Option<Fraction>)
    ensures
        r is Some <==> gain <= 12,
        r matches Some(f) ==> {
            let v = basic_counts(raw as nat, gain, integration_ns(atime, astep));
            &&& f.numerator == v.0
            &&& f.denominator == v.1
            &&& f.denominator > 0
        },
{
    if gain > 12 {
        return None;
    }
    let h = gain_halves_of(gain) as u128;
    let t = integration_time_ns(atime, astep) as u128;
    proof {
        assert(t <= 256 * 65536 * 2780 && t >= 2780) by (nonlinear_arith)
            requires
                t == (atime as int + 1) * (astep as int + 1) * 2780,
                0 <= atime <= 255,
                0 <= astep <= 65535,
        ;
        assert(h * t <= 4096 * (256 * 65536 * 2780) && h * t > 0) by (nonlinear_arith)
            requires
                1 <= h <= 4096,
                2780 <= t <= 256 * 65536 * 2780,
        ;
    }
    let scale: u128 = 2 * NS_PER_MS as u128;
    assert(raw as u128 * scale <= 65535 * 2_000_000) by (nonlinear_arith)
        requires
            scale == 2_000_000,
            raw <= 65535,
    ;
    Some(Fraction { numerator: raw as u128 * scale, denominator: h * t })
}

/// Basic counts of a calibration reference: `count` at `time_ns` nanoseconds
/// and gain code `gain`, that is `count / (gain_value(gain) × time_ms)`.
/// `None` for a gain code outside 0..=12 or a zero time.
pub fn calibration_basic_counts(count: u16, time_ns: u32, gain: u8) -> (r: Option<Fraction>)
    ensures
        r is Some <==> gain <= 12 && time_ns > 0,
        r matches Some(f) ==> {
            let v = basic_counts(count as nat, gain, time_ns as nat);
            &&& f.numerator == v.0
            &&& f.denominator == v.1
            &&& f.denominator > 0
        },
{
    if gain > 12 || time_ns == 0 {
        return None;
    }
    let h = gain_halves_of(gain) as u128;
    let t = time_ns as u128;
    assert(h * t <= 4096 * 0xFFFF_FFFF && h * t > 0) by (nonlinear_arith)
        requires
            1 <= h <= 4096,
            1 <= t <= 0xFFFF_FFFF,
    ;
    let scale: u128 = 2 * NS_PER_MS as u128;
    assert(count as u128 * scale <= 65535 * 2_000_000) by (nonlinear_arith)
        requires
            scale == 2_000_000,
            count <= 65535,
    ;
    Some(Fraction { numerator: count as u128 * scale, denominator: h * t })
}

/// Irradiance of a raw count, in the units of `ref_ee`.
///
/// `gain`, `atime` and `astep` are the device's settings when the count was
/// taken; the reference reading is `ref_count` at `ref_time_ns` nanoseconds and
/// gain code `ref_gain`, with irradiance constant `ref_ee`. `None` when a gain
/// code is outside 0..=12 or the reference count is zero.
pub fn irradiance(
    raw: u16,
    gain: u8,
    atime: u8,
    astep: u16,
    ref_count: u16,
    ref_time_ns: u32,
    ref_gain: u8,
    ref_ee: u32,
) -> (r: Option<Fraction>)
    ensures
        r is Some <==> gain <= 12 && ref_gain <= 12 && ref_count > 0,
        r matches Some(f) ==> {
            let v = irradiance_of(raw, gain, atime, astep, ref_count, ref_time_ns, ref_gain, ref_ee);
            &&& f.numerator == v.0
            &&& f.denominator == v.1
            &&& f.denominator > 0
        },
{
    if gain > 12 || ref_gain > 12 || ref_count == 0 {
        return None;
    }
    let h = gain_halves_of(gain) as u128;
    let h_ref = gain_halves_of(ref_gain) as u128;
    let t = integration_time_ns(atime, astep) as u128;
    let t_ref = ref_time_ns as u128;
    let scale = 2 * NS_PER_MS as u128;
    proof {
        assert(t <= 256 * 65536 * 2780) by (nonlinear_arith)
            requires
                t == (atime as int + 1) * (astep as int + 1) * 2780,
                atime <= 255,
                astep <= 65535,
        ;
        assert(t >= 2780) by (nonlinear_arith)
            requires
                t == (atime as int + 1) * (astep as int + 1) * 2780,
                atime >= 0,
                astep >= 0,
        ;
    }
    assert(h * t <= 4096 * (256 * 65536 * 2780) && h_ref * t_ref <= 4096 * 0xFFFF_FFFF)
        by (nonlinear_arith)
        requires
            h <= 4096,
            h_ref <= 4096,
            t <= 256 * 65536 * 2780,
            t_ref <= 0xFFFF_FFFF,
    ;
    let reading_num = raw as u128 * scale;
    let reading_den = h * t;
    let reference_num = ref_count as u128 * scale;
    let reference_den = h_ref * t_ref;
    assert(reading_num <= 65535 * 2_000_000 && reading_den <= 4096 * (256 * 65536 * 2780)
        && reference_num <= 65535 * 2_000_000 && reference_den <= 4096 * 0xFFFF_FFFF)
        by (nonlinear_arith)
        requires
            reading_num == raw as u128 * 2_000_000,
            reading_den == h * t,
            reference_num == ref_count as u128 * 2_000_000,
            reference_den == h_ref * t_ref,
            raw <= 65535,
            ref_count <= 65535,
            h <= 4096,
            h_ref <= 4096,
            t <= 256 * 65536 * 2780,
            t_ref <= 0xFFFF_FFFF,
    ;
    assert(reading_num * reference_den <= (65535 * 2_000_000) * (4096 * 0xFFFF_FFFF))
        by (nonlinear_arith)
        requires
            reading_num <= 65535 * 2_000_000,
            reference_den <= 4096 * 0xFFFF_FFFF,
    ;
    let partial = reading_num * reference_den;
    assert(partial * ref_ee as u128 <= (65535 * 2_000_000) * (4096 * 0xFFFF_FFFF) * 0xFFFF_FFFF)
        by (nonlinear_arith)
        requires
            partial <= (65535 * 2_000_000) * (4096 * 0xFFFF_FFFF),
            ref_ee <= 0xFFFF_FFFF,
    ;
    let numerator = partial * ref_ee as u128;
    assert(reading_den * reference_num <= 25039631847889305600000000) by (nonlinear_arith)
        requires
            reading_den <= 191040145326080,
            reference_num <= 131070000000,
    ;
    assert(reading_den * reference_num > 0) by (nonlinear_arith)
        requires
            reading_den == h * t,
            h >= 1,
            t >= 2780,
            reference_num == ref_count as u128 * 2_000_000,
            ref_count >= 1,
    ;
    let denominator = reading_den * reference_num;
    Some(Fraction { numerator, denominator })
}

/// Irradiance is linear in the reference constant: with everything else
/// fixed, doubling `ref_ee` doubles the irradiance.
pub proof fn lemma_irradiance_linear_in_ref_ee(
    raw: u16,
    gain: u8,
    atime: u8,
    astep: u16,
    ref_count: u16,
    ref_time_ns: u32,
    ref_gain: u8,
    ref_ee: u32,
    doubled_ee: u32,
)
    requires
        doubled_ee == 2 * ref_ee,
    ensures
        ({
            let once = irradiance_of(raw, gain, atime, astep, ref_count, ref_time_ns, ref_gain, ref_ee);
            let twice = irradiance_of(
                raw,
                gain,
                atime,
                astep,
                ref_count,
                ref_time_ns,
                ref_gain,
                doubled_ee,
            );
            twice.0 * once.1 == 2 * once.0 * twice.1
        }),
{
    let once = irradiance_of(raw, gain, atime, astep, ref_count, ref_time_ns, ref_gain, ref_ee);
    let twice = irradiance_of(raw, gain, atime, astep, ref_count, ref_time_ns, ref_gain, doubled_ee);
    let reading = basic_counts(raw as nat, gain, integration_ns(atime, astep));
    let reference = basic_counts(ref_count as nat, ref_gain, ref_time_ns as nat);
    let k = reading.0 * reference.1;
    assert(twice.0 == 2 * once.0) by (nonlinear_arith)
        requires
            twice.0 == k * doubled_ee,
            once.0 == k * ref_ee,
            doubled_ee == 2 * ref_ee,
    ;
    assert(twice.1 == once.1);
    assert(twice.0 * once.1 == 2 * once.0 * twice.1) by (nonlinear_arith)
        requires
            twice.0 == 2 * once.0,
            twice.1 == once.1,
    ;
}

/// Irradiance is inversely linear in the reference count: with everything
/// else fixed, doubling `ref_count` halves the irradiance.
pub proof fn lemma_irradiance_inverse_in_ref_count(
    raw: u16,
    gain: u8,
    atime: u8,
    astep: u16,
    ref_count: u16,
    doubled_count: u16,
    ref_time_ns: u32,
    ref_gain: u8,
    ref_ee: u32,
)
    requires
        doubled_count == 2 * ref_count,
    ensures
        ({
            let once = irradiance_of(raw, gain, atime, astep, ref_count, ref_time_ns, ref_gain, ref_ee);
            let twice = irradiance_of(
                raw,
                gain,
                atime,
                astep,
                doubled_count,
                ref_time_ns,
                ref_gain,
                ref_ee,
            );
            2 * twice.0 * once.1 == once.0 * twice.1
        }),
{
    let once = irradiance_of(raw, gain, atime, astep, ref_count, ref_time_ns, ref_gain, ref_ee);
    let twice = irradiance_of(raw, gain, atime, astep, doubled_count, ref_time_ns, ref_gain, ref_ee);
    let reading = basic_counts(raw as nat, gain, integration_ns(atime, astep));
    let d = reading.1;
    assert(twice.0 == once.0);
    assert(twice.1 == 2 * once.1) by (nonlinear_arith)
        requires
            twice.1 == d * (doubled_count as nat * 2 * 1_000_000),
            once.1 == d * (ref_count as nat * 2 * 1_000_000),
            doubled_count == 2 * ref_count,
    ;
    assert(2 * twice.0 * once.1 == once.0 * twice.1) by (nonlinear_arith)
        requires
            twice.0 == once.0,
            twice.1 == 2 * once.1,
    ;
}

/// A reading taken at the reference's own condition (same count, same gain,
/// an integration time equal to the reference time) has exactly the
/// reference's irradiance constant.
pub proof fn lemma_reference_reading_reproduces_constant(
    raw: u16,
    gain: u8,
    atime: u8,
    astep: u16,
    ref_count: u16,
    ref_time_ns: u32,
    ref_gain: u8,
    ref_ee: u32,
)
    requires
        raw == ref_count,
        gain == ref_gain,
        integration_ns(atime, astep) == ref_time_ns,
    ensures
        ({
            let v = irradiance_of(raw, gain, atime, astep, ref_count, ref_time_ns, ref_gain, ref_ee);
            v.0 == ref_ee * v.1
        }),
{
    let v = irradiance_of(raw, gain, atime, astep, ref_count, ref_time_ns, ref_gain, ref_ee);
    let reading = basic_counts(raw as nat, gain, integration_ns(atime, astep));
    let reference = basic_counts(ref_count as nat, ref_gain, ref_time_ns as nat);
    assert(reading == reference);
    assert(v.0 == ref_ee * v.1) by (nonlinear_arith)
        requires
            v.0 == reading.0 * reference.1 * (ref_ee as nat),
            v.1 == reading.1 * reference.0,
            reading == reference,
    ;
}

} // verus!
