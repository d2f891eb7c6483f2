//! Where along an edge the pointer crossed, as a fraction of that edge.
//!
//! A fraction is a single-precision number. It is held by its bit pattern and
//! described by the whole number of units of `2^-149` that it is worth, the
//! smallest step single precision has.

use crate::single;
use vstd::arithmetic::div_mod;
use vstd::arithmetic::power2;
use vstd::bits;
use vstd::prelude::*;

verus! {

/// The bit pattern of one.
pub const ONE: u32 = 0x3f80_0000;

/// The bit pattern of one half.
pub const HALF: u32 = 0x3f00_0000;

/// The sign bit alone: the bit pattern of negative zero.
pub const SIGN: u32 = 0x8000_0000;

/// The least pattern without its sign that is infinite or not a number.
pub const INFINITE: u32 = 0x7f80_0000;

/// What the lowest exponent bit is worth in a pattern.
pub const EXPONENT: u32 = 0x0080_0000;

/// Whether a bit pattern lies in `0..=1`.
pub open spec fn in_range(bits: u32) -> bool {
    bits <= ONE || bits == SIGN
}

/// The significant bits of a pattern.
pub open spec fn significand(bits: u32) -> nat {
    let magnitude = bits % SIGN;
    if magnitude < EXPONENT {
        magnitude as nat
    } else {
        (EXPONENT + magnitude % EXPONENT) as nat
    }
}

/// By which power of two the significant bits of a pattern are scaled.
pub open spec fn scale(bits: u32) -> nat {
    let magnitude = bits % SIGN;
    if magnitude < EXPONENT {
        0
    } else {
        (magnitude / EXPONENT - 1) as nat
    }
}

/// How many units of `2^-149` a finite pattern is worth without its sign.
pub open spec fn units(bits: u32) -> nat {
    significand(bits) * power2::pow2(scale(bits))
}

/// A pattern pulled into `0..=1`. What is no finite number counts as the
/// middle.
pub open spec fn clamped(bits: u32) -> u32 {
    if bits % SIGN >= INFINITE {
        HALF
    } else if bits > SIGN {
        0
    } else if ONE < bits < SIGN {
        ONE
    } else {
        bits
    }
}

/// The nearest pixel coordinate.
pub open spec fn saturated(coordinate: int) -> int {
    if coordinate < i32::MIN {
        i32::MIN as int
    } else if coordinate > i32::MAX {
        i32::MAX as int
    } else {
        coordinate
    }
}

/// How many units the fraction is worth at which `position` sits between
/// `min` and `max`. A span without length has only a middle.
pub open spec fn units_between(position: int, min: int, max: int) -> nat {
    let span = saturated(max - min);
    let offset = saturated(position - min);
    if span <= 0 {
        power2::pow2(148)
    } else if offset <= 0 {
        0
    } else {
        let quotient = single::nearest(
            single::nearest(offset as nat, 1) * power2::pow2(149),
            single::nearest(span as nat, 1),
        );
        if quotient > power2::pow2(149) {
            power2::pow2(149)
        } else {
            quotient
        }
    }
}

/// How far along a span of `span` pixels a fraction worth `units` lies, to the
/// nearest pixel, a half rounded up.
pub open spec fn offset_along(units: nat, span: nat) -> nat {
    let product = single::nearest(units * single::nearest(span, 1), 1);
    (product + power2::pow2(148)) / power2::pow2(149)
}

/// The pixel at a fraction worth `units` between `min` and `max`.
pub open spec fn projected(units: nat, min: int, max: int) -> int {
    let span = saturated(max - min);
    if span <= 0 {
        min
    } else {
        saturated(min + saturated(offset_along(units, span as nat) as int))
    }
}

/// Where along an edge the pointer crossed, as a fraction of that edge.
///
/// A fraction rather than a pixel offset because the two desktops rarely share
/// a resolution: leaving halfway down a 1080p screen should arrive halfway
/// down a 1440p one, not 540 pixels from its top.
#[derive(Debug, Clone, Copy)]
pub struct EdgeFraction {
    bits: u32,
}

impl PartialEq for EdgeFraction {
    /// Equal as numbers: both zeros are the same place.
    fn eq(&self, other: &Self) -> (same: bool) {
        self.bits % SIGN == other.bits % SIGN
    }
}

impl vstd::std_specs::cmp::PartialEqSpecImpl for EdgeFraction {
    open spec fn obeys_eq_spec() -> bool {
        true
    }

    open spec fn eq_spec(&self, other: &Self) -> bool {
        self.bits() % SIGN == other.bits() % SIGN
    }
}

fn saturating_difference(a: i32, b: i32) -> (difference: i32)
    ensures
        difference == saturated(a - b),
{
    let exact: i64 = i64::from(a) - i64::from(b);
    saturate(exact)
}

pub(crate) fn saturate(exact: i64) -> (coordinate: i32)
    ensures
        coordinate == saturated(exact as int),
{
    if exact < i64::from(i32::MIN) {
        i32::MIN
    } else if exact > i64::from(i32::MAX) {
        i32::MAX
    } else {
        exact as i32
    }
}

proof fn lemma_pow2_of_149(shift: nat)
    requires
        shift <= 126,
    ensures
        power2::pow2(149) == power2::pow2((23 + shift) as nat) * power2::pow2((126 - shift) as nat),
{
    power2::lemma_pow2_adds((23 + shift) as nat, (126 - shift) as nat);
}

/// The quotient of two rounded numbers, `offset` below `span`, is rounded at
/// bit `126 - shift`, where `2^shift` is what brings `offset` up to `span`.
proof fn lemma_quotient(offset: nat, span: nat, shift: nat)
    requires
        0 < offset < span,
        1 <= shift <= 31,
        span <= offset * power2::pow2(shift) < 2 * span,
    ensures
        single::nearest(offset * power2::pow2(149), span) == single::half_even(
            offset * power2::pow2(shift) * 0x0080_0000,
            span,
        ) * power2::pow2((126 - shift) as nat),
        0x0080_0000 <= single::half_even(offset * power2::pow2(shift) * 0x0080_0000, span)
            <= 0x0100_0000,
{
    let log = (126 - shift) as nat;
    let worth = power2::pow2(log);
    let lifted = offset * power2::pow2(shift) * 0x0080_0000;
    let num = offset * power2::pow2(149);
    power2::lemma2_to64();
    power2::lemma_pow2_pos(log);
    lemma_pow2_of_149(shift);
    power2::lemma_pow2_adds(23, shift);
    power2::lemma_pow2_adds(23, log);
    power2::lemma_pow2_adds(24, log);
    let step = power2::pow2(shift);
    assert(num == lifted * worth) by (nonlinear_arith)
        requires
            num == offset * power2::pow2(149),
            power2::pow2(149) == (0x0080_0000 * step) * worth,
            lifted == offset * step * 0x0080_0000,
    ;
    assert(num < span * power2::pow2(24 + log)) by (nonlinear_arith)
        requires
            num == lifted * worth,
            lifted < 0x0100_0000 * span,
            power2::pow2(24 + log) == 0x0100_0000 * worth,
            worth > 0,
    ;
    assert(span * power2::pow2((23 + log) as nat) <= num) by (nonlinear_arith)
        requires
            num == lifted * worth,
            lifted >= 0x0080_0000 * span,
            power2::pow2((23 + log) as nat) == 0x0080_0000 * worth,
    ;
    single::lemma_nearest(num, span, log);
    single::lemma_half_even_scales(lifted, span, worth);
    single::lemma_half_even_at_least(lifted, span, 0x0080_0000);
    single::lemma_half_even_at_most(lifted, span, 0x0100_0000);
}

/// What a pattern is worth that is put together from a scale and up to
/// `2^24` significant bits.
proof fn lemma_units_of_parts(log: u32, significant: u32, bits: u32)
    requires
        log <= 125,
        0x0080_0000 <= significant <= 0x0100_0000,
        bits == log * 0x0080_0000 + significant,
    ensures
        bits <= ONE,
        units(bits) == significant * power2::pow2(log as nat),
{
    assert(bits < SIGN);
    if significant < 0x0100_0000 {
        assert(bits / EXPONENT == log + 1);
        assert(bits % EXPONENT == significant - EXPONENT);
        assert(scale(bits) == log);
        assert(significand(bits) == significant);
    } else {
        assert(bits / EXPONENT == log + 2);
        assert(bits % EXPONENT == 0);
        assert(scale(bits) == log + 1);
        power2::lemma_pow2_unfold((log + 1) as nat);
        let worth = power2::pow2(log as nat);
        assert(significand(bits) * (2 * worth) == significant * worth) by (nonlinear_arith)
            requires
                2 * significand(bits) == significant,
        ;
    }
}

pub(crate) proof fn lemma_units_of_one_and_half()
    ensures
        units(ONE) == power2::pow2(149),
        units(HALF) == power2::pow2(148),
        units(0) == 0,
        units(SIGN) == 0,
{
    power2::lemma2_to64();
    power2::lemma_pow2_adds(23, 126);
    power2::lemma_pow2_adds(23, 125);
    assert(significand(0) == 0 && scale(0) == 0);
    assert(significand(SIGN) == 0 && scale(SIGN) == 0);
    assert(0 * power2::pow2(0) == 0) by (nonlinear_arith);
    assert(0x3f80_0000u32 / 0x0080_0000u32 == 127 && 0x3f80_0000u32 % 0x0080_0000u32 == 0);
    assert(0x3f00_0000u32 / 0x0080_0000u32 == 126 && 0x3f00_0000u32 % 0x0080_0000u32 == 0);
}

impl EdgeFraction {
    /// The bit pattern of the fraction.
    pub closed spec fn bits(self) -> u32 {
        self.bits
    }

    #[verifier::type_invariant]
    closed spec fn on_the_edge(self) -> bool {
        in_range(self.bits)
    }

    /// Clamp a raw fraction, given by its bit pattern, into range.
    ///
    /// Values outside `0..=1` are not trusted arithmetic, since they arrive
    /// from a peer. They are clamped rather than rejected: a pointer at a
    /// corner is still a pointer, and refusing the handoff would strand it.
    #[must_use]
    pub fn new(value: u32) -> (fraction: Self)
        ensures
            fraction.bits() == clamped(value),
            in_range(fraction.bits()),
    {
        let bits: u32 = if value % SIGN >= INFINITE {
            HALF
        } else if value > SIGN {
            0
        } else if ONE < value && value < SIGN {
            ONE
        } else {
            value
        };
        EdgeFraction { bits }
    }

    /// Where `position` sits between `min` and `max`, inclusive.
    #[must_use]
    pub fn between(position: i32, min: i32, max: i32) -> (fraction: Self)
        ensures
            units(fraction.bits()) == units_between(position as int, min as int, max as int),
            fraction.bits() <= ONE,
    {
        proof {
            lemma_units_of_one_and_half();
        }
        let span: i32 = saturating_difference(max, min);
        if span <= 0 {
            return EdgeFraction { bits: HALF };
        }
        let offset: i32 = saturating_difference(position, min);
        if offset <= 0 {
            return EdgeFraction { bits: 0 };
        }
        let whole: u64 = single::to_single(span as u64);
        let part: u64 = single::to_single(offset as u64);
        proof {
            power2::lemma2_to64();
            single::lemma_nearest_at_most(span as nat, power2::pow2(24), 7);
            single::lemma_nearest_ratio_at_least(offset as nat, 1, 0);
            assert(offset * power2::pow2(0) == offset);
        }
        if part >= whole {
            proof {
                single::lemma_nearest_ratio_at_least(span as nat, 1, 0);
                assert(span * power2::pow2(0) == span);
                single::lemma_nearest_ratio_at_least(part as nat, whole as nat, 149);
            }
            return EdgeFraction { bits: ONE };
        }
        let (shift, lifted) = lift(part, whole);
        let significant: u64 = single::ratio_half_even(lifted * 0x0080_0000, whole);
        proof {
            lemma_quotient(part as nat, whole as nat, shift as nat);
        }
        let bits: u32 = (126 - shift) * EXPONENT + significant as u32;
        proof {
            lemma_units_of_parts((126 - shift) as u32, significant as u32, bits);
            let log = (126 - shift) as nat;
            single::lemma_pow2_grows(24 + log, 149);
            power2::lemma_pow2_adds(24, log);
            let worth = power2::pow2(log);
            assert(significant * worth <= 0x0100_0000 * worth) by (nonlinear_arith)
                requires
                    significant <= 0x0100_0000,
            ;
        }
        EdgeFraction { bits }
    }

    /// Project the fraction back onto a span of this host's own screen.
    #[must_use]
    pub fn project(self, min: i32, max: i32) -> (pixel: i32)
        ensures
            pixel == projected(units(self.bits()), min as int, max as int),
    {
        proof {
            use_type_invariant(&self);
        }
        let span: i32 = saturating_difference(max, min);
        if span <= 0 {
            return min;
        }
        let offset: u64 = scaled_span(self.bits, span as u32);
        saturate(i64::from(min) + i64::from(saturate(offset as i64)))
    }

    /// The raw fraction, as a bit pattern.
    #[must_use]
    pub fn value(self) -> (bits: u32)
        ensures
            bits == self.bits(),
            in_range(bits),
    {
        proof {
            use_type_invariant(&self);
        }
        self.bits
    }
}

/// How far along a span of `span` pixels the fraction lies.
fn scaled_span(bits: u32, span: u32) -> (offset: u64)
    requires
        in_range(bits),
        0 < span <= i32::MAX,
    ensures
        offset == offset_along(units(bits), span as nat),
        offset <= 0x0200_0000_0000_0000,
{
    let magnitude: u32 = bits % SIGN;
    let log: u32 = if magnitude < EXPONENT {
        0
    } else {
        magnitude / EXPONENT - 1
    };
    let significant: u32 = if magnitude < EXPONENT {
        magnitude
    } else {
        EXPONENT + magnitude % EXPONENT
    };
    let whole: u64 = single::to_single(span as u64);
    proof {
        power2::lemma2_to64();
        single::lemma_nearest_at_most(span as nat, power2::pow2(24), 7);
        assert(log <= 126 && significant < 0x0100_0000);
        assert(significant * whole < 0x0100_0000_0000_0000) by (nonlinear_arith)
            requires
                significant < 0x0100_0000,
                whole <= 0x8000_0000,
        ;
    }
    let product: u64 = single::to_single(significant as u64 * whole);
    proof {
        lemma_offset(significant as nat, whole as nat, log as nat, product as nat);
        assert(units(bits) == significant * power2::pow2(log as nat));
    }
    let drop: u32 = 149 - log;
    if drop >= 58 {
        proof {
            power2::lemma2_to64_rest();
            single::lemma_pow2_grows(57, (drop - 1) as nat);
            power2::lemma_pow2_unfold(drop as nat);
            div_mod::lemma_basic_div(
                product + power2::pow2((drop - 1) as nat),
                power2::pow2(drop as nat) as int,
            );
        }
        0
    } else {
        let half: u64 = 1u64 << ((drop - 1) as u64);
        proof {
            power2::lemma2_to64_rest();
            single::lemma_pow2_grows((drop - 1) as nat, 56);
            power2::lemma_pow2_unfold(drop as nat);
            power2::lemma_pow2_pos((drop - 1) as nat);
            bits::lemma_u64_shl_is_mul(1, (drop - 1) as u64);
            div_mod::lemma_div_nonincreasing(product + half, 2 * half as int);
        }
        (product + half) / (2 * half)
    }
}

/// Rounding a scaled product to pixels is dropping the bits below a pixel.
proof fn lemma_offset(significant: nat, whole: nat, log: nat, product: nat)
    requires
        log <= 126,
        product == single::nearest(significant * whole, 1),
    ensures
        (single::nearest(significant * power2::pow2(log) * whole, 1) + power2::pow2(148))
            / power2::pow2(149) == (product + power2::pow2((148 - log) as nat))
            / power2::pow2((149 - log) as nat),
{
    let power = power2::pow2(log);
    let half = power2::pow2((148 - log) as nat);
    let full = power2::pow2((149 - log) as nat);
    assert(significant * power * whole == (significant * whole) * power) by (nonlinear_arith);
    single::lemma_nearest_scales(significant * whole, log);
    power2::lemma_pow2_adds((148 - log) as nat, log);
    power2::lemma_pow2_adds((149 - log) as nat, log);
    power2::lemma_pow2_pos(log);
    power2::lemma_pow2_pos((149 - log) as nat);
    assert(product * power + half * power == power * (product + half)) by (nonlinear_arith);
    assert(full * power == power * full) by (nonlinear_arith);
    div_mod::lemma_div_denominator((power * (product + half)) as int, power as int, full as int);
    div_mod::lemma_div_by_multiple((product + half) as int, power as int);
    assert((product + half) * power == power * (product + half)) by (nonlinear_arith);
}

/// How often `part` has to be doubled to reach `whole`, and what it is then.
fn lift(part: u64, whole: u64) -> (lifted: (u32, u64))
    requires
        0 < part < whole,
        whole <= 0x8000_0000,
    ensures
        1 <= lifted.0 <= 31,
        lifted.1 == part * power2::pow2(lifted.0 as nat),
        whole <= lifted.1 < 2 * whole,
{
    let mut shift: u32 = 1;
    let mut doubled: u64 = part * 2;
    proof {
        power2::lemma2_to64();
    }
    while doubled < whole
        invariant
            0 < part < whole,
            whole <= 0x8000_0000,
            1 <= shift <= 31,
            doubled == part * power2::pow2(shift as nat),
            doubled < 2 * whole,
        decreases 32 - shift,
    {
        proof {
            power2::lemma2_to64();
            power2::lemma_pow2_unfold((shift + 1) as nat);
            let power = power2::pow2(shift as nat);
            assert(doubled * 2 == part * (2 * power) && power <= doubled) by (nonlinear_arith)
                requires
                    doubled == part * power,
                    part >= 1,
            ;
        }
        doubled = doubled * 2;
        shift = shift + 1;
    }
    (shift, doubled)
}

} // verus!
