//! What holds of edge fractions whatever the screens.

use crate::fraction;
use crate::single;
use vstd::arithmetic::div_mod;
use vstd::arithmetic::power2;
use vstd::prelude::*;

verus! {

/// A number that lies on the edge is left alone, up to its exact value; one
/// past either end is brought to that end; what is no finite number counts as
/// the middle.
pub proof fn law_a_raw_fraction_is_clamped(bits: u32)
    ensures
        fraction::in_range(fraction::clamped(bits)),
        bits % fraction::SIGN >= fraction::INFINITE ==> fraction::units(fraction::clamped(bits))
            == power2::pow2(148),
        fraction::SIGN < bits && bits % fraction::SIGN < fraction::INFINITE ==> fraction::units(
            fraction::clamped(bits),
        ) == 0,
        bits < fraction::INFINITE ==> fraction::units(fraction::clamped(bits)) == if fraction::units(
            bits,
        ) > power2::pow2(149) {
            power2::pow2(149)
        } else {
            fraction::units(bits)
        },
{
    fraction::lemma_units_of_one_and_half();
    if bits < fraction::ONE {
        lemma_units_grow(bits, fraction::ONE);
    } else if fraction::ONE < bits < fraction::INFINITE {
        lemma_units_grow(fraction::ONE, bits);
    }
}

/// Every fraction lies between the two ends of its edge.
pub proof fn law_a_fraction_lies_on_its_edge(bits: u32)
    requires
        fraction::in_range(bits),
    ensures
        fraction::units(bits) <= power2::pow2(149),
{
    fraction::lemma_units_of_one_and_half();
    if bits < fraction::ONE {
        lemma_units_grow(bits, fraction::ONE);
    }
}

/// Fractions that are worth the same are the same pattern, apart from the
/// sign of zero.
pub proof fn law_worth_tells_fractions_apart(a: u32, b: u32)
    requires
        fraction::in_range(a),
        fraction::in_range(b),
        fraction::units(a) == fraction::units(b),
    ensures
        a % fraction::SIGN == b % fraction::SIGN,
{
    let plain_a = a % fraction::SIGN;
    let plain_b = b % fraction::SIGN;
    assert(fraction::units(plain_a) == fraction::units(a));
    assert(fraction::units(plain_b) == fraction::units(b));
    if plain_a < plain_b {
        lemma_units_grow(plain_a, plain_b);
    } else if plain_b < plain_a {
        lemma_units_grow(plain_b, plain_a);
    }
}

/// A larger pattern is worth more.
proof fn lemma_units_grow(a: u32, b: u32)
    requires
        a < b < fraction::INFINITE,
    ensures
        fraction::units(a) < fraction::units(b),
{
    let fa = fraction::significand(a);
    let fb = fraction::significand(b);
    let ea = fraction::scale(a);
    let eb = fraction::scale(b);
    let pa = power2::pow2(ea);
    let pb = power2::pow2(eb);
    power2::lemma_pow2_pos(ea);
    if ea == eb {
        assert(fa < fb);
        assert(fa * pa < fb * pa) by (nonlinear_arith)
            requires
                fa < fb,
                pa > 0,
        ;
    } else {
        assert(ea < eb && fa < 0x0100_0000 && fb >= 0x0080_0000);
        power2::lemma_pow2_unfold(ea + 1);
        single::lemma_pow2_grows(ea + 1, eb);
        assert(fa * pa < fb * pb) by (nonlinear_arith)
            requires
                fa < 0x0100_0000,
                fb >= 0x0080_0000,
                pb >= 2 * pa,
                pa > 0,
        ;
    }
}

/// Along a span, a fraction lies between nothing and the span as single
/// precision holds it.
pub(crate) proof fn lemma_offset_along_is_bounded(units: nat, span: nat)
    requires
        units <= power2::pow2(149),
    ensures
        fraction::offset_along(units, span) <= single::nearest(span, 1),
        units == 0 ==> fraction::offset_along(units, span) == 0,
        units == power2::pow2(149) ==> fraction::offset_along(units, span) == single::nearest(
            span,
            1,
        ),
{
    let whole = single::nearest(span, 1);
    let one = power2::pow2(149);
    let half = power2::pow2(148);
    let product = single::nearest(units * whole, 1);
    power2::lemma_pow2_unfold(149);
    power2::lemma_pow2_pos(148);
    let top = whole * one;
    assert(units * whole <= top) by (nonlinear_arith)
        requires
            top == whole * one,
            units <= one,
    ;
    let (kept, shift) = single::lemma_nearest_is_single(span);
    single::lemma_nearest_at_most(whole, kept, shift);
    assert(single::nearest(whole, 1) == whole) by {
        single::lemma_nearest_is_stable(span);
    }
    power2::lemma_pow2_adds(shift, 149);
    assert(top == kept * power2::pow2(shift + 149)) by (nonlinear_arith)
        requires
            top == whole * one,
            whole == kept * power2::pow2(shift),
            power2::pow2(shift + 149) == power2::pow2(shift) * one,
    ;
    single::lemma_nearest_at_most(units * whole, kept, shift + 149);
    assert(product <= top);
    div_mod::lemma_fundamental_div_mod_converse((top + half) as int, one as int, whole as int, half as int);
    div_mod::lemma_div_is_ordered((product + half) as int, (top + half) as int, one as int);
    if units == 0 {
        assert(units * whole == 0) by (nonlinear_arith)
            requires
                units == 0,
        ;
        single::lemma_nearest_keeps(0);
        div_mod::lemma_basic_div(half as int, one as int);
    }
    if units == one {
        assert(units * whole == whole * one) by (nonlinear_arith)
            requires
                units == one,
        ;
        single::lemma_nearest_scales(whole, 149);
    }
}

/// Half of a span that single precision holds exactly is its middle pixel, the
/// later one of two.
pub(crate) proof fn lemma_offset_along_half(span: nat)
    requires
        span <= 0x0100_0000,
    ensures
        fraction::offset_along(power2::pow2(148), span) == (span + 1) / 2,
{
    let one = power2::pow2(149);
    let half = power2::pow2(148);
    power2::lemma2_to64();
    power2::lemma_pow2_unfold(149);
    power2::lemma_pow2_pos(148);
    single::lemma_nearest_keeps(span);
    assert(half * span == span * half) by (nonlinear_arith);
    single::lemma_nearest_scales(span, 148);
    let whole = ((span + 1) / 2) as int;
    let rest = ((span + 1) % 2) as int;
    assert(span * half + half == whole * one + rest * half) by (nonlinear_arith)
        requires
            span + 1 == 2 * whole + rest,
            one == 2 * half,
    ;
    assert(0 <= rest * half < one) by (nonlinear_arith)
        requires
            0 <= rest <= 1,
            one == 2 * half,
            half > 0,
    ;
    div_mod::lemma_fundamental_div_mod_converse(
        (span * half + half) as int,
        one as int,
        whole,
        rest * half,
    );
}

/// Rounding to single precision and to whole pixels costs less than a pixel on
/// a span of at most `2^22` pixels.
pub(crate) proof fn lemma_offset_along_is_near(units: nat, span: nat)
    requires
        units <= power2::pow2(149),
        span <= 0x0040_0000,
    ensures
        fraction::offset_along(units, span) * power2::pow2(149) - units * span < power2::pow2(149),
        units * span - fraction::offset_along(units, span) * power2::pow2(149) < power2::pow2(149),
{
    let one = power2::pow2(149);
    let half = power2::pow2(148);
    let quarter = power2::pow2(147);
    power2::lemma2_to64();
    power2::lemma_pow2_unfold(149);
    power2::lemma_pow2_unfold(148);
    power2::lemma_pow2_adds(22, 149);
    power2::lemma_pow2_adds(24, 147);
    single::lemma_pow2_grows(30, 147);
    single::lemma_nearest_keeps(span);
    let exact = units * span;
    assert(exact <= 0x0040_0000 * one) by (nonlinear_arith)
        requires
            exact == units * span,
            units <= one,
            span <= 0x0040_0000,
    ;
    let product = single::nearest(exact, 1);
    assert(2 * (product - exact) <= (exact / 0x0080_0000) + 1 && 2 * (exact - product) <= (exact
        / 0x0080_0000) + 1) by {
        let last = single::lemma_last_bit_exists(exact, 1);
        let step = power2::pow2(last);
        power2::lemma_pow2_pos(last);
        single::lemma_nearest(exact, 1, last);
        single::lemma_half_even_is_near(exact, step);
        if last > 0 {
            power2::lemma_pow2_adds(23, last);
        }
    }
    assert(0x0080_0000 * (exact / 0x0080_0000) <= exact);
    let offset = (product + half) / one;
    let rest = (product + half) % one;
    div_mod::lemma_fundamental_div_mod((product + half) as int, one as int);
    assert(offset * one == one * offset) by (nonlinear_arith);
}

/// A projected pixel never lies before the span. It never lies past the span
/// as single precision holds it, so where that is no longer than the span
/// itself (as on every span of at most `2^24` pixels) it lies on the span.
pub proof fn law_a_projection_stays_on_the_span(units: nat, min: int, max: int)
    requires
        i32::MIN <= min <= max <= i32::MAX,
        units <= power2::pow2(149),
    ensures
        min <= fraction::projected(units, min, max),
        fraction::projected(units, min, max) <= min + single::nearest(
            fraction::saturated(max - min) as nat,
            1,
        ),
        single::nearest((max - min) as nat, 1) <= max - min ==> fraction::projected(
            units,
            min,
            max,
        ) <= max,
{
    let span = fraction::saturated(max - min) as nat;
    lemma_offset_along_is_bounded(units, span);
}

/// Spans of at most `2^24` pixels are exact in single precision.
pub proof fn law_screen_spans_are_exact(span: nat)
    requires
        span <= 0x0100_0000,
    ensures
        single::nearest(span, 1) == span,
{
    power2::lemma2_to64();
    single::lemma_nearest_keeps(span);
}

/// The ends of an edge stay at the ends: a pointer at or before the start of
/// one span arrives at the start of any other, and one at or past the end
/// arrives at the end, wherever single precision holds the arriving span
/// exactly.
pub proof fn law_the_ends_of_an_edge_stay_at_the_ends(
    position: int,
    min: int,
    max: int,
    other_min: int,
    other_max: int,
)
    requires
        i32::MIN <= position <= i32::MAX,
        i32::MIN <= min < max <= i32::MAX,
        i32::MIN <= other_min <= other_max <= i32::MAX,
    ensures
        position <= min ==> fraction::projected(
            fraction::units_between(position, min, max),
            other_min,
            other_max,
        ) == other_min,
        position >= max && other_max - other_min <= i32::MAX && single::nearest(
            (other_max - other_min) as nat,
            1,
        ) == other_max - other_min ==> fraction::projected(
            fraction::units_between(position, min, max),
            other_min,
            other_max,
        ) == other_max,
{
    let span = fraction::saturated(other_max - other_min) as nat;
    lemma_offset_along_is_bounded(0, span);
    lemma_offset_along_is_bounded(power2::pow2(149), span);
    if position >= max {
        let whole = fraction::saturated(max - min) as nat;
        let part = fraction::saturated(position - min) as nat;
        single::lemma_nearest_grows(whole, part);
        power2::lemma2_to64();
        single::lemma_nearest_ratio_at_least(whole, 1, 0);
        assert(whole * power2::pow2(0) == whole);
        single::lemma_nearest_ratio_at_least(
            single::nearest(part, 1),
            single::nearest(whole, 1),
            149,
        );
    }
}

/// A pointer comes back to the pixel it left: on a span of at most `2^22`
/// pixels the fraction of a position leads back to that position.
pub proof fn law_a_fraction_leads_back_to_its_pixel(position: int, min: int, max: int)
    requires
        i32::MIN <= min <= position <= max <= i32::MAX,
        max - min <= 0x0040_0000,
    ensures
        fraction::projected(fraction::units_between(position, min, max), min, max) == position,
{
    let span = (max - min) as nat;
    let offset = (position - min) as nat;
    power2::lemma2_to64();
    single::lemma_nearest_keeps(span);
    single::lemma_nearest_keeps(offset);
    if span == 0 {
    } else if offset == 0 || offset == span {
        law_the_ends_of_an_edge_stay_at_the_ends(position, min, max, min, max);
    } else {
        lemma_offset_comes_back(offset, span);
    }
}

/// Rounding the quotient costs at most one part in `2^24`.
proof fn lemma_quotient_is_near(offset: nat, span: nat)
    requires
        0 < offset,
        0 < span <= 0x8000_0000,
    ensures
        ({
            let exact = offset * power2::pow2(149);
            let back = single::nearest(exact, span) * span;
            let error = offset * power2::pow2(125);
            &&& exact - error <= back <= exact + error
            &&& exact == 0x0100_0000 * error
        }),
{
    let one = power2::pow2(149);
    // The worth of half of the last bit of one pixel.
    let fine = power2::pow2(125);
    power2::lemma2_to64();
    power2::lemma_pow2_adds(24, 125);
    power2::lemma_pow2_pos(125);
    let exact = offset * one;
    let log = single::lemma_last_bit_exists(exact, span);
    let worth = power2::pow2(log);
    power2::lemma_pow2_pos(log);
    single::lemma_nearest(exact, span, log);
    let unit = span * worth;
    assert(unit > 0) by (nonlinear_arith)
        requires
            unit == span * worth,
            span > 0,
            worth > 0,
    ;
    let kept = single::half_even(exact, unit);
    let quotient = kept * worth;
    single::lemma_half_even_is_near(exact, unit);
    let back = quotient * span;
    assert(back == kept * unit) by (nonlinear_arith)
        requires
            back == kept * worth * span,
            unit == span * worth,
    ;
    let error = offset * fine;
    assert(exact == 0x0100_0000 * error) by (nonlinear_arith)
        requires
            exact == offset * one,
            one == 0x0100_0000 * fine,
            error == offset * fine,
    ;
    assert(unit <= 2 * error) by {
        if log > 0 {
            power2::lemma_pow2_adds(23, log);
            assert(0x0080_0000 * unit == span * power2::pow2((23 + log) as nat)) by (nonlinear_arith)
                requires
                    unit == span * worth,
                    power2::pow2((23 + log) as nat) == 0x0080_0000 * worth,
            ;
        } else {
            single::lemma_pow2_grows(31, 125);
            assert(error >= fine) by (nonlinear_arith)
                requires
                    error == offset * fine,
                    offset >= 1,
            ;
            assert(unit == span) by (nonlinear_arith)
                requires
                    unit == span * worth,
                    worth == 1,
            ;
        }
    }
}

/// A fraction is where the pointer is, to one part in `2^24`: on a span of at
/// most `2^24` pixels, the fraction of a position on it, times the span, is
/// off from the position's offset by no more than that.
pub proof fn law_a_fraction_is_where_the_pointer_is(position: int, min: int, max: int)
    requires
        i32::MIN <= min <= position <= max <= i32::MAX,
        0 < max - min <= 0x0100_0000,
    ensures
        ({
            let reached = fraction::units_between(position, min, max) * (max - min);
            let exact = (position - min) * power2::pow2(149);
            &&& 0x0100_0000 * (reached - exact) <= exact
            &&& 0x0100_0000 * (exact - reached) <= exact
        }),
{
    let span = (max - min) as nat;
    let offset = (position - min) as nat;
    power2::lemma2_to64();
    single::lemma_nearest_keeps(span);
    single::lemma_nearest_keeps(offset);
    let one = power2::pow2(149);
    if offset == 0 {
        assert(0 * one == 0 && 0 * span == 0) by (nonlinear_arith);
    } else {
        single::lemma_nearest_ratio_at_most(offset, span, 149);
        lemma_quotient_is_near(offset, span);
    }
}

proof fn lemma_offset_comes_back(offset: nat, span: nat)
    requires
        0 < offset < span <= 0x0040_0000,
    ensures
        ({
            let quotient = single::nearest(offset * power2::pow2(149), span);
            &&& quotient <= power2::pow2(149)
            &&& (single::nearest(quotient * span, 1) + power2::pow2(148)) / power2::pow2(149)
                == offset
        }),
{
    let one = power2::pow2(149);
    let half = power2::pow2(148);
    let fine = power2::pow2(125);
    power2::lemma2_to64();
    power2::lemma_pow2_unfold(149);
    power2::lemma_pow2_adds(23, 125);
    power2::lemma_pow2_pos(125);
    let exact = offset * one;
    let back = single::nearest(exact, span) * span;
    let error = offset * fine;
    lemma_quotient_is_near(offset, span);
    assert(error <= 0x003f_ffff * fine) by (nonlinear_arith)
        requires
            error == offset * fine,
            offset <= 0x003f_ffff,
    ;
    let product = single::nearest(back, 1);
    assert(2 * (product - back) <= (back / 0x0080_0000) + 1 && 2 * (back - product) <= (back
        / 0x0080_0000) + 1) by {
        let last = single::lemma_last_bit_exists(back, 1);
        let step = power2::pow2(last);
        power2::lemma_pow2_pos(last);
        single::lemma_nearest(back, 1, last);
        single::lemma_half_even_is_near(back, step);
        if last > 0 {
            power2::lemma_pow2_adds(23, last);
        }
    }
    assert(0x0080_0000 * (back / 0x0080_0000) <= back);
    single::lemma_pow2_grows(30, 125);
    assert(exact - half <= product < exact + half);
    div_mod::lemma_fundamental_div_mod_converse(
        (product + half) as int,
        one as int,
        offset as int,
        product + half - exact,
    );
    single::lemma_nearest_ratio_at_most(offset, span, 149);
}

} // verus!
