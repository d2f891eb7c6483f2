//! Rounding to single precision, on whole numbers.
//!
//! A single-precision number keeps 24 significant bits. Rounding to it picks
//! the nearest number that has no more, and of two equally near ones the one
//! whose last kept bit is zero.

use vstd::arithmetic::div_mod;
use vstd::arithmetic::power2;
use vstd::prelude::*;

verus! {

/// `num / den` rounded to a whole number; a tie goes to the even neighbour.
pub open spec fn half_even(num: nat, den: nat) -> nat
    recommends
        den > 0,
{
    let floor = num / den;
    let rest = num % den;
    if 2 * rest < den || (2 * rest == den && floor % 2 == 0) {
        floor
    } else {
        floor + 1
    }
}

/// Whether `2^log` is what the last of 24 significant bits of `num / den` is
/// worth. Nothing is rounded below one unit.
pub open spec fn last_bit_is(num: nat, den: nat, log: nat) -> bool {
    &&& num < den * power2::pow2(24 + log)
    &&& log > 0 ==> den * power2::pow2((23 + log) as nat) <= num
}

/// The power of two that the last of 24 significant bits is worth.
pub open spec fn last_bit(num: nat, den: nat) -> nat {
    choose|log: nat| last_bit_is(num, den, log)
}

/// `num / den` rounded to single precision.
pub open spec fn nearest(num: nat, den: nat) -> nat
    recommends
        den > 0,
{
    let log = last_bit(num, den);
    half_even(num, den * power2::pow2(log)) * power2::pow2(log)
}

pub(crate) proof fn lemma_half_even_scales(num: nat, den: nat, by: nat)
    requires
        den > 0,
        by > 0,
    ensures
        half_even(num * by, den * by) == half_even(num, den),
{
    let floor = (num / den) as int;
    let rest = (num % den) as int;
    div_mod::lemma_fundamental_div_mod(num as int, den as int);
    assert(num * by == floor * (den * by) + rest * by) by (nonlinear_arith)
        requires
            num == den * floor + rest,
    ;
    assert(0 <= rest * by < den * by) by (nonlinear_arith)
        requires
            0 <= rest < den,
            by > 0,
    ;
    assert(den * by > 0) by (nonlinear_arith)
        requires
            den > 0,
            by > 0,
    ;
    div_mod::lemma_fundamental_div_mod_converse(
        (num * by) as int,
        (den * by) as int,
        floor,
        rest * by,
    );
    assert(2 * (rest * by) < den * by <==> 2 * rest < den) by (nonlinear_arith)
        requires
            by > 0,
    ;
    assert(2 * (rest * by) == den * by <==> 2 * rest == den) by (nonlinear_arith)
        requires
            by > 0,
    ;
}

pub(crate) proof fn lemma_half_even_exact(whole: nat, den: nat)
    requires
        den > 0,
    ensures
        half_even(whole * den, den) == whole,
{
    div_mod::lemma_fundamental_div_mod_converse((whole * den) as int, den as int, whole as int, 0);
}

pub(crate) proof fn lemma_half_even_at_most(num: nat, den: nat, bound: nat)
    requires
        den > 0,
        num <= bound * den,
    ensures
        half_even(num, den) <= bound,
{
    let floor = (num / den) as int;
    let rest = (num % den) as int;
    div_mod::lemma_fundamental_div_mod(num as int, den as int);
    if floor >= bound {
        assert(floor == bound && rest == 0) by (nonlinear_arith)
            requires
                num == den * floor + rest,
                0 <= rest < den,
                num <= bound * den,
                floor >= bound,
        ;
    }
}

pub(crate) proof fn lemma_half_even_at_least(num: nat, den: nat, bound: nat)
    requires
        den > 0,
        bound * den <= num,
    ensures
        bound <= half_even(num, den),
{
    let floor = (num / den) as int;
    let rest = (num % den) as int;
    div_mod::lemma_fundamental_div_mod(num as int, den as int);
    assert(floor >= bound) by (nonlinear_arith)
        requires
            num == den * floor + rest,
            0 <= rest < den,
            bound * den <= num,
    ;
}

pub(crate) proof fn lemma_pow2_grows(small: nat, large: nat)
    requires
        small <= large,
    ensures
        power2::pow2(small) <= power2::pow2(large),
{
    if small < large {
        power2::lemma_pow2_strictly_increases(small, large);
    }
}

pub(crate) proof fn lemma_last_bit_is_unique(num: nat, den: nat, a: nat, b: nat)
    requires
        last_bit_is(num, den, a),
        last_bit_is(num, den, b),
    ensures
        a == b,
    decreases a,
{
    if a < b {
        lemma_pow2_grows(24 + a, (23 + b) as nat);
        let low = power2::pow2(24 + a);
        let high = power2::pow2((23 + b) as nat);
        assert(den * low <= den * high) by (nonlinear_arith)
            requires
                low <= high,
        ;
    } else if b < a {
        lemma_last_bit_is_unique(num, den, b, a);
    }
}

/// Once the worth of the last bit is known, so is the rounded number.
pub(crate) proof fn lemma_nearest(num: nat, den: nat, log: nat)
    requires
        last_bit_is(num, den, log),
    ensures
        nearest(num, den) == half_even(num, den * power2::pow2(log)) * power2::pow2(log),
{
    lemma_last_bit_is_unique(num, den, last_bit(num, den), log);
}

proof fn lemma_last_bit_below(num: nat, den: nat, log: nat) -> (found: nat)
    requires
        num < den * power2::pow2(24 + log),
    ensures
        last_bit_is(num, den, found),
        found <= log,
    decreases log,
{
    if log == 0 || den * power2::pow2((23 + log) as nat) <= num {
        log
    } else {
        assert(24 + (log - 1) == 23 + log);
        lemma_last_bit_below(num, den, (log - 1) as nat)
    }
}

proof fn lemma_pow2_exceeds(n: nat)
    ensures
        n < power2::pow2(n),
    decreases n,
{
    if n == 0 {
        power2::lemma2_to64();
    } else {
        lemma_pow2_exceeds((n - 1) as nat);
        power2::lemma_pow2_unfold(n);
    }
}

/// Every number has a last bit.
pub(crate) proof fn lemma_last_bit_exists(num: nat, den: nat) -> (log: nat)
    requires
        den > 0,
    ensures
        last_bit_is(num, den, log),
{
    lemma_pow2_exceeds(num);
    lemma_pow2_grows(num, 24 + num);
    let power = power2::pow2(24 + num);
    assert(num < den * power) by (nonlinear_arith)
        requires
            num < power,
            den >= 1,
    ;
    lemma_last_bit_below(num, den, num)
}

/// Scaling by a power of two scales the rounded whole number with it.
pub(crate) proof fn lemma_nearest_scales(num: nat, shift: nat)
    ensures
        nearest(num * power2::pow2(shift), 1) == nearest(num, 1) * power2::pow2(shift),
{
    let by = power2::pow2(shift);
    let scaled = num * by;
    power2::lemma_pow2_pos(shift);
    let log = lemma_last_bit_exists(num, 1);
    let worth = power2::pow2(log);
    power2::lemma_pow2_pos(log);
    lemma_nearest(num, 1, log);
    if log > 0 {
        power2::lemma_pow2_adds(24 + log, shift);
        power2::lemma_pow2_adds((23 + log) as nat, shift);
        let top = power2::pow2(24 + log);
        let low = power2::pow2((23 + log) as nat);
        assert(24 + log + shift == 24 + (log + shift));
        assert(23 + log + shift == 23 + (log + shift));
        assert(scaled < top * by && low * by <= scaled) by (nonlinear_arith)
            requires
                scaled == num * by,
                low <= num < top,
                by > 0,
        ;
        lemma_nearest(scaled, 1, log + shift);
        power2::lemma_pow2_adds(log, shift);
        lemma_half_even_scales(num, worth, by);
        let kept = half_even(num, worth);
        assert(kept * (worth * by) == (kept * worth) * by) by (nonlinear_arith);
    } else {
        power2::lemma2_to64();
        lemma_half_even_exact(num, 1);
        assert(nearest(num, 1) == num);
        power2::lemma_pow2_adds(24, shift);
        let top = power2::pow2(24);
        assert(scaled < top * by) by (nonlinear_arith)
            requires
                scaled == num * by,
                num < top,
                by > 0,
        ;
        let last = lemma_last_bit_below(scaled, 1, shift);
        let rest = (shift - last) as nat;
        power2::lemma_pow2_adds(last, rest);
        power2::lemma_pow2_pos(last);
        lemma_nearest(scaled, 1, last);
        let whole = num * power2::pow2(rest);
        assert(scaled == whole * power2::pow2(last)) by (nonlinear_arith)
            requires
                scaled == num * by,
                by == power2::pow2(last) * power2::pow2(rest),
                whole == num * power2::pow2(rest),
        ;
        lemma_half_even_exact(whole, power2::pow2(last));
    }
}

/// Rounding does not pass a number that single precision can hold.
pub(crate) proof fn lemma_nearest_at_most(num: nat, kept: nat, shift: nat)
    requires
        kept <= power2::pow2(24),
        num <= kept * power2::pow2(shift),
    ensures
        nearest(num, 1) <= kept * power2::pow2(shift),
{
    let bound = kept * power2::pow2(shift);
    let log = lemma_last_bit_exists(num, 1);
    let worth = power2::pow2(log);
    power2::lemma_pow2_pos(log);
    lemma_nearest(num, 1, log);
    if log <= shift {
        let rest = (shift - log) as nat;
        power2::lemma_pow2_adds(log, rest);
        let whole = kept * power2::pow2(rest);
        assert(bound == whole * worth) by (nonlinear_arith)
            requires
                bound == kept * power2::pow2(shift),
                power2::pow2(shift) == worth * power2::pow2(rest),
                whole == kept * power2::pow2(rest),
        ;
        lemma_half_even_at_most(num, worth, whole);
        let rounded = half_even(num, worth);
        assert(rounded * worth <= whole * worth) by (nonlinear_arith)
            requires
                rounded <= whole,
        ;
    } else {
        let low = power2::pow2((23 + log) as nat);
        power2::lemma_pow2_adds(24, shift);
        lemma_pow2_grows(24 + shift, (23 + log) as nat);
        assert(bound <= power2::pow2(24) * power2::pow2(shift)) by (nonlinear_arith)
            requires
                bound == kept * power2::pow2(shift),
                kept <= power2::pow2(24),
        ;
        assert(num == low);
        power2::lemma_pow2_adds(23, log);
        lemma_half_even_exact(power2::pow2(23), worth);
    }
}

/// Rounding moves a number by at most half of what the last kept bit is worth.
pub(crate) proof fn lemma_half_even_is_near(num: nat, den: nat)
    requires
        den > 0,
    ensures
        2 * (half_even(num, den) * den - num) <= den,
        2 * (num - half_even(num, den) * den) <= den,
{
    let floor = (num / den) as int;
    let rest = (num % den) as int;
    div_mod::lemma_fundamental_div_mod(num as int, den as int);
    assert((floor + 1) * den == den * floor + den) by (nonlinear_arith);
    assert(floor * den == den * floor) by (nonlinear_arith);
}

/// A quotient of at least `2^shift` is not rounded below `2^shift`.
pub(crate) proof fn lemma_nearest_ratio_at_least(num: nat, den: nat, shift: nat)
    requires
        den > 0,
        num >= den,
    ensures
        nearest(num * power2::pow2(shift), den) >= power2::pow2(shift),
{
    let power = power2::pow2(shift);
    let scaled = num * power;
    assert(scaled >= den * power) by (nonlinear_arith)
        requires
            scaled == num * power,
            num >= den,
    ;
    let log = lemma_last_bit_exists(scaled, den);
    let worth = power2::pow2(log);
    power2::lemma_pow2_pos(log);
    lemma_nearest(scaled, den, log);
    let unit = den * worth;
    assert(unit > 0) by (nonlinear_arith)
        requires
            unit == den * worth,
            den > 0,
            worth > 0,
    ;
    if log <= shift {
        let bound = power2::pow2((shift - log) as nat);
        power2::lemma_pow2_adds((shift - log) as nat, log);
        assert(bound * unit == den * power) by (nonlinear_arith)
            requires
                unit == den * worth,
                power == bound * worth,
        ;
        lemma_half_even_at_least(scaled, unit, bound);
        let kept = half_even(scaled, unit);
        assert(kept * worth >= bound * worth) by (nonlinear_arith)
            requires
                kept >= bound,
        ;
    } else {
        power2::lemma_pow2_adds(23, log);
        power2::lemma2_to64();
        let low = power2::pow2(23);
        assert(low * unit == den * power2::pow2((23 + log) as nat)) by (nonlinear_arith)
            requires
                unit == den * worth,
                power2::pow2((23 + log) as nat) == low * worth,
        ;
        lemma_half_even_at_least(scaled, unit, low);
        let kept = half_even(scaled, unit);
        assert(kept * worth >= worth) by (nonlinear_arith)
            requires
                kept >= 1,
        ;
        lemma_pow2_grows(shift, log);
    }
}

/// A quotient of at most one is not rounded above one.
pub(crate) proof fn lemma_nearest_ratio_at_most(num: nat, den: nat, shift: nat)
    requires
        den > 0,
        num <= den,
    ensures
        nearest(num * power2::pow2(shift), den) <= power2::pow2(shift),
{
    let power = power2::pow2(shift);
    let scaled = num * power;
    assert(scaled <= den * power) by (nonlinear_arith)
        requires
            scaled == num * power,
            num <= den,
    ;
    let log = lemma_last_bit_exists(scaled, den);
    let worth = power2::pow2(log);
    power2::lemma_pow2_pos(log);
    lemma_nearest(scaled, den, log);
    if log > shift {
        lemma_pow2_grows(shift + 1, (23 + log) as nat);
        power2::lemma_pow2_unfold(shift + 1);
        power2::lemma_pow2_pos(shift);
        let low = power2::pow2((23 + log) as nat);
        assert(den * low > den * power) by (nonlinear_arith)
            requires
                low >= 2 * power,
                power > 0,
                den > 0,
        ;
    }
    let rest = power2::pow2((shift - log) as nat);
    power2::lemma_pow2_adds((shift - log) as nat, log);
    let unit = den * worth;
    assert(unit > 0 && rest * unit == den * power) by (nonlinear_arith)
        requires
            unit == den * worth,
            den > 0,
            worth > 0,
            power == rest * worth,
    ;
    lemma_half_even_at_most(scaled, unit, rest);
    let kept = half_even(scaled, unit);
    assert(kept * worth <= rest * worth) by (nonlinear_arith)
        requires
            kept <= rest,
    ;
}

/// What single precision can hold is left as it is.
pub(crate) proof fn lemma_nearest_keeps(num: nat)
    requires
        num <= power2::pow2(24),
    ensures
        nearest(num, 1) == num,
{
    power2::lemma2_to64();
    if num < power2::pow2(24) {
        lemma_nearest(num, 1, 0);
        lemma_half_even_exact(num, 1);
    } else {
        lemma_nearest(num, 1, 1);
        lemma_half_even_exact(power2::pow2(23), 2);
    }
}

/// A rounded number has at most 24 significant bits.
pub(crate) proof fn lemma_nearest_is_single(num: nat) -> (parts: (nat, nat))
    ensures
        parts.0 <= power2::pow2(24),
        nearest(num, 1) == parts.0 * power2::pow2(parts.1),
{
    let log = lemma_last_bit_exists(num, 1);
    let worth = power2::pow2(log);
    power2::lemma_pow2_pos(log);
    lemma_nearest(num, 1, log);
    power2::lemma_pow2_adds(24, log);
    lemma_half_even_at_most(num, worth, power2::pow2(24));
    (half_even(num, worth), log)
}

/// Rounding twice is rounding once.
pub(crate) proof fn lemma_nearest_is_stable(num: nat)
    ensures
        nearest(nearest(num, 1), 1) == nearest(num, 1),
{
    let (kept, shift) = lemma_nearest_is_single(num);
    lemma_nearest_scales(kept, shift);
    lemma_nearest_keeps(kept);
}

/// Rounding keeps the order.
pub(crate) proof fn lemma_nearest_grows(small: nat, large: nat)
    requires
        small <= large,
    ensures
        nearest(small, 1) <= nearest(large, 1),
{
    if nearest(large, 1) >= large {
        let (kept, shift) = lemma_nearest_is_single(large);
        lemma_nearest_at_most(small, kept, shift);
    } else {
        let small_log = lemma_last_bit_exists(small, 1);
        let log = lemma_last_bit_exists(large, 1);
        lemma_nearest(small, 1, small_log);
        lemma_nearest(large, 1, log);
        let worth = power2::pow2(log);
        power2::lemma_pow2_pos(log);
        if small_log == log {
            lemma_half_even_grows(small, large, worth);
            let a = half_even(small, worth);
            let b = half_even(large, worth);
            assert(a * worth <= b * worth) by (nonlinear_arith)
                requires
                    a <= b,
            ;
        } else {
            if small_log > log {
                lemma_pow2_grows((24 + log) as nat, (23 + small_log) as nat);
            }
            assert(small_log < log);
            // The two lie in different binades, and a power of two between
            // them is exact.
            lemma_pow2_grows((24 + small_log) as nat, (23 + log) as nat);
            power2::lemma_pow2_adds(23, log);
            power2::lemma2_to64();
            let low = power2::pow2((23 + log) as nat);
            lemma_nearest_at_most(small, power2::pow2(23), log);
            lemma_half_even_at_least(large, worth, power2::pow2(23));
            let kept = half_even(large, worth);
            assert(kept * worth >= power2::pow2(23) * worth) by (nonlinear_arith)
                requires
                    kept >= power2::pow2(23),
            ;
        }
    }
}

proof fn lemma_half_even_grows(small: nat, large: nat, den: nat)
    requires
        den > 0,
        small <= large,
    ensures
        half_even(small, den) <= half_even(large, den),
{
    div_mod::lemma_div_is_ordered(small as int, large as int, den as int);
    div_mod::lemma_fundamental_div_mod(small as int, den as int);
    div_mod::lemma_fundamental_div_mod(large as int, den as int);
}

/// `num / den` rounded to a whole number, a tie going to the even neighbour.
#[must_use]
pub fn ratio_half_even(num: u64, den: u64) -> (rounded: u64)
    requires
        den > 0,
        num < u64::MAX,
    ensures
        rounded == half_even(num as nat, den as nat),
{
    let floor: u64 = num / den;
    let rest: u64 = num % den;
    // `far` is the distance to the next whole number, so nothing is doubled.
    let far: u64 = den - rest;
    assert(floor <= num) by (nonlinear_arith)
        requires
            den >= 1,
            floor == num / den,
    ;
    if rest < far || (rest == far && floor % 2 == 0) {
        floor
    } else {
        floor + 1
    }
}

/// A whole number rounded to single precision.
#[must_use]
pub fn to_single(n: u64) -> (rounded: u64)
    requires
        n < 0x0100_0000_0000_0000,
    ensures
        rounded == nearest(n as nat, 1),
        rounded <= 0x0100_0000_0000_0000,
{
    let mut worth: u64 = 1;
    let ghost mut log: nat = 0;
    proof {
        power2::lemma2_to64();
    }
    while n / worth >= 0x0100_0000
        invariant
            n < 0x0100_0000_0000_0000,
            worth == power2::pow2(log),
            1 <= worth <= 0x1_0000_0000,
            log > 0 ==> power2::pow2((23 + log) as nat) <= n,
        decreases 0x1_0000_0000 - worth,
    {
        proof {
            power2::lemma2_to64();
            power2::lemma2_to64_rest();
            power2::lemma_pow2_unfold(log + 1);
            power2::lemma_pow2_adds(24, log);
            assert(worth < 0x1_0000_0000 && 0x0100_0000 * worth <= n) by (nonlinear_arith)
                requires
                    n < 0x0100_0000_0000_0000,
                    n / worth >= 0x0100_0000,
                    worth >= 1,
            ;
            if worth > 0x8000_0000 {
                if log <= 31 {
                    lemma_pow2_grows(log, 31);
                } else {
                    lemma_pow2_grows(32, log);
                }
            }
            log = log + 1;
        }
        worth = worth * 2;
    }
    proof {
        power2::lemma2_to64();
        power2::lemma2_to64_rest();
        power2::lemma_pow2_adds(24, log);
        assert(n < 0x0100_0000 * worth) by (nonlinear_arith)
            requires
                n / worth < 0x0100_0000,
                worth >= 1,
        ;
        lemma_nearest(n as nat, 1, log);
        lemma_nearest_at_most(n as nat, power2::pow2(24), 32);
    }
    ratio_half_even(n, worth) * worth
}

} // verus!
