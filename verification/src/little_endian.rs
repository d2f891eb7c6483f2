//! Numbers as bytes, the least significant byte first.

use vstd::arithmetic::div_mod;
use vstd::arithmetic::power;
use vstd::prelude::*;

verus! {

/// The low `width` bytes of `number`, the least significant first.
pub open spec fn bytes_of(number: nat, width: nat) -> Seq<u8>
    decreases width,
{
    if width == 0 {
        Seq::empty()
    } else {
        seq![(number % 256) as u8] + bytes_of(number / 256, (width - 1) as nat)
    }
}

/// The number that bytes stand for, the least significant first.
pub open spec fn number_of(bytes: Seq<u8>) -> nat
    decreases bytes.len(),
{
    if bytes.len() == 0 {
        0
    } else {
        (bytes[0] + 256 * number_of(bytes.drop_first())) as nat
    }
}

/// `bytes` with `part` written over it from `at` on.
pub open spec fn overwritten(bytes: Seq<u8>, at: int, part: Seq<u8>) -> Seq<u8> {
    bytes.take(at) + part + bytes.skip(at + part.len())
}

/// As many bytes are written as were asked for.
pub proof fn lemma_width(number: nat, width: nat)
    ensures
        bytes_of(number, width).len() == width,
    decreases width,
{
    if width > 0 {
        lemma_width(number / 256, (width - 1) as nat);
    }
}

/// A number that fits is read back from its bytes.
pub proof fn law_a_number_survives_its_bytes(number: nat, width: nat)
    requires
        number < power::pow(256, width),
    ensures
        number_of(bytes_of(number, width)) == number,
    decreases width,
{
    lemma_width(number, width);
    reveal(power::pow);
    if width > 0 {
        let rest = bytes_of(number / 256, (width - 1) as nat);
        assert(bytes_of(number, width).drop_first() =~= rest);
        law_a_number_survives_its_bytes(number / 256, (width - 1) as nat);
    }
}

/// Bytes are written back as they were read.
pub proof fn law_bytes_survive_their_number(bytes: Seq<u8>)
    ensures
        bytes_of(number_of(bytes), bytes.len()) == bytes,
        number_of(bytes) < power::pow(256, bytes.len()),
    decreases bytes.len(),
{
    reveal(power::pow);
    if bytes.len() > 0 {
        let rest = bytes.drop_first();
        law_bytes_survive_their_number(rest);
        assert(number_of(bytes) / 256 == number_of(rest));
        assert(number_of(bytes) % 256 == bytes[0]);
        assert(seq![bytes[0]] + rest =~= bytes);
    } else {
        assert(bytes =~= Seq::empty());
    }
}

/// The byte at place `index` is worth `256^index`: the least significant byte
/// comes first.
pub proof fn law_the_least_significant_byte_comes_first(number: nat, width: nat, index: nat)
    requires
        index < width,
    ensures
        bytes_of(number, width).len() == width,
        bytes_of(number, width)[index as int] == number as int / power::pow(256, index) % 256,
    decreases width,
{
    lemma_width(number, width);
    lemma_width(number / 256, (width - 1) as nat);
    if index == 0 {
        power::lemma_pow0(256);
    } else {
        let before = (index - 1) as nat;
        law_the_least_significant_byte_comes_first(number / 256, (width - 1) as nat, before);
        power::lemma_pow_positive(256, before);
        reveal(power::pow);
        div_mod::lemma_div_denominator(number as int, 256, power::pow(256, before));
    }
}

pub(crate) proof fn lemma_widths()
    ensures
        power::pow(256, 4) == 0x1_0000_0000,
        power::pow(256, 8) == 0x1_0000_0000_0000_0000,
{
    reveal_with_fuel(power::pow, 9);
}

/// Write the low `width` bytes of `number` into `bytes` from `at` on.
pub(crate) fn put<const N: usize>(bytes: &mut [u8; N], at: usize, number: u64, width: usize)
    requires
        at + width <= N,
    ensures
        final(bytes)@ == overwritten(old(bytes)@, at as int, bytes_of(number as nat, width as nat)),
{
    let ghost before = bytes@;
    let ghost part = bytes_of(number as nat, width as nat);
    proof {
        lemma_width(number as nat, width as nat);
    }
    let mut rest: u64 = number;
    let mut index: usize = 0;
    while index < width
        invariant
            at + width <= N,
            index <= width,
            before.len() == N,
            part == bytes_of(number as nat, width as nat),
            part.len() == width,
            part == part.take(index as int) + bytes_of(rest as nat, (width - index) as nat),
            bytes@ == overwritten(before, at as int, part.take(index as int)),
        decreases width - index,
    {
        proof {
            lemma_width((rest / 256) as nat, (width - index - 1) as nat);
            assert(part[index as int] == (rest % 256) as u8);
        }
        bytes[at + index] = (rest % 256) as u8;
        rest = rest / 256;
        index = index + 1;
        proof {
            assert(part.take(index as int) =~= part.take(index - 1).push(part[index - 1]));
            assert(part =~= part.take(index as int) + bytes_of(rest as nat, (width - index) as nat));
            assert(bytes@ =~= overwritten(before, at as int, part.take(index as int)));
        }
    }
    proof {
        assert(part.take(width as int) =~= part);
    }
}

/// The number that `width` bytes from `at` on stand for.
pub(crate) fn get(bytes: &[u8], at: usize, width: usize) -> (number: u64)
    requires
        at + width <= bytes@.len(),
        width <= 8,
    ensures
        number == number_of(bytes@.subrange(at as int, at + width)),
{
    let total: usize = bytes.len();
    let mut number: u64 = 0;
    let mut left: usize = width;
    proof {
        lemma_widths();
        assert(bytes@.subrange(at + width, at + width) =~= Seq::empty());
    }
    while left > 0
        invariant
            at + width <= total == bytes@.len(),
            left <= width <= 8,
            number == number_of(bytes@.subrange(at + left, at + width)),
        decreases left,
    {
        left = left - 1;
        proof {
            let tail = bytes@.subrange(at + left, at + width);
            assert(tail.drop_first() =~= bytes@.subrange(at + left + 1, at + width));
            law_bytes_survive_their_number(tail);
            power::lemma_pow_increases(256, tail.len(), 8);
            lemma_widths();
        }
        number = number * 256 + bytes[at + left] as u64;
    }
    number
}

} // verus!
