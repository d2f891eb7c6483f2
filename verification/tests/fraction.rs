use openlogi_flow::fraction::EdgeFraction;
use openlogi_flow::single::{ratio_half_even, to_single};

fn clamped(value: f32) -> f32 {
    if value.is_finite() {
        value.clamp(0.0, 1.0)
    } else {
        0.5
    }
}

fn between(position: i32, min: i32, max: i32) -> f32 {
    let span = max.saturating_sub(min);
    if span <= 0 {
        return 0.5;
    }
    clamped(position.saturating_sub(min) as f32 / span as f32)
}

fn project(fraction: f32, min: i32, max: i32) -> i32 {
    let span = max.saturating_sub(min);
    if span <= 0 {
        return min;
    }
    let offset = (fraction * span as f32).round() as i32;
    min.saturating_add(offset)
}

/// A fixed stream of well-mixed numbers.
struct Numbers(u64);

impl Numbers {
    fn next(&mut self) -> u64 {
        self.0 = self
            .0
            .wrapping_mul(6_364_136_223_846_793_005)
            .wrapping_add(1_442_695_040_888_963_407);
        let mixed = (self.0 ^ (self.0 >> 33)).wrapping_mul(0xff51_afd7_ed55_8ccd);
        mixed ^ (mixed >> 29)
    }

    /// A coordinate of any magnitude.
    fn coordinate(&mut self) -> i32 {
        let bits = self.next() as i32;
        let shift = self.next() % 32;
        bits >> shift
    }
}

#[test]
fn a_pattern_is_clamped_as_the_number_it_stands_for() {
    let mut numbers = Numbers(1);
    for _ in 0..200_000 {
        let bits = numbers.next() as u32;
        assert_eq!(
            EdgeFraction::new(bits).value(),
            clamped(f32::from_bits(bits)).to_bits(),
            "{bits:#x}"
        );
    }
    for bits in [
        0, 1, 0x8000_0000, 0x8000_0001, 0x3f80_0000, 0x3f80_0001, 0x3f7f_ffff, 0x7f7f_ffff,
        0x7f80_0000, 0x7f80_0001, 0xff80_0000, 0xffff_ffff, 0x007f_ffff, 0x0080_0000,
    ] {
        assert_eq!(
            EdgeFraction::new(bits).value(),
            clamped(f32::from_bits(bits)).to_bits(),
            "{bits:#x}"
        );
    }
}

#[test]
fn a_fraction_is_the_rounded_quotient() {
    let mut numbers = Numbers(2);
    for _ in 0..200_000 {
        let (position, min, max) = (
            numbers.coordinate(),
            numbers.coordinate(),
            numbers.coordinate(),
        );
        assert_eq!(
            EdgeFraction::between(position, min, max).value(),
            between(position, min, max).to_bits(),
            "{position} between {min} and {max}"
        );
    }
    for (position, min, max) in [
        (i32::MAX, i32::MIN, i32::MAX),
        (i32::MIN, i32::MAX, i32::MIN),
        (1, 0, i32::MAX),
        (16_777_217, 0, 16_777_219),
        (i32::MAX - 1, 0, i32::MAX),
        (0, -1, 0),
    ] {
        assert_eq!(
            EdgeFraction::between(position, min, max).value(),
            between(position, min, max).to_bits(),
            "{position} between {min} and {max}"
        );
    }
}

#[test]
fn a_projection_is_the_rounded_product() {
    let mut numbers = Numbers(3);
    for _ in 0..200_000 {
        let fraction = EdgeFraction::new(numbers.next() as u32 % 0x3f80_0001);
        let (min, max) = (numbers.coordinate(), numbers.coordinate());
        assert_eq!(
            fraction.project(min, max),
            project(f32::from_bits(fraction.value()), min, max),
            "{:#x} between {min} and {max}",
            fraction.value()
        );
    }
    for bits in [0, 1, 0x8000_0000, 0x3f00_0000, 0x3eff_ffff, 0x3f80_0000, 0x3080_0000] {
        for (min, max) in [
            (0, 1),
            (0, 3),
            (0, i32::MAX),
            (-5, i32::MAX),
            (i32::MIN, i32::MAX),
            (0, 16_777_219),
        ] {
            assert_eq!(
                EdgeFraction::new(bits).project(min, max),
                project(f32::from_bits(bits), min, max),
                "{bits:#x} between {min} and {max}"
            );
        }
    }
}

#[test]
fn a_quarter_is_the_pattern_of_a_quarter() {
    assert_eq!(EdgeFraction::between(1, 0, 4).value(), 0x3e80_0000);
    assert_eq!(EdgeFraction::between(1, 0, 3).value(), 0x3eaa_aaab);
    assert_eq!(EdgeFraction::new(0x3e80_0000).project(0, 100), 25);
}

#[test]
fn a_pointer_comes_back_to_the_pixel_it_left() {
    for (min, max) in [(0, 1079), (-1920, 1919), (5, 6), (0, 4_194_304)] {
        let step = ((max - min) / 1000).max(1);
        let mut position = min;
        while position <= max {
            assert_eq!(EdgeFraction::between(position, min, max).project(min, max), position);
            position += step;
        }
        assert_eq!(EdgeFraction::between(max, min, max).project(min, max), max);
    }
}

#[test]
fn a_span_that_single_precision_lengthens_is_overshot() {
    // The one way off the span: 16777219 is held as 16777220.
    assert_eq!(EdgeFraction::new(0x3f80_0000).project(0, 16_777_219), 16_777_220);
}

#[test]
fn whole_numbers_round_to_single_precision() {
    let mut numbers = Numbers(4);
    for _ in 0..100_000 {
        let n = numbers.next() >> (8 + numbers.next() % 56);
        assert_eq!(to_single(n), n as f32 as u64, "{n}");
    }
    assert_eq!(to_single(16_777_217), 16_777_216);
    assert_eq!(to_single(16_777_219), 16_777_220);
}

#[test]
fn ties_go_to_the_even_neighbour() {
    assert_eq!(ratio_half_even(1, 2), 0);
    assert_eq!(ratio_half_even(3, 2), 2);
    assert_eq!(ratio_half_even(5, 2), 2);
    assert_eq!(ratio_half_even(7, 4), 2);
    assert_eq!(ratio_half_even(9, 4), 2);
}
