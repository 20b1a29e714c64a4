use xbrdf::double::{round_all, Double};
use xbrdf::math::Vec3;
use xbrdf::scalar::Scalar;

fn number(value: f32) -> Scalar {
    Scalar::from_bits(value.to_bits())
}

#[test]
fn equality_is_that_of_numbers() {
    assert_eq!(number(0.0), number(-0.0));
    assert_ne!(number(f32::NAN), number(f32::NAN));
    assert_ne!(number(1.0), number(-1.0));
    assert_eq!(number(f32::INFINITY), number(f32::INFINITY));
    assert_eq!(
        Vec3::new(number(0.0), number(1.0), number(2.0)),
        Vec3::new(number(-0.0), number(1.0), number(2.0))
    );
    let lost = Vec3::new(number(0.0), number(f32::NAN), number(2.0));
    assert!(lost != lost);
}

fn rounds_like_the_machine(value: f64) {
    let rounded = Double::from_bits(value.to_bits()).to_single();
    let expected = value as f32;
    if expected.is_nan() {
        assert!(rounded.is_nan());
    } else {
        assert_eq!(rounded.to_bits(), expected.to_bits(), "{value:e}");
    }
}

#[test]
fn doubles_are_rounded_to_the_nearest_single() {
    let special = [
        0.0,
        1.0,
        0.1,
        1.0 / 3.0,
        f64::MAX,
        f64::MIN_POSITIVE,
        f64::INFINITY,
        f64::NAN,
        f64::from_bits(1),
        f32::MAX as f64,
        f32::MIN_POSITIVE as f64,
        f32::from_bits(1) as f64,
        f32::from_bits(1) as f64 / 2.0,
        f32::from_bits(1) as f64 * 1.5,
        f32::from_bits(0x7f_ffff) as f64,
    ];
    for value in special {
        for bits in [value.to_bits(), value.to_bits() + 1, value.to_bits().saturating_sub(1)] {
            rounds_like_the_machine(f64::from_bits(bits));
            rounds_like_the_machine(-f64::from_bits(bits));
        }
    }
    // Halfway between two singles, and on either side of it.
    for single in [0x3f80_0000u32, 0x3f80_0001, 0x7f7f_ffff, 0x0080_0000, 0x0000_0005] {
        let low = f32::from_bits(single) as f64;
        let high = if single == 0x7f7f_ffff {
            2.0f64.powi(128)
        } else {
            f32::from_bits(single + 1) as f64
        };
        let middle = (low + high) / 2.0;
        for bits in [middle.to_bits() - 1, middle.to_bits(), middle.to_bits() + 1] {
            rounds_like_the_machine(f64::from_bits(bits));
        }
    }
    let mut bits = 0x0123_4567_89ab_cdefu64;
    for _ in 0..200_000 {
        bits = bits.wrapping_mul(6_364_136_223_846_793_005).wrapping_add(1_442_695_040_888_963_407);
        rounds_like_the_machine(f64::from_bits(bits));
        // The range in which single precision has numbers at all.
        let exponent = 860 + (bits >> 52) % 300;
        rounds_like_the_machine(f64::from_bits(bits & 0x800f_ffff_ffff_ffff | exponent << 52));
    }
    let all = round_all(&vec![Double::from_bits(2.5f64.to_bits())]);
    assert_eq!(all, vec![number(2.5)]);
}

#[test]
fn counts_are_rounded_to_the_nearest_number() {
    let mut counts = vec![0u64, 1, 2, 3, 12, 255, 16_777_215, 16_777_216, 16_777_217, 16_777_219];
    for shift in 0..64 {
        for offset in [0u64, 1, 2, 3] {
            counts.push((1u64 << shift).wrapping_add(offset));
            counts.push((1u64 << shift).wrapping_sub(offset));
            counts.push((3u64 << (shift / 2)).wrapping_mul(0x0123_4567).wrapping_add(offset));
        }
    }
    counts.push(u64::MAX);
    for count in counts {
        assert_eq!(Scalar::of_count(count).to_bits(), (count as f32).to_bits(), "{count}");
    }
    for count in [0u64, 1, 9, 16_777_215] {
        assert_eq!(Scalar::of_count(count).whole(), count);
    }
}

#[test]
fn whole_parts_and_nearest_numbers_are_those_of_the_machine() {
    let mut values = vec![0.0f32, -0.0, 0.5, 1.5, 2.5, 0.499_999_97, 11.999_999, 12.0, 8_388_607.5];
    values.extend([f32::MAX, f32::MIN_POSITIVE, f32::INFINITY, f32::NAN, f32::from_bits(1)]);
    for exponent in 100..200u32 {
        for fraction in [0, 1, 0x3f_ffff, 0x40_0000, 0x40_0001, 0x7f_ffff] {
            values.push(f32::from_bits((exponent << 23) | fraction));
        }
    }
    for value in values {
        for value in [value, -value] {
            assert_eq!(number(value).whole(), value as u64, "{value:e}");
            assert_eq!(number(value).ceiling(), value.ceil() as u64, "{value:e}");
            assert_eq!(number(value).nearest(), value.round() as i32, "{value:e}");
        }
    }
}
