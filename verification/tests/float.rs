//! Single-precision numbers against the ones of the processor.

use lmdb::float::{fill_fraction, fill_fraction_exceeds};
use lmdb::Binary32;
use rand::rngs::StdRng;
use rand::{Rng, SeedableRng};

fn binary(value: f32) -> Binary32 {
    Binary32 { bits: value.to_bits() }
}

const EDGES: [f32; 16] = [
    0.0,
    -0.0,
    1.0,
    -1.0,
    0.9,
    0.5,
    f32::MIN_POSITIVE,
    -f32::MIN_POSITIVE,
    1.0e-45,
    -1.0e-45,
    f32::MAX,
    f32::MIN,
    f32::INFINITY,
    f32::NEG_INFINITY,
    f32::NAN,
    1.0000001,
];

#[test]
fn comparisons_are_those_of_the_processor() {
    for a in EDGES {
        assert_eq!(binary(a).is_in_unit_range(), a >= 0.0 && a <= 1.0, "{}", a);
        for b in EDGES {
            assert_eq!(binary(a).gt(&binary(b)), a > b, "{} > {}", a, b);
            assert_eq!(binary(a) == binary(b), a == b, "{} == {}", a, b);
        }
    }
}

fn sizes(rng: &mut StdRng) -> Vec<usize> {
    let mut sizes: Vec<usize> = vec![0, 1, 2, 3, usize::MAX, usize::MAX - 1];
    for bit in 0..usize::BITS {
        let size = 1usize << bit;
        sizes.push(size);
        sizes.push(size - 1);
        sizes.push(size | 1);
        sizes.push(size | (size >> 24));
        sizes.push(size | (size >> 23) | (size >> 24));
        sizes.push(size | (size >> 24) | 1);
    }
    for _ in 0..200 {
        let size: usize = rng.gen();
        sizes.push(size >> rng.gen_range(0..usize::BITS));
    }
    sizes
}

#[test]
fn sizes_are_rounded_as_the_processor_rounds_them() {
    let seed: u64 = rand::random();
    println!("sizes_are_rounded_as_the_processor_rounds_them seed: {}", seed);
    let mut rng = StdRng::seed_from_u64(seed);
    for size in sizes(&mut rng) {
        assert_eq!(Binary32::from_size(size).bits, (size as f32).to_bits(), "{}", size);
    }
}

#[test]
fn fill_fractions_are_divided_as_the_processor_divides_them() {
    let seed: u64 = rand::random();
    println!("fill_fractions_are_divided_as_the_processor_divides_them seed: {}", seed);
    let mut rng = StdRng::seed_from_u64(seed);
    let used = sizes(&mut rng);
    let total = sizes(&mut rng);
    for used in &used {
        for total in &total {
            let expected = *used as f32 / *total as f32;
            let actual = fill_fraction(*used, *total);
            if expected.is_nan() {
                assert!(f32::from_bits(actual.bits).is_nan(), "{} / {}", used, total);
            } else {
                assert_eq!(actual.bits, expected.to_bits(), "{} / {}", used, total);
            }
            for bound in [0.0, 0.5, 0.9, 1.0] {
                assert_eq!(
                    fill_fraction_exceeds(*used, *total, &binary(bound)),
                    expected > bound,
                    "{} / {} > {}",
                    used,
                    total,
                    bound
                );
            }
        }
    }
}

#[test]
fn a_map_that_is_full_does_not_exceed_one() {
    for total in [1, 4096, 1 << 20, (1 << 24) + 1, usize::MAX] {
        assert!(!fill_fraction_exceeds(total, total, &binary(1.0)));
        assert!(fill_fraction_exceeds(1, total, &binary(0.0)));
        assert!(!fill_fraction_exceeds(0, total, &binary(0.0)));
    }
    assert_eq!(fill_fraction(9, 10).bits, 0.9_f32.to_bits());
    assert_eq!(fill_fraction(1, 3).bits, 0x3eaa_aaab);
}
