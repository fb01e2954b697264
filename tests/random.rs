use namekusei::random::{
    mantissa, unit_bits, Rng, DEFAULT_SEED, LCG_INCREMENT, LCG_MULTIPLIER, MANTISSA_RANGE,
    UNIT_EXPONENT_BITS,
};

#[test]
fn first_output_of_default_seed() {
    let mut rng = Rng::new_unseeded();
    assert_eq!(rng.seed, 0x66126c8d);
    let expected = (0x66126c8du64 * 214013 + 2531011) % (1u64 << 32);
    let r = rng.next_u32();
    assert_eq!(r as u64, expected);
    assert_eq!(r, 4167814428);
    assert_eq!(rng.seed, r);
}

#[test]
fn step_wraps_modulo_two_to_the_32() {
    let mut rng = Rng::with_seed(u32::MAX);
    let expected = ((u32::MAX as u64) * LCG_MULTIPLIER as u64 + LCG_INCREMENT as u64) % (1u64 << 32);
    assert_eq!(rng.next_u32() as u64, expected);
    let mut zero = Rng::with_seed(0);
    assert_eq!(zero.next_u32(), 2531011);
}

#[test]
fn same_seed_same_stream() {
    let mut a = Rng::with_seed(DEFAULT_SEED);
    let mut b = Rng::new_unseeded();
    for _ in 0..1000 {
        assert_eq!(a.next_u32(), b.next_u32());
    }
}

#[test]
fn unit_bits_of_first_draw() {
    let mut rng = Rng::new_unseeded();
    let bits = rng.next_unit_bits();
    assert_eq!(bits, 0x3febcd1c);
    let mut again = Rng::new_unseeded();
    assert_eq!(again.next_mantissa(), 7064860);
    assert_eq!(f32::from_bits(bits) - 1.0, 7064860.0f32 / 8388608.0f32);
}

#[test]
fn mask_helpers() {
    assert_eq!(mantissa(0xffff_ffff), 0x7f_ffff);
    assert_eq!(mantissa(0x0080_0001), 1);
    assert_eq!(unit_bits(0), UNIT_EXPONENT_BITS);
    assert_eq!(unit_bits(0xffff_ffff), 0x3fff_ffff);
    assert_eq!(f32::from_bits(unit_bits(0)), 1.0);
}

#[test]
fn ten_thousand_uniform_draws_lie_in_unit_interval() {
    for seed in [0u32, 1, 0x66126c8d, 9231249, 1161249, u32::MAX] {
        let mut rng = Rng::with_seed(seed);
        for _ in 0..10_000 {
            let bits = rng.next_unit_bits();
            let v = f32::from_bits(bits) - 1.0;
            assert!(v >= 0.0 && v < 1.0);
            assert!(bits >= UNIT_EXPONENT_BITS && bits < UNIT_EXPONENT_BITS + MANTISSA_RANGE);
        }
    }
}
