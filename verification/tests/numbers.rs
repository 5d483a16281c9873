use wboit_splats::benchmark::{SplitMix64, FOREGROUND_ALPHA};
use wboit_splats::camera::{
    FAR_PLANE, FIELD_OF_VIEW, MAX_DISTANCE, MAX_PITCH, MIN_DISTANCE, MIN_PITCH, NEAR_PLANE,
    START_DISTANCE, START_PITCH, START_YAW,
};
use wboit_splats::ieee;
use wboit_splats::prior::{FLAT_DIRECTIONAL_BIN, FLAT_SPATIAL_BIN};
use wboit_splats::renderer::{MAX_SPLAT_SCALE, MIN_SPLAT_SCALE, PRIOR_MIX};
use wboit_splats::app::START_ASPECT;

const SAMPLES: [f32; 14] = [
    0.0,
    -0.0,
    1.0,
    -1.0,
    1.5,
    -2.25,
    1e-45,
    -1e-45,
    1e-38,
    f32::MAX,
    f32::MIN,
    f32::INFINITY,
    f32::NEG_INFINITY,
    f32::NAN,
];

#[test]
fn comparisons_agree_with_the_machine() {
    for &a in &SAMPLES {
        for &b in &SAMPLES {
            let (x, y) = (a.to_bits(), b.to_bits());
            assert_eq!(ieee::less(x, y), a < b, "{a} < {b}");
            assert_eq!(ieee::less_equal(x, y), a <= b, "{a} <= {b}");
        }
    }
}

#[test]
fn minimum_and_maximum_agree_with_the_machine() {
    for &a in &SAMPLES {
        for &b in &SAMPLES {
            let low = f32::from_bits(ieee::min(a.to_bits(), b.to_bits()));
            let high = f32::from_bits(ieee::max(a.to_bits(), b.to_bits()));
            assert!(low == a.min(b) || (low.is_nan() && a.min(b).is_nan()));
            assert!(high == a.max(b) || (high.is_nan() && a.max(b).is_nan()));
        }
    }
}

#[test]
fn clamping_agrees_with_the_machine() {
    for &a in &SAMPLES {
        let held = ieee::clamp(a.to_bits(), (-1.4f32).to_bits(), 1.4f32.to_bits());
        let expected = a.clamp(-1.4, 1.4);
        assert_eq!(held, expected.to_bits());
    }
    assert_eq!(ieee::clamp(7.0f32.to_bits(), 1.0f32.to_bits(), 1.0f32.to_bits()), ieee::ONE);
}

#[test]
fn negating_flips_the_sign() {
    for &a in &SAMPLES {
        assert_eq!(ieee::negate(a.to_bits()), (-a).to_bits());
        assert_eq!(ieee::nan(a.to_bits()), a.is_nan());
    }
}

#[test]
fn unit_fractions_are_exact() {
    for v in [0u32, 1, 2, 3, 255, 256, 65537, 8_388_607, 8_388_608, 16_777_215] {
        let expected = v as f32 / (1u32 << 24) as f32;
        assert_eq!(ieee::unit_fraction(v), expected.to_bits(), "{v}");
    }
}

#[test]
fn the_generator_gives_the_expected_numbers() {
    fn unit(state: &mut u64) -> f32 {
        *state = state.wrapping_add(0x9e3779b97f4a7c15);
        let mut value = *state;
        value = (value ^ (value >> 30)).wrapping_mul(0xbf58476d1ce4e5b9);
        value = (value ^ (value >> 27)).wrapping_mul(0x94d049bb133111eb);
        value ^= value >> 31;
        ((value >> 40) as f32) / ((1u32 << 24) as f32)
    }
    for seed in [0u64, 1, 42, u64::MAX] {
        let mut rng = SplitMix64 { state: seed };
        let mut state = seed;
        for _ in 0..100 {
            let drawn = f32::from_bits(rng.unit_f32());
            assert_eq!(drawn, unit(&mut state));
            assert!((0.0..1.0).contains(&drawn));
        }
        assert_eq!(rng.state, state);
    }
}

#[test]
fn the_first_draw_of_seed_zero() {
    // The first output of the generator for seed 0 is 0xe220a8397b1dcdaf.
    let mut rng = SplitMix64 { state: 0 };
    assert_eq!(f32::from_bits(rng.unit_f32()), 0xe220a8 as f32 / 16777216.0);
}

#[test]
fn constants_are_the_numbers_they_stand_for() {
    assert_eq!(ieee::ZERO, 0.0f32.to_bits());
    assert_eq!(ieee::ONE, 1.0f32.to_bits());
    assert_eq!(ieee::INFINITY, f32::INFINITY.to_bits());
    assert_eq!(ieee::NEG_INFINITY, f32::NEG_INFINITY.to_bits());
    assert_eq!(START_YAW, 0.5f32.to_bits());
    assert_eq!(START_PITCH, 0.3f32.to_bits());
    assert_eq!(START_DISTANCE, 8.0f32.to_bits());
    assert_eq!(FIELD_OF_VIEW, 45.0_f32.to_radians().to_bits());
    assert_eq!(NEAR_PLANE, 2.0f32.to_bits());
    assert_eq!(FAR_PLANE, 15.0f32.to_bits());
    assert_eq!(MIN_PITCH, (-1.4f32).to_bits());
    assert_eq!(MAX_PITCH, 1.4f32.to_bits());
    assert_eq!(MIN_DISTANCE, 1.0f32.to_bits());
    assert_eq!(MAX_DISTANCE, 50.0f32.to_bits());
    assert_eq!(MIN_SPLAT_SCALE, 0.05f32.to_bits());
    assert_eq!(MAX_SPLAT_SCALE, 8.0f32.to_bits());
    assert_eq!(PRIOR_MIX, 0.75f32.to_bits());
    assert_eq!(FOREGROUND_ALPHA, (1.0f32 / 255.0).to_bits());
    assert_eq!(FLAT_DIRECTIONAL_BIN, (1.0f32 / 64.0).to_bits());
    assert_eq!(FLAT_SPATIAL_BIN, (1.0f32 / 32.0).to_bits());
    assert_eq!(START_ASPECT, (16.0f32 / 9.0).to_bits());
}
