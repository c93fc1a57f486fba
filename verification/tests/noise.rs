use logue_sdk::dsp::{clampf, is_nan_bits, truncf, HALF_BITS, ONE_BITS};
use logue_sdk::dsp::si_copysign;
use logue_sdk::noise::{Noise, ParamAction};
use logue_sdk::oscapi::OscParam;

fn bit_patterns(count: usize) -> Vec<u32> {
    let mut state: u64 = 0x0f1e_2d3c_4b5a_6978;
    let mut out = Vec::with_capacity(count);
    for _ in 0..count {
        state = state.wrapping_mul(6364136223846793005).wrapping_add(1442695040888963407);
        out.push((state >> 32) as u32);
    }
    out
}

#[test]
fn shape_and_shift_shape_are_the_parameters_of_the_oscillator() {
    assert_eq!(Noise::param(OscParam::ParamShape), ParamAction::SelectWave);
    assert_eq!(Noise::param(OscParam::ParamShiftShape), ParamAction::SetBitcrush);
    for param in [
        OscParam::Param1,
        OscParam::Param2,
        OscParam::Param3,
        OscParam::Param4,
        OscParam::Param5,
        OscParam::Param6,
    ] {
        assert_eq!(Noise::param(param), ParamAction::Ignore);
    }
}

#[test]
fn the_oscillator_starts_on_the_first_wavetable() {
    assert_eq!(Noise::new().wave(), 0);
}

#[test]
fn shape_selects_a_wavetable_of_the_bank() {
    let mut noise = Noise::new();
    for value in 0..=16383u16 {
        let xf = value as f32 * 6.103_888e-5_f32;
        let x = (xf * 15.0) as usize;
        noise.select_wave(16, (xf * 15.0).to_bits());
        assert!(x < 16);
        assert_eq!(noise.wave(), x, "value {value}");
    }
    noise.select_wave(16, 15.0f32.to_bits());
    assert_eq!(noise.wave(), 15);
    noise.select_wave(16, 0);
    assert_eq!(noise.wave(), 0);
}

#[test]
fn a_position_past_the_bank_keeps_the_wavetable() {
    let mut noise = Noise::new();
    noise.select_wave(16, 7.5f32.to_bits());
    assert_eq!(noise.wave(), 7);
    for xf in [16.0f32, 16.5, 1.0e9, 3.0e38, f32::INFINITY] {
        noise.select_wave(16, xf.to_bits());
        assert_eq!(noise.wave(), 7, "position {xf}");
    }
    noise.select_wave(0, 0);
    assert_eq!(noise.wave(), 7);
    noise.select_wave(16, f32::NAN.to_bits());
    assert_eq!(noise.wave(), 0);
    noise.select_wave(16, 3.0f32.to_bits());
    noise.select_wave(16, (-2.0f32).to_bits());
    assert_eq!(noise.wave(), 0);
}

#[test]
fn clamp_agrees_with_single_precision() {
    let bounds = [(0.0f32, 1.0f32), (0.0, 23679.643054), (-1.0, 1.0), (-3.5, -0.0), (2.0, 2.0)];
    for bits in bit_patterns(200_000) {
        let x = f32::from_bits(bits);
        for (min, max) in bounds {
            let r = clampf(bits, min.to_bits(), max.to_bits());
            if x.is_nan() {
                assert_eq!(r, bits);
            } else {
                assert_eq!(r, x.clamp(min, max).to_bits(), "{x} in [{min}, {max}]");
            }
        }
    }
}

#[test]
fn clamp_holds_the_bit_crush_amount_in_the_unit_interval() {
    assert_eq!(clampf(0.5f32.to_bits(), 0, ONE_BITS), HALF_BITS);
    assert_eq!(clampf(1.5f32.to_bits(), 0, ONE_BITS), ONE_BITS);
    assert_eq!(clampf((-0.5f32).to_bits(), 0, ONE_BITS), 0);
    assert_eq!(clampf(f32::INFINITY.to_bits(), 0, ONE_BITS), ONE_BITS);
    assert_eq!(clampf(f32::NEG_INFINITY.to_bits(), 0, ONE_BITS), 0);
    assert_eq!(clampf(0x7fc0_0000, 0, ONE_BITS), 0x7fc0_0000);
    assert_eq!(clampf(0x8000_0000, 0, ONE_BITS), 0x8000_0000);
    for value in 0..=16383u16 {
        let scaled = value as f32 * 6.103_888e-5_f32 * 0.1;
        assert_eq!(clampf(scaled.to_bits(), 0, ONE_BITS), scaled.clamp(0.0, 1.0).to_bits());
    }
}

#[test]
fn nan_is_told_by_its_bits() {
    for bits in bit_patterns(100_000) {
        assert_eq!(is_nan_bits(bits), f32::from_bits(bits).is_nan());
    }
    assert!(is_nan_bits(0x7f80_0001));
    assert!(is_nan_bits(0xffff_ffff));
    assert!(!is_nan_bits(0x7f80_0000));
    assert!(!is_nan_bits(0xff80_0000));
}

#[test]
fn truncation_drops_the_fraction_toward_zero() {
    for bits in bit_patterns(300_000) {
        let magnitude = (bits & 0x7fff_ffff) % 0x4f00_0000;
        let bits = (bits & 0x8000_0000) | magnitude;
        let x = f32::from_bits(bits);
        assert_eq!(truncf(bits), ((x as i32) as f32).to_bits(), "whole part of {x}");
    }
    assert_eq!(truncf(2.75f32.to_bits()), 2.0f32.to_bits());
    assert_eq!(truncf((-2.75f32).to_bits()), (-2.0f32).to_bits());
    assert_eq!(truncf(0.99f32.to_bits()), 0);
    assert_eq!(truncf((-0.99f32).to_bits()), 0);
    assert_eq!(truncf(0x8000_0000), 0);
    assert_eq!(truncf(8388609.0f32.to_bits()), 8388609.0f32.to_bits());
    assert_eq!(truncf(0x4eff_ffff), 0x4eff_ffff);
}

fn round_in_single_precision(x: f32) -> f32 {
    ((x + 0.5f32.copysign(x)) as i32) as f32
}

#[test]
fn rounding_is_the_truncation_of_the_number_plus_a_signed_half() {
    for bits in bit_patterns(300_000) {
        let magnitude = (bits & 0x7fff_ffff) % 0x4e80_0000;
        let bits = (bits & 0x8000_0000) | magnitude;
        let x = f32::from_bits(bits);
        let half = f32::from_bits(si_copysign(HALF_BITS, bits));
        let rounded = truncf((x + half).to_bits());
        assert_eq!(rounded, round_in_single_precision(x).to_bits(), "{x}");
    }
    let halves =
        [(0.4f32, 0.0f32), (0.5, 1.0), (1.5, 2.0), (2.5, 3.0), (-0.5, -1.0), (-2.5, -3.0)];
    for (x, expected) in halves {
        let half = f32::from_bits(si_copysign(HALF_BITS, x.to_bits()));
        assert_eq!(f32::from_bits(truncf((x + half).to_bits())), expected);
    }
}
