use converter_core::single::{power_of_two, to_fixed_point};

fn with_floats(bits: u32, fractional_bits: u8) -> i32 {
    let scale = (1u32 << fractional_bits) as f32;
    (f32::from_bits(bits) * scale).round() as i32
}

#[test]
fn powers_of_two_are_exact() {
    assert_eq!(power_of_two(0), 1);
    assert_eq!(power_of_two(1), 2);
    assert_eq!(power_of_two(25), 1 << 25);
    assert_eq!(power_of_two(62), 1u64 << 62);
}

#[test]
fn fixed_point_of_chosen_numbers() {
    assert_eq!(to_fixed_point(1.0f32.to_bits(), 12), 4096);
    assert_eq!(to_fixed_point((-1.0f32).to_bits(), 12), -4096);
    assert_eq!(to_fixed_point(0.5f32.to_bits(), 0), 1);
    assert_eq!(to_fixed_point((-0.5f32).to_bits(), 0), -1);
    assert_eq!(to_fixed_point(1.5f32.to_bits(), 0), 2);
    assert_eq!(to_fixed_point(2.5f32.to_bits(), 0), 3);
    assert_eq!(to_fixed_point(0.49999997f32.to_bits(), 0), 0);
    assert_eq!(to_fixed_point(0.0f32.to_bits(), 20), 0);
    assert_eq!(to_fixed_point((-0.0f32).to_bits(), 20), 0);
    assert_eq!(to_fixed_point(f32::NAN.to_bits(), 20), 0);
    assert_eq!(to_fixed_point(f32::INFINITY.to_bits(), 4), i32::MAX);
    assert_eq!(to_fixed_point(f32::NEG_INFINITY.to_bits(), 4), i32::MIN);
    assert_eq!(to_fixed_point(f32::MAX.to_bits(), 20), i32::MAX);
    assert_eq!(to_fixed_point(f32::MIN.to_bits(), 20), i32::MIN);
    assert_eq!(to_fixed_point(f32::MIN_POSITIVE.to_bits(), 31), 0);
    assert_eq!(to_fixed_point(1u32, 31), 0);
    assert_eq!(to_fixed_point((8_388_607.0f32 / 1024.0).to_bits(), 10), 8_388_607);
    assert_eq!(to_fixed_point(2_147_483_648.0f32.to_bits(), 0), i32::MAX);
    assert_eq!(to_fixed_point((-2_147_483_648.0f32).to_bits(), 0), i32::MIN);
    assert_eq!(to_fixed_point(2_147_483_520.0f32.to_bits(), 0), 2_147_483_520);
    assert_eq!(to_fixed_point(3.14159f32.to_bits(), 16), 205_887);
}

#[test]
fn fixed_point_agrees_with_floating_point_at_every_exponent() {
    let fractions = [
        0u32, 1, 2, 3, 0x3f_ffff, 0x40_0000, 0x40_0001, 0x7f_fffe, 0x7f_ffff, 0x12_3456, 0x55_5555,
        0x2a_aaaa,
    ];
    for fractional_bits in 0u8..=31 {
        for field in 0u32..=255 {
            for fraction in fractions {
                for sign in [0u32, 0x8000_0000] {
                    let bits = sign | (field << 23) | fraction;
                    assert_eq!(
                        to_fixed_point(bits, fractional_bits),
                        with_floats(bits, fractional_bits),
                        "bits {:#x}, fractional bits {}",
                        bits,
                        fractional_bits
                    );
                }
            }
        }
    }
}

#[test]
fn fixed_point_agrees_with_floating_point_on_scattered_patterns() {
    let mut state: u32 = 0x1234_5678;
    for round in 0..200_000u32 {
        state = state.wrapping_mul(1_664_525).wrapping_add(1_013_904_223);
        let bits = state ^ (state >> 15);
        let fractional_bits = (4 + round % 17) as u8;
        assert_eq!(
            to_fixed_point(bits, fractional_bits),
            with_floats(bits, fractional_bits),
            "bits {:#x}, fractional bits {}",
            bits,
            fractional_bits
        );
    }
}

#[test]
fn fixed_point_rounds_halves_away_from_zero() {
    for whole in [0i32, 1, 2, 7, 1000, 8_388_606] {
        let half = whole as f32 + 0.5;
        assert_eq!(to_fixed_point(half.to_bits(), 0), whole + 1);
        assert_eq!(to_fixed_point((-half).to_bits(), 0), -(whole + 1));
    }
}

#[test]
fn fixed_point_takes_any_number_of_fractional_bits() {
    // the smallest subnormal is 2^-149
    assert_eq!(to_fixed_point(1, 148), 1);
    assert_eq!(to_fixed_point(1, 149), 1);
    assert_eq!(to_fixed_point(1, 150), 2);
    assert_eq!(to_fixed_point(3, 150), 6);
    assert_eq!(to_fixed_point(1, 147), 0);
    assert_eq!(to_fixed_point(1, 179), 1 << 30);
    assert_eq!(to_fixed_point(1, 180), i32::MAX);
    assert_eq!(to_fixed_point(0x8000_0001, 180), i32::MIN);
    assert_eq!(to_fixed_point(1, 255), i32::MAX);
    assert_eq!(to_fixed_point(0, 255), 0);
    assert_eq!(to_fixed_point(0x8000_0000, 255), 0);
    assert_eq!(to_fixed_point(1.0f32.to_bits(), 30), 1 << 30);
    assert_eq!(to_fixed_point(1.0f32.to_bits(), 31), i32::MAX);
    assert_eq!(to_fixed_point((-1.0f32).to_bits(), 31), i32::MIN);
    assert_eq!(to_fixed_point(1.0f32.to_bits(), 32), i32::MAX);
}
