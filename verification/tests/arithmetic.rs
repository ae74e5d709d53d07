use cpu_config::binary32::Binary32;
use cpu_config::rounding::round_to_significand;
use cpu_config::scaling::{power_of_two, whole_part};

fn hardware(count: usize, bits: u32) -> i16 {
    (count as f32 * f32::from_bits(bits)) as i16
}

fn interesting_patterns() -> Vec<u32> {
    let mut patterns = vec![
        0x0000_0000,
        0x0000_0001,
        0x0000_0002,
        0x007F_FFFF,
        0x0080_0000,
        0x0080_0001,
        0x00FF_FFFF,
        0x3F33_3333,
        0x3F7F_FFFF,
        0x3F80_0000,
        0x3F80_0001,
        0x3EAA_AAAB,
        0x3DCC_CCCD,
        0x3F00_0000,
        0x4000_0000,
        0x46FF_FE00,
        0x4700_0000,
        0x4B00_0000,
        0x4B80_0000,
        0x5F00_0000,
        0x7F7F_FFFF,
        0x7F80_0000,
        0x7F80_0001,
        0x7FC0_0000,
        0x7FFF_FFFF,
    ];
    let positive = patterns.clone();
    for bits in positive {
        patterns.push(bits | 0x8000_0000);
    }
    patterns
}

fn interesting_counts() -> Vec<usize> {
    let mut counts: Vec<usize> = (0..=130).collect();
    for base in [
        255usize,
        1000,
        4095,
        32767,
        32768,
        32769,
        65535,
        16_777_215,
        16_777_216,
        16_777_217,
        16_777_218,
        16_777_219,
        33_554_431,
        33_554_433,
        33_554_434,
        33_554_435,
        4_294_967_295,
    ] {
        counts.push(base);
    }
    counts.push(usize::MAX);
    counts.push(usize::MAX - 1);
    counts.push(usize::MAX / 2);
    counts.push(usize::MAX / 2 + 1);
    counts.push(usize::MAX / 3);
    counts
}

#[test]
fn product_agrees_with_hardware_on_chosen_values() {
    for bits in interesting_patterns() {
        for count in interesting_counts() {
            assert_eq!(
                Binary32::from_bits(bits).multiply_count(count),
                hardware(count, bits),
                "count {} bits {:#x}",
                count,
                bits
            );
        }
    }
}

#[test]
fn product_agrees_with_hardware_on_a_sweep() {
    let mut state: u64 = 0x9E37_79B9_7F4A_7C15;
    for round in 0..200_000u32 {
        state = state.wrapping_mul(6364136223846793005).wrapping_add(1442695040888963407);
        let bits = (state >> 32) as u32;
        state = state.wrapping_mul(6364136223846793005).wrapping_add(1442695040888963407);
        let width = (state >> 58) as u32;
        state = state.wrapping_mul(6364136223846793005).wrapping_add(1442695040888963407);
        let count = ((state >> (63 - width.min(63))) as usize) | (round as usize & 1);
        assert_eq!(
            Binary32::from_bits(bits).multiply_count(count),
            hardware(count, bits),
            "count {} bits {:#x}",
            count,
            bits
        );
    }
}

#[test]
fn product_agrees_with_hardware_on_fractions_of_small_hosts() {
    for count in 0..=512usize {
        for step in 0..=1000u32 {
            let share = step as f32 / 1000.0;
            assert_eq!(
                Binary32::from_bits(share.to_bits()).multiply_count(count),
                (count as f32 * share) as i16
            );
        }
    }
}

#[test]
fn unit_interval_agrees_with_hardware() {
    let mut patterns = interesting_patterns();
    let mut state: u64 = 12345;
    for _ in 0..100_000 {
        state = state.wrapping_mul(6364136223846793005).wrapping_add(1442695040888963407);
        patterns.push((state >> 32) as u32);
    }
    for bits in patterns {
        let value = f32::from_bits(bits);
        assert_eq!(
            Binary32::from_bits(bits).is_within_unit_interval(),
            0.0 <= value && value <= 1.0,
            "bits {:#x}",
            bits
        );
    }
}

#[test]
fn rounding_agrees_with_hardware_conversion() {
    let mut state: u64 = 777;
    for _ in 0..100_000 {
        state = state.wrapping_mul(6364136223846793005).wrapping_add(1442695040888963407);
        let width = (state >> 58) as u32;
        state = state.wrapping_mul(6364136223846793005).wrapping_add(1442695040888963407);
        let x = state >> width;
        assert_eq!(round_to_significand(x as u128) as f32, x as f32);
        assert_eq!(round_to_significand(x as u128), (x as f32) as u128);
    }
}

#[test]
fn rounding_keeps_short_numbers_and_breaks_ties_to_even() {
    assert_eq!(round_to_significand(0), 0);
    assert_eq!(round_to_significand(16_777_215), 16_777_215);
    assert_eq!(round_to_significand(16_777_216), 16_777_216);
    assert_eq!(round_to_significand(16_777_217), 16_777_216);
    assert_eq!(round_to_significand(16_777_218), 16_777_218);
    assert_eq!(round_to_significand(16_777_219), 16_777_220);
    assert_eq!(round_to_significand(33_554_430), 33_554_430);
    assert_eq!(round_to_significand(33_554_431), 33_554_432);
    assert_eq!(round_to_significand(33_554_434), 33_554_432);
    assert_eq!(round_to_significand(33_554_435), 33_554_436);
}

#[test]
fn powers_of_two_are_exact() {
    assert_eq!(power_of_two(0), 1);
    assert_eq!(power_of_two(1), 2);
    assert_eq!(power_of_two(24), 16_777_216);
    assert_eq!(power_of_two(126), 1u128 << 126);
}

#[test]
fn whole_part_truncates_and_caps() {
    assert_eq!(whole_part(0, 200, 149), 0);
    assert_eq!(whole_part(11, 1, 2), 5);
    assert_eq!(whole_part(11, 0, 4), 0);
    assert_eq!(whole_part(3, 4, 2), 12);
    assert_eq!(whole_part(1, 15, 0), 32768);
    assert_eq!(whole_part(1, 14, 0), 16384);
    assert_eq!(whole_part(32767, 149, 149), 32767);
    assert_eq!(whole_part(32769, 149, 149), 32768);
    assert_eq!(whole_part(1, 253, 149), 32768);
    assert_eq!(whole_part(1 << 100, 0, 149), 0);
    assert_eq!(whole_part((1 << 100) + 5, 60, 149), 1 << 11);
}

#[test]
fn share_of_a_count_stays_between_zero_and_the_count() {
    let mut state: u64 = 4242;
    for round in 0..200_000u64 {
        state = state.wrapping_mul(6364136223846793005).wrapping_add(1442695040888963407);
        let bits = ((state >> 32) as u32) % (0x3F80_0000 + 1);
        state = state.wrapping_mul(6364136223846793005).wrapping_add(1442695040888963407);
        let width = (state >> 58) as u32;
        state = state.wrapping_mul(6364136223846793005).wrapping_add(1442695040888963407);
        let count = (state >> width) as usize;
        let share = Binary32::from_bits(if round % 97 == 0 { 0x3F80_0000 } else { bits });
        assert!(share.is_within_unit_interval());
        let got = share.multiply_count(count);
        assert!(got >= 0);
        assert!(got as usize <= count, "count {} bits {:#x}", count, bits);
    }
}

#[test]
fn share_of_a_count_is_the_whole_part_of_the_exact_product_or_one_more() {
    let mut carried = 0u32;
    for count in 0..=300usize {
        for step in 0..=2000u32 {
            let share = step as f32 / 2000.0;
            let got = Binary32::from_bits(share.to_bits()).multiply_count(count) as i64;
            let floor = (count as f64 * share as f64).floor() as i64;
            assert!(got == floor || got == floor + 1, "count {} share {}", count, share);
            if got == floor + 1 {
                carried += 1;
            }
        }
    }
    assert!(carried > 0);
    let seventy = Binary32::from_bits(0.70f32.to_bits());
    assert_eq!((10.0f64 * 0.70f32 as f64).floor(), 6.0);
    assert_eq!(seventy.multiply_count(10), 7);
    assert_eq!((8.0f64 * 0.70f32 as f64).floor(), 5.0);
    assert_eq!(seventy.multiply_count(8), 5);
}

#[test]
fn exact_products_are_truncated_without_rounding() {
    for shift in 0..=14u32 {
        let count = 1usize << shift;
        for bits in [0x3F33_3333u32, 0x3EAA_AAAB, 0x3F7F_FFFF, 0x3DCC_CCCD, 0x3F00_0000] {
            let share = f32::from_bits(bits);
            let got = Binary32::from_bits(bits).multiply_count(count) as i64;
            assert_eq!(got, (count as f64 * share as f64).floor() as i64);
        }
    }
}

#[test]
fn bit_patterns_round_trip() {
    for bits in interesting_patterns() {
        assert_eq!(Binary32::from_bits(bits).to_bits(), bits);
        assert_eq!(Binary32::from_bits(bits), Binary32 { bits });
    }
}

#[test]
fn product_is_the_truncated_exact_product_or_one_more_in_magnitude() {
    let mut state: u64 = 99;
    let mut checked = 0u32;
    while checked < 100_000 {
        state = state.wrapping_mul(6364136223846793005).wrapping_add(1442695040888963407);
        let bits = (state >> 32) as u32;
        state = state.wrapping_mul(6364136223846793005).wrapping_add(1442695040888963407);
        let count = (state >> 40) as usize;
        let value = f32::from_bits(bits);
        let exact = count as f64 * value as f64;
        if !value.is_finite() || exact.abs() >= 16_777_216.0 {
            continue;
        }
        checked += 1;
        let toward_zero = exact.trunc() as i64;
        let away = toward_zero + if value.is_sign_negative() { -1 } else { 1 };
        let clamp = |whole: i64| whole.clamp(i16::MIN as i64, i16::MAX as i64);
        let got = Binary32::from_bits(bits).multiply_count(count) as i64;
        assert!(
            got == clamp(toward_zero) || got == clamp(away),
            "count {} bits {:#x}",
            count,
            bits
        );
    }
}

#[test]
fn product_agrees_with_hardware_near_ties_and_whole_numbers() {
    let mut state: u64 = 31337;
    for _ in 0..300_000u32 {
        state = state.wrapping_mul(6364136223846793005).wrapping_add(1442695040888963407);
        let fraction = (state >> 41) as u32;
        state = state.wrapping_mul(6364136223846793005).wrapping_add(1442695040888963407);
        let exponent = 110 + ((state >> 33) as u32 % 45);
        let sign = ((state >> 20) as u32 & 1) << 31;
        state = state.wrapping_mul(6364136223846793005).wrapping_add(1442695040888963407);
        let count = 1 + ((state >> 30) as usize % 4096);
        let bits = sign | (exponent << 23) | fraction;
        assert_eq!(
            Binary32::from_bits(bits).multiply_count(count),
            hardware(count, bits),
            "count {} bits {:#x}",
            count,
            bits
        );
    }
}

#[test]
fn product_agrees_with_hardware_on_subnormal_results() {
    let mut state: u64 = 8086;
    for _ in 0..100_000u32 {
        state = state.wrapping_mul(6364136223846793005).wrapping_add(1442695040888963407);
        let bits = ((state >> 32) as u32) & 0x81FF_FFFF;
        state = state.wrapping_mul(6364136223846793005).wrapping_add(1442695040888963407);
        let count = (state >> 20) as usize;
        assert_eq!(Binary32::from_bits(bits).multiply_count(count), hardware(count, bits));
        assert_eq!(Binary32::from_bits(bits).multiply_count(count % 1000), 0);
    }
}
