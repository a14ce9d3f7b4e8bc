use nu_plist::real_from_unsigned;

#[test]
fn zero_is_positive_zero() {
    assert_eq!(real_from_unsigned(0), 0.0_f64.to_bits());
}

#[test]
fn small_numbers_are_exact() {
    for v in 0..5000_u64 {
        assert_eq!(real_from_unsigned(v), (v as f64).to_bits());
        assert_eq!(f64::from_bits(real_from_unsigned(v)) as u64, v);
    }
    assert_eq!(real_from_unsigned(1), 0x3FF0_0000_0000_0000);
    assert_eq!(real_from_unsigned(2), 0x4000_0000_0000_0000);
    assert_eq!(real_from_unsigned(3), 0x4008_0000_0000_0000);
    assert_eq!(f64::from_bits(real_from_unsigned(12345678)), 12345678.0);
}

#[test]
fn powers_of_two_and_their_neighbours_agree_with_the_hardware() {
    for e in 0..64_u32 {
        let p = 1_u64 << e;
        for v in [p.wrapping_sub(2), p.wrapping_sub(1), p, p.wrapping_add(1), p.wrapping_add(2)] {
            assert_eq!(real_from_unsigned(v), (v as f64).to_bits(), "at {}", v);
        }
    }
    assert_eq!(real_from_unsigned(u64::MAX), (u64::MAX as f64).to_bits());
    assert_eq!(real_from_unsigned(u64::MAX), 0x43F0_0000_0000_0000);
}

#[test]
fn ties_go_to_the_even_significand() {
    let base = 1_u64 << 53;
    assert_eq!(f64::from_bits(real_from_unsigned(base + 1)), 9007199254740992.0);
    assert_eq!(f64::from_bits(real_from_unsigned(base + 2)), 9007199254740994.0);
    assert_eq!(f64::from_bits(real_from_unsigned(base + 3)), 9007199254740996.0);
    assert_eq!(real_from_unsigned(base + 1), 0x4340_0000_0000_0000);
    assert_eq!(real_from_unsigned(base + 3), 0x4340_0000_0000_0002);
    let base = 1_u64 << 60;
    let unit = 1_u64 << 8;
    for k in 0..64_u64 {
        for rest in [0, 1, unit / 2 - 1, unit / 2, unit / 2 + 1, unit - 1] {
            let v = base + k * unit + rest;
            assert_eq!(real_from_unsigned(v), (v as f64).to_bits(), "at {}", v);
        }
    }
}

#[test]
fn scattered_numbers_agree_with_the_hardware() {
    let mut state = 0x9E37_79B9_7F4A_7C15_u64;
    for _ in 0..200_000 {
        state ^= state << 13;
        state ^= state >> 7;
        state ^= state << 17;
        let v = state >> (state % 64);
        assert_eq!(real_from_unsigned(v), (v as f64).to_bits(), "at {}", v);
    }
}
