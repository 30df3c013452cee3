use pty_host::double::{count_from_double, double_from_count, MAX_EXACT_COUNT};

#[test]
fn double_from_count_matches_the_hardware() {
    assert_eq!(double_from_count(0), 0);
    assert_eq!(double_from_count(1), 0x3ff0000000000000);
    assert_eq!(double_from_count(2), 0x4000000000000000);
    assert_eq!(double_from_count(3), 0x4008000000000000);
    assert_eq!(MAX_EXACT_COUNT, 1 << 53);
    assert_eq!(double_from_count(MAX_EXACT_COUNT), 0x4340000000000000);
    let mut n: u64 = 1;
    let mut seed: u64 = 0x9e3779b97f4a7c15;
    for _ in 0..2000 {
        assert_eq!(double_from_count(n), (n as f64).to_bits());
        seed = seed.wrapping_mul(6364136223846793005).wrapping_add(1442695040888963407);
        n = (seed >> 11) % (MAX_EXACT_COUNT + 1);
    }
    for shift in 0..=63u32 {
        let p = 1u64 << shift;
        assert_eq!(double_from_count(p), (p as f64).to_bits());
        assert_eq!(double_from_count(p - 1), ((p - 1) as f64).to_bits());
        assert_eq!(double_from_count(p + 1), ((p + 1) as f64).to_bits());
    }
}

#[test]
fn double_from_count_rounds_long_counts_to_nearest_even() {
    assert_eq!(double_from_count((1 << 53) + 1), ((1u64 << 53) as f64).to_bits());
    assert_eq!(double_from_count((1 << 53) + 2), (((1u64 << 53) + 2) as f64).to_bits());
    assert_eq!(double_from_count((1 << 53) + 3), (((1u64 << 53) + 4) as f64).to_bits());
    assert_eq!(double_from_count((1 << 54) + 2), ((1u64 << 54) as f64).to_bits());
    assert_eq!(double_from_count((1 << 54) + 6), (((1u64 << 54) + 8) as f64).to_bits());
    assert_eq!(double_from_count((1 << 54) + 5), (((1u64 << 54) + 4) as f64).to_bits());
    assert_eq!(double_from_count(u64::MAX), 0x43f0000000000000);
    assert_eq!(double_from_count(u64::MAX - 1023), 0x43f0000000000000);
    assert_eq!(double_from_count(u64::MAX - 1024), 0x43efffffffffffff);
    assert_eq!(double_from_count(u64::MAX - 1025), 0x43efffffffffffff);
    assert_eq!(double_from_count(u64::MAX - 2047), 0x43efffffffffffff);
    let mut seed: u64 = 0xdeadbeefcafef00d;
    for _ in 0..20000 {
        seed ^= seed << 13;
        seed ^= seed >> 7;
        seed ^= seed << 17;
        let n = seed >> (seed % 12);
        assert_eq!(double_from_count(n), (n as f64).to_bits(), "{}", n);
        let tie = (n >> 12 << 12) | 0x800;
        assert_eq!(double_from_count(tie), (tie as f64).to_bits(), "{}", tie);
        let tie = (n >> 5 << 5) | 0x10;
        assert_eq!(double_from_count(tie), (tie as f64).to_bits(), "{}", tie);
    }
}

#[test]
fn count_from_double_takes_the_whole_part() {
    let count = |x: f64| count_from_double(x.to_bits());
    assert_eq!(count(1.0), Some(1));
    assert_eq!(count(12.0), Some(12));
    assert_eq!(count(12.999), Some(12));
    assert_eq!(count(0.5), Some(0));
    assert_eq!(count(f64::MIN_POSITIVE), Some(0));
    assert_eq!(count(5e-324), Some(0));
    assert_eq!(count(4096.25), Some(4096));
    assert_eq!(count(9007199254740992.0), Some(1 << 53));
    assert_eq!(count(9007199254740994.0), Some((1 << 53) + 2));
    assert_eq!(count(18446744073709549568.0), Some(18446744073709549568));
    assert_eq!(count(1.8446744073709552e19), Some(u64::MAX));
    assert_eq!(count(1e300), Some(u64::MAX));
    assert_eq!(count(f64::MAX), Some(u64::MAX));
}

#[test]
fn count_from_double_has_nothing_for_other_numbers() {
    let count = |x: f64| count_from_double(x.to_bits());
    assert_eq!(count(0.0), None);
    assert_eq!(count(-0.0), None);
    assert_eq!(count(-1.0), None);
    assert_eq!(count(-5e-324), None);
    assert_eq!(count(f64::NEG_INFINITY), None);
    assert_eq!(count(f64::INFINITY), None);
    assert_eq!(count(f64::NAN), None);
    assert_eq!(count_from_double(0x7ff0000000000001), None);
    assert_eq!(count_from_double(0xfff8000000000000), None);
    assert_eq!(count_from_double(u64::MAX), None);
}

#[test]
fn counts_survive_the_wire() {
    assert_eq!(count_from_double(double_from_count(0)), None);
    let mut seed: u64 = 42;
    for _ in 0..2000 {
        seed = seed.wrapping_mul(6364136223846793005).wrapping_add(1442695040888963407);
        let n = (seed >> 11) % MAX_EXACT_COUNT + 1;
        assert_eq!(count_from_double(double_from_count(n)), Some(n));
    }
    let mut seed: u64 = 7;
    for _ in 0..2000 {
        seed = seed.wrapping_mul(6364136223846793005).wrapping_add(1442695040888963407);
        let x = f64::from_bits(seed);
        let expected = if x.is_nan() || x <= 0.0 || x.is_infinite() {
            None
        } else {
            Some(x as u64)
        };
        assert_eq!(count_from_double(seed), expected);
    }
}
