use lox::number;

const NAN: u64 = 0x7FF8_0000_0000_0000;
const OTHER_NAN: u64 = 0xFFF0_0000_0000_0001;

fn samples() -> Vec<f64> {
    vec![
        0.0,
        -0.0,
        1.0,
        -1.0,
        0.5,
        -0.5,
        3.0,
        1e300,
        -1e300,
        5e-324,
        -5e-324,
        f64::MAX,
        f64::MIN,
        f64::MIN_POSITIVE,
        f64::INFINITY,
        f64::NEG_INFINITY,
        f64::NAN,
        f64::from_bits(OTHER_NAN),
    ]
}

#[test]
fn constants_are_the_doubles_they_name() {
    assert_eq!(number::ZERO, 0.0f64.to_bits());
    assert_eq!(number::ONE, 1.0f64.to_bits());
    assert_eq!(number::SIGN, (-0.0f64).to_bits());
    assert_eq!(number::INFINITY, f64::INFINITY.to_bits());
    assert_eq!(number::HIDDEN, 1u64 << 52);
}

#[test]
fn is_nan_agrees_with_the_hardware() {
    for x in samples() {
        assert_eq!(number::is_nan(x.to_bits()), x.is_nan(), "{x}");
    }
    assert!(number::is_nan(NAN));
    assert!(number::is_nan(OTHER_NAN));
    assert!(!number::is_nan(number::INFINITY));
    assert!(!number::is_nan(number::INFINITY | number::SIGN));
}

#[test]
fn equal_agrees_with_the_hardware() {
    for x in samples() {
        for y in samples() {
            assert_eq!(number::equal(x.to_bits(), y.to_bits()), x == y, "{x} == {y}");
        }
    }
}

#[test]
fn nan_is_not_equal_to_itself() {
    assert!(!number::equal(NAN, NAN));
}

#[test]
fn the_two_zeros_are_equal() {
    assert!(number::equal(0.0f64.to_bits(), (-0.0f64).to_bits()));
    assert!(!number::less((-0.0f64).to_bits(), 0.0f64.to_bits()));
}

#[test]
fn less_agrees_with_the_hardware() {
    for x in samples() {
        for y in samples() {
            assert_eq!(number::less(x.to_bits(), y.to_bits()), x < y, "{x} < {y}");
        }
    }
}

#[test]
fn less_equal_agrees_with_the_hardware() {
    for x in samples() {
        for y in samples() {
            assert_eq!(number::less_equal(x.to_bits(), y.to_bits()), x <= y, "{x} <= {y}");
        }
    }
}

#[test]
fn negate_agrees_with_the_hardware() {
    for x in samples() {
        assert_eq!(number::negate(x.to_bits()), (-x).to_bits(), "{x}");
    }
}

#[test]
fn negate_flips_only_the_sign() {
    assert_eq!(number::negate(number::ONE), 0xBFF0_0000_0000_0000);
    assert_eq!(number::negate(number::ZERO), number::SIGN);
    assert_eq!(number::negate(number::negate(NAN)), NAN);
}

#[test]
fn from_bool_is_one_or_zero() {
    assert_eq!(number::from_bool(true), 1.0f64.to_bits());
    assert_eq!(number::from_bool(false), 0.0f64.to_bits());
}

#[test]
fn from_length_of_small_lengths_is_exact() {
    assert_eq!(number::from_length(0), 0.0f64.to_bits());
    assert_eq!(number::from_length(1), 1.0f64.to_bits());
    assert_eq!(number::from_length(2), 2.0f64.to_bits());
    assert_eq!(number::from_length(3), 0x4008_0000_0000_0000);
    assert_eq!(number::from_length(1000), 1000.0f64.to_bits());
    for n in 0..5000usize {
        assert_eq!(number::from_length(n), (n as f64).to_bits(), "{n}");
    }
}

#[test]
fn from_length_agrees_with_the_hardware_at_powers_of_two() {
    for k in 0..usize::BITS {
        let n = 1usize << k;
        for m in [n - 1, n, n + 1, n + n / 2, n + n / 2 + 1, n + n / 4] {
            assert_eq!(number::from_length(m), (m as f64).to_bits(), "{m}");
        }
    }
    assert_eq!(number::from_length(usize::MAX), (usize::MAX as f64).to_bits());
}

#[test]
fn from_length_rounds_ties_to_even() {
    if usize::BITS == 64 {
        let base = 1usize << 53;
        assert_eq!(number::from_length(base + 1), (base as f64).to_bits());
        assert_eq!(number::from_length(base + 2), ((base + 2) as f64).to_bits());
        assert_eq!(number::from_length(base + 3), ((base + 4) as f64).to_bits());
        let mut n: usize = 0x9E37_79B9_7F4A_7C15;
        for _ in 0..2000 {
            n = n.wrapping_mul(6364136223846793005).wrapping_add(1442695040888963407);
            let m = n >> (n % 12);
            assert_eq!(number::from_length(m), (m as f64).to_bits(), "{m}");
        }
    }
}
