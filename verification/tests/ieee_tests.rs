use rust_qsim::ieee::{f64_bits_eq, opt_f64_bits_eq};

#[test]
fn double_equality_on_bits() {
    assert!(f64_bits_eq(1.5f64.to_bits(), 1.5f64.to_bits()));
    assert!(!f64_bits_eq(1.5f64.to_bits(), 2.5f64.to_bits()));
    assert!(f64_bits_eq(0.0f64.to_bits(), (-0.0f64).to_bits()));
    assert!(!f64_bits_eq(f64::NAN.to_bits(), f64::NAN.to_bits()));
    assert!(f64_bits_eq(f64::INFINITY.to_bits(), f64::INFINITY.to_bits()));
    assert!(!f64_bits_eq(f64::INFINITY.to_bits(), f64::NEG_INFINITY.to_bits()));
}

#[test]
fn double_equality_matches_f64_eq() {
    let values = [0.0f64, -0.0, 1.0, -1.0, 0.25, f64::NAN, f64::INFINITY, f64::MIN_POSITIVE, f64::MAX];
    for a in values {
        for b in values {
            assert_eq!(f64_bits_eq(a.to_bits(), b.to_bits()), a == b);
        }
    }
}

#[test]
fn optional_double_equality() {
    assert!(opt_f64_bits_eq(None, None));
    assert!(!opt_f64_bits_eq(Some(1.0f64.to_bits()), None));
    assert!(opt_f64_bits_eq(Some(1.0f64.to_bits()), Some(1.0f64.to_bits())));
    assert!(!opt_f64_bits_eq(Some(f64::NAN.to_bits()), Some(f64::NAN.to_bits())));
}
