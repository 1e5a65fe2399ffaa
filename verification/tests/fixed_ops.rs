use pathtracer::fixed::{fx_div, fx_mul, fx_sqrt, SCALE};

#[test]
fn mul_rescales_exactly() {
    // 2.5 * 0.4 == 1.0
    assert_eq!(fx_mul(2_500_000, 400_000), SCALE);
    // 3.0 * -1.5 == -4.5
    assert_eq!(fx_mul(3_000_000, -1_500_000), -4_500_000);
}

#[test]
fn mul_truncates_toward_zero() {
    // (1 * 1) / SCALE rounds down to zero
    assert_eq!(fx_mul(1, 1), 0);
    // a tiny negative product rounds toward zero, not toward minus infinity
    assert_eq!(fx_mul(-1, 999_999), 0);
}

#[test]
fn div_rescales_exactly() {
    // 1.0 / 3.0 == 0.333333, truncated
    assert_eq!(fx_div(1_000_000, 3_000_000), 333_333);
    // -1.0 / 3.0 truncates toward zero
    assert_eq!(fx_div(-1_000_000, 3_000_000), -333_333);
    // 1.0 / 0.5 == 2.0
    assert_eq!(fx_div(1_000_000, 500_000), 2_000_000);
}

#[test]
fn sqrt_of_perfect_squares() {
    assert_eq!(fx_sqrt(0), 0);
    assert_eq!(fx_sqrt(4_000_000), 2_000_000);
    assert_eq!(fx_sqrt(250_000), 500_000);
    assert_eq!(fx_sqrt(SCALE), SCALE);
}

#[test]
fn sqrt_rounds_down() {
    // sqrt(2) = 1.414213..., truncated
    assert_eq!(fx_sqrt(2_000_000), 1_414_213);
    // sqrt(0.91) = 0.953939...
    assert_eq!(fx_sqrt(910_000), 953_939);
}
