use letter_mesh::fixed::{fx_div, fx_mul, sat_add, sat_sub, saturate, HALF, MINUS_UNIT, UNIT};

#[test]
fn saturate_keeps_what_fits() {
    assert_eq!(saturate(0), 0);
    assert_eq!(saturate(-1), -1);
    assert_eq!(saturate(i32::MAX as i64), i32::MAX);
    assert_eq!(saturate(i32::MIN as i64), i32::MIN);
    assert_eq!(saturate(i32::MAX as i64 + 1), i32::MAX);
    assert_eq!(saturate(i32::MIN as i64 - 1), i32::MIN);
    assert_eq!(saturate(i64::MAX), i32::MAX);
    assert_eq!(saturate(i64::MIN), i32::MIN);
}

#[test]
fn sums_and_differences_saturate() {
    assert_eq!(sat_add(250_000, HALF), 750_000);
    assert_eq!(sat_add(i32::MAX, 1), i32::MAX);
    assert_eq!(sat_add(i32::MIN, -1), i32::MIN);
    assert_eq!(sat_sub(UNIT, 250_000), 750_000);
    assert_eq!(sat_sub(0, i32::MIN), i32::MAX);
    assert_eq!(sat_sub(i32::MIN, 1), i32::MIN);
    assert_eq!(sat_sub(-5, -5), 0);
}

#[test]
fn products_round_toward_zero() {
    assert_eq!(fx_mul(200_000, 1_500_000), 300_000);
    assert_eq!(fx_mul(3, HALF), 1);
    assert_eq!(fx_mul(-3, HALF), -1);
    assert_eq!(fx_mul(3, -HALF), -1);
    assert_eq!(fx_mul(-3, -HALF), 1);
    assert_eq!(fx_mul(1, 999_999), 0);
    assert_eq!(fx_mul(-1, 999_999), 0);
    assert_eq!(fx_mul(123_456, UNIT), 123_456);
    assert_eq!(fx_mul(123_456, MINUS_UNIT), -123_456);
    assert_eq!(fx_mul(i32::MIN, MINUS_UNIT), i32::MAX);
    assert_eq!(fx_mul(i32::MAX, i32::MAX), i32::MAX);
    assert_eq!(fx_mul(i32::MAX, i32::MIN), i32::MIN);
}

#[test]
fn quotients_round_toward_zero() {
    assert_eq!(fx_div(150_000, 350_000), 428_571);
    assert_eq!(fx_div(-150_000, 350_000), -428_571);
    assert_eq!(fx_div(150_000, -350_000), -428_571);
    assert_eq!(fx_div(-150_000, -350_000), 428_571);
    assert_eq!(fx_div(UNIT, UNIT), UNIT);
    assert_eq!(fx_div(0, 7), 0);
    assert_eq!(fx_div(i32::MAX, 1), i32::MAX);
    assert_eq!(fx_div(i32::MIN, 1), i32::MIN);
    assert_eq!(fx_div(i32::MIN, -1), i32::MAX);
}
