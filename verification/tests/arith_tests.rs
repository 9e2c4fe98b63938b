use classvm::arith::{
    jint_add, jint_div, jint_mul, jint_neg, jint_rem, jint_sub, jlong_add, jlong_cmp, jlong_div,
    jlong_mul, jlong_rem,
};
use classvm::error::VmError;
use classvm::things::Value;

#[test]
fn addition_wraps_two_complement() {
    assert_eq!(jint_add(2, 3), 5);
    assert_eq!(jint_add(i32::MAX, 1), i32::MIN);
    assert_eq!(jint_sub(i32::MIN, 1), i32::MAX);
    assert_eq!(jint_mul(0x4000_0000, 2), i32::MIN);
    assert_eq!(jint_neg(i32::MIN), i32::MIN);
    assert_eq!(jlong_add(i64::MAX, 1), i64::MIN);
    assert_eq!(jlong_mul(0x4000_0000_0000_0000, 2), i64::MIN);
}

#[test]
fn division_truncates_toward_zero() {
    assert_eq!(jint_div(7, 2), Ok(3));
    assert_eq!(jint_div(-7, 2), Ok(-3));
    assert_eq!(jint_div(7, -2), Ok(-3));
    assert_eq!(jint_div(-7, -2), Ok(3));
    assert_eq!(jint_rem(7, 2), Ok(1));
    assert_eq!(jint_rem(-7, 2), Ok(-1));
    assert_eq!(jint_rem(7, -2), Ok(1));
    assert_eq!(jint_rem(-7, -2), Ok(-1));
    assert_eq!(jlong_div(-9, 4), Ok(-2));
    assert_eq!(jlong_rem(-9, 4), Ok(-1));
}

#[test]
fn most_negative_over_minus_one_wraps_without_trapping() {
    assert_eq!(jint_div(i32::MIN, -1), Ok(i32::MIN));
    assert_eq!(jint_rem(i32::MIN, -1), Ok(0));
    assert_eq!(jlong_div(i64::MIN, -1), Ok(i64::MIN));
    assert_eq!(jlong_rem(i64::MIN, -1), Ok(0));
}

#[test]
fn zero_divisor_is_the_division_fatal_condition() {
    assert_eq!(jint_div(5, 0), Err(VmError::DivisionByZero));
    assert_eq!(jint_rem(5, 0), Err(VmError::DivisionByZero));
    assert_eq!(jlong_div(5, 0), Err(VmError::DivisionByZero));
    assert_eq!(jlong_rem(5, 0), Err(VmError::DivisionByZero));
}

#[test]
fn long_comparison_is_signed_three_way() {
    assert_eq!(jlong_cmp(1, 2), -1);
    assert_eq!(jlong_cmp(2, 2), 0);
    assert_eq!(jlong_cmp(3, 2), 1);
    assert_eq!(jlong_cmp(i64::MIN, i64::MAX), -1);
}

#[test]
fn value_slots_round_trip() {
    assert_eq!(Value::nint(-5).as_int(), -5);
    assert_eq!(Value::nint(i32::MIN).as_int(), i32::MIN);
    assert_eq!(Value::nlong(-1).as_long(), -1);
    assert_eq!(Value::nlong(i64::MIN).as_long(), i64::MIN);
    assert_eq!(Value::nbyte(-3).as_byte(), -3);
    assert_eq!(Value::nshort(-300).as_short(), -300);
    assert_eq!(Value::nchar(0xffff).as_char(), 0xffff);
    assert_eq!(Value::null().bits, 0);
    assert_eq!(Value::null().to_object(), None);
}
