use table_orders::text::{push_decimal, push_signed_decimal};

fn written(n: u64) -> String {
    let mut out = String::new();
    push_decimal(&mut out, n);
    out
}

fn written_signed(n: i64) -> String {
    let mut out = String::new();
    push_signed_decimal(&mut out, n);
    out
}

#[test]
fn decimal_of_small_numbers() {
    assert_eq!(written(0), "0");
    assert_eq!(written(7), "7");
    assert_eq!(written(10), "10");
    assert_eq!(written(255), "255");
    assert_eq!(written(1234567890), "1234567890");
}

#[test]
fn decimal_of_the_largest_number() {
    assert_eq!(written(u64::MAX), "18446744073709551615");
}

#[test]
fn decimal_is_appended() {
    let mut out = "table #".to_string();
    push_decimal(&mut out, 42);
    assert_eq!(out, "table #42");
}

#[test]
fn signed_decimal_has_a_minus_sign_below_zero() {
    assert_eq!(written_signed(0), "0");
    assert_eq!(written_signed(-1), "-1");
    assert_eq!(written_signed(-10), "-10");
    assert_eq!(written_signed(305), "305");
    assert_eq!(written_signed(i64::MIN), "-9223372036854775808");
    assert_eq!(written_signed(i64::MAX), "9223372036854775807");
}

#[test]
fn signed_decimal_agrees_with_the_standard_rendering() {
    for n in [-1000i64, -99, -9, 0, 9, 99, 1000, 65536] {
        assert_eq!(written_signed(n), format!("{}", n));
    }
}
