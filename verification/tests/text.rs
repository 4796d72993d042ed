use libwing::text::{decimal_string, push_decimal, push_decimal_nat};

#[test]
fn decimal_of_small_numbers() {
    assert_eq!(decimal_string(0), "0");
    assert_eq!(decimal_string(7), "7");
    assert_eq!(decimal_string(10), "10");
    assert_eq!(decimal_string(42), "42");
    assert_eq!(decimal_string(-1), "-1");
    assert_eq!(decimal_string(-120), "-120");
}

#[test]
fn decimal_of_the_limits() {
    assert_eq!(decimal_string(i32::MAX as i64), "2147483647");
    assert_eq!(decimal_string(i32::MIN as i64), "-2147483648");
    assert_eq!(decimal_string(i64::MAX), "9223372036854775807");
    assert_eq!(decimal_string(i64::MIN), "-9223372036854775808");
}

#[test]
fn decimal_agrees_with_std() {
    let mut v: i64 = 1;
    for _ in 0..18 {
        for d in [-1i64, 0, 1] {
            let n = v + d;
            assert_eq!(decimal_string(n), n.to_string());
            assert_eq!(decimal_string(-n), (-n).to_string());
        }
        v *= 10;
    }
}

#[test]
fn push_decimal_appends() {
    let mut s = String::from("x=");
    push_decimal(&mut s, -35);
    push_decimal_nat(&mut s, 1000);
    assert_eq!(s, "x=-351000");
    let mut t = String::new();
    push_decimal_nat(&mut t, u64::MAX);
    assert_eq!(t, "18446744073709551615");
}
