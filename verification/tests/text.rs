use mc_launcher::text::append_decimal;

fn decimal(n: u128) -> String {
    let mut out = String::new();
    append_decimal(&mut out, n);
    out
}

#[test]
fn decimal_of_single_digits() {
    assert_eq!(decimal(0), "0");
    assert_eq!(decimal(7), "7");
    assert_eq!(decimal(9), "9");
}

#[test]
fn decimal_of_larger_numbers() {
    assert_eq!(decimal(10), "10");
    assert_eq!(decimal(42), "42");
    assert_eq!(decimal(1005), "1005");
    assert_eq!(decimal(1234567890), "1234567890");
    assert_eq!(decimal(18446744073709551615), "18446744073709551615");
    assert_eq!(decimal(u128::MAX), "340282366920938463463374607431768211455");
}

#[test]
fn decimal_is_appended_to_what_is_there() {
    let mut out = String::from("count: ");
    append_decimal(&mut out, 300);
    assert_eq!(out, "count: 300");
    append_decimal(&mut out, 0);
    assert_eq!(out, "count: 3000");
}
