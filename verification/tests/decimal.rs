use tiny_c_compiler::decimal::append_decimal;

fn written(value: i64) -> String {
    let mut text = String::new();
    append_decimal(&mut text, value);
    text
}

#[test]
fn numbers_in_base_ten() {
    assert_eq!(written(0), "0");
    assert_eq!(written(9), "9");
    assert_eq!(written(10), "10");
    assert_eq!(written(1234567890), "1234567890");
    assert_eq!(written(-1), "-1");
    assert_eq!(written(-120), "-120");
    assert_eq!(written(i64::MAX), i64::MAX.to_string());
    assert_eq!(written(i64::MIN), i64::MIN.to_string());
}

#[test]
fn digits_are_appended() {
    let mut text = String::from("x = ");
    append_decimal(&mut text, 42);
    assert_eq!(text, "x = 42");
}
