use nexus::runtime::math::{
    abs_i64, math_error_line, max_i64, min_i64, mod_i64, parse_i64, parse_i64_or_error,
    string_to_i64, NX_MATH_ERROR_I64,
};

#[test]
fn mod_i64_zero_returns_explicit_error_value() {
    assert_eq!(mod_i64(10, 0), NX_MATH_ERROR_I64);
}

#[test]
fn parse_i64_or_error_reports_invalid_input() {
    let err = parse_i64_or_error("abc").expect_err("invalid input should return error");
    assert!(err.contains("invalid integer"), "unexpected error: {}", err);
}

#[test]
fn remainders_have_the_sign_of_the_dividend() {
    assert_eq!(mod_i64(7, 3), 1);
    assert_eq!(mod_i64(-7, 3), -1);
    assert_eq!(mod_i64(7, -3), 1);
    assert_eq!(mod_i64(-7, -3), -1);
    assert_eq!(mod_i64(i64::MIN, 10), i64::MIN % 10);
}

#[test]
fn extremes_and_magnitude() {
    assert_eq!(abs_i64(-5), 5);
    assert_eq!(abs_i64(5), 5);
    assert_eq!(max_i64(-1, 2), 2);
    assert_eq!(min_i64(-1, 2), -1);
}

#[test]
fn integers_are_read_with_signs_and_spaces() {
    assert_eq!(parse_i64_or_error(" \t42\n"), Ok(42));
    assert_eq!(parse_i64_or_error("+7"), Ok(7));
    assert_eq!(parse_i64_or_error("-0012"), Ok(-12));
    assert_eq!(parse_i64("9223372036854775807"), Some(i64::MAX));
    assert_eq!(parse_i64("-9223372036854775808"), Some(i64::MIN));
    assert_eq!(parse_i64("9223372036854775808"), None);
    assert_eq!(parse_i64("-9223372036854775809"), None);
    assert_eq!(parse_i64(""), None);
    assert_eq!(parse_i64("-"), None);
    assert_eq!(parse_i64("1 2"), None);
}

#[test]
fn failed_conversions_have_a_message_and_a_value() {
    assert_eq!(
        parse_i64_or_error("x1"),
        Err("string_to_i64: invalid integer 'x1'".to_string())
    );
    assert_eq!(string_to_i64("x1"), NX_MATH_ERROR_I64);
    assert_eq!(string_to_i64(" 8 "), 8);
    assert_eq!(math_error_line("mod: division by zero"), "math error: mod: division by zero");
}
