use sqlrite::strconv::{
    i64_to_string, parse_bool, parse_i32, parse_i64, real_accepts, u64_to_string,
};

#[test]
fn parse_i64_accepts_rust_grammar_test() {
    assert_eq!(parse_i64("0"), Some(0));
    assert_eq!(parse_i64("+42"), Some(42));
    assert_eq!(parse_i64("-42"), Some(-42));
    assert_eq!(parse_i64("007"), Some(7));
    assert_eq!(parse_i64("9223372036854775807"), Some(i64::MAX));
    assert_eq!(parse_i64("-9223372036854775808"), Some(i64::MIN));
    assert_eq!(parse_i64("9223372036854775808"), None);
    assert_eq!(parse_i64(""), None);
    assert_eq!(parse_i64("+"), None);
    assert_eq!(parse_i64("12a"), None);
    assert_eq!(parse_i64(" 5"), None);
}

#[test]
fn parse_i32_range_test() {
    assert_eq!(parse_i32("2147483647"), Some(i32::MAX));
    assert_eq!(parse_i32("-2147483648"), Some(i32::MIN));
    assert_eq!(parse_i32("2147483648"), None);
}

#[test]
fn parse_bool_exact_test() {
    assert_eq!(parse_bool("true"), Some(true));
    assert_eq!(parse_bool("false"), Some(false));
    assert_eq!(parse_bool("True"), None);
    assert_eq!(parse_bool("1"), None);
}

#[test]
fn int_rendering_test() {
    assert_eq!(u64_to_string(0), "0");
    assert_eq!(u64_to_string(90210), "90210");
    assert_eq!(i64_to_string(-5), "-5");
    assert_eq!(i64_to_string(i64::MIN), "-9223372036854775808");
}

#[test]
fn real_accepts_matches_float_parse_test() {
    let cases = [
        "1", "1.", ".5", "1.5", "-1.5", "+1.5", "1e3", "1.5E-3", "inf", "INFINITY", "nan",
        "-inf", "", ".", "e5", "1e", "1.2.3", "abc", "1.5e", "--1", "1 ",
    ];
    for case in cases {
        assert_eq!(
            real_accepts(case),
            case.parse::<f32>().is_ok(),
            "disagreement on {:?}",
            case
        );
    }
}
