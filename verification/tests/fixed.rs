use ckjm_analyzer::fixed::{floor_div, Fixed};
use ckjm_analyzer::numeral::{chars_of, non_finite_chars};

fn fx(text: &str) -> Fixed {
    Fixed::parse(text).unwrap()
}

#[test]
fn parse_reads_whole_numbers_and_fractions() {
    assert_eq!(fx("0").units, 0);
    assert_eq!(fx("5").units, 5_000_000);
    assert_eq!(fx("12.5").units, 12_500_000);
    assert_eq!(fx("0.000001").units, 1);
    assert_eq!(fx("-37.111").units, -37_111_000);
    assert_eq!(fx("+2.25").units, 2_250_000);
    assert_eq!(fx("007").units, 7_000_000);
}

#[test]
fn parse_takes_a_point_at_either_end() {
    assert_eq!(fx("5.").units, 5_000_000);
    assert_eq!(fx(".5").units, 500_000);
    assert_eq!(fx("-.25").units, -250_000);
}

#[test]
fn parse_drops_digits_beyond_the_sixth() {
    assert_eq!(fx("0.6666669").units, 666_666);
    assert_eq!(fx("12.666666666666666").units, 12_666_666);
    assert_eq!(fx("-0.0000009").units, 0);
}

#[test]
fn parse_refuses_what_is_no_decimal_numeral() {
    assert_eq!(Fixed::parse(""), None);
    assert_eq!(Fixed::parse("."), None);
    assert_eq!(Fixed::parse("-"), None);
    assert_eq!(Fixed::parse("+"), None);
    assert_eq!(Fixed::parse("+."), None);
    assert_eq!(Fixed::parse("1.2.3"), None);
    assert_eq!(Fixed::parse("12a"), None);
    assert_eq!(Fixed::parse("a12"), None);
    assert_eq!(Fixed::parse("--1"), None);
    assert_eq!(Fixed::parse("1-"), None);
    assert_eq!(Fixed::parse(" 1"), None);
    assert_eq!(Fixed::parse("1 "), None);
    assert_eq!(Fixed::parse("1_000"), None);
    assert_eq!(Fixed::parse("0x10"), None);
    assert_eq!(Fixed::parse("pkg.Class"), None);
    assert_eq!(Fixed::parse("\u{0661}"), None);
    assert_eq!(Fixed::parse("e5"), None);
    assert_eq!(Fixed::parse(".e5"), None);
    assert_eq!(Fixed::parse("1e"), None);
    assert_eq!(Fixed::parse("1e+"), None);
    assert_eq!(Fixed::parse("1e-"), None);
    assert_eq!(Fixed::parse("1e5e2"), None);
    assert_eq!(Fixed::parse("1e5.0"), None);
    assert_eq!(Fixed::parse("1e 5"), None);
    assert_eq!(Fixed::parse("1e++5"), None);
    assert_eq!(Fixed::parse("NaN"), None);
    assert_eq!(Fixed::parse("inf"), None);
    assert_eq!(Fixed::parse("-infinity"), None);
}

#[test]
fn parse_takes_an_exponent() {
    assert_eq!(fx("1e5"), fx("100000"));
    assert_eq!(fx("1E5"), fx("100000"));
    assert_eq!(fx("1.0E-4"), fx("0.0001"));
    assert_eq!(fx("1.5e+2"), fx("150"));
    assert_eq!(fx("-2.5e-1"), fx("-0.25"));
    assert_eq!(fx("12345.678e-3"), fx("12.345678"));
    assert_eq!(fx(".5e1"), fx("5"));
    assert_eq!(fx("5.e1"), fx("50"));
    assert_eq!(fx("1e0"), fx("1"));
    assert_eq!(fx("1e-0"), fx("1"));
    assert_eq!(fx("1e0006"), fx("1000000"));
    assert_eq!(fx("0.000001234e6"), fx("1.234"));
    assert_eq!(fx("123456789e-9"), fx("0.123456"));
    assert_eq!(fx("1e-6").units, 1);
    assert_eq!(fx("1e-7").units, 0);
    assert_eq!(fx("9.9e-7").units, 0);
    assert_eq!(fx("-9.9e-7").units, 0);
}

#[test]
fn parse_takes_any_exponent() {
    assert_eq!(fx("1e12").units, 1_000_000_000_000_000_000);
    assert_eq!(fx("9e12").units, 9_000_000_000_000_000_000);
    assert_eq!(fx("1e13"), Fixed::max_value());
    assert_eq!(fx("-1e13"), Fixed::min_value());
    assert_eq!(fx("1e400"), Fixed::max_value());
    assert_eq!(fx("1e99999999999999999999999999999999"), Fixed::max_value());
    assert_eq!(fx("-1e99999999999999999999999999999999"), Fixed::min_value());
    assert_eq!(fx("0e99999999999999999999999999999999"), fx("0"));
    assert_eq!(fx("0.000e99999999999999999999999999999999"), fx("0"));
    assert_eq!(fx("1e-400"), fx("0"));
    assert_eq!(fx("123456789e-99999999999999999999999999999999"), fx("0"));
    assert_eq!(fx("0.00000000000000000000000000000001e32"), fx("1"));
    assert_eq!(fx("100000000000000000000000000000000e-32"), fx("1"));
    assert_eq!(fx("100000000000000000000000000000000000000000e-32"), fx("1000000000"));
}

#[test]
fn numerals_that_are_not_finite() {
    for token in ["inf", "INF", "Inf", "+inf", "-inf", "infinity", "Infinity", "-INFINITY",
        "nan", "NaN", "NAN", "+nan", "-NaN"]
    {
        assert!(non_finite_chars(&chars_of(token)));
        assert_eq!(Fixed::parse(token), None);
    }
    for token in ["", "in", "infi", "infinit", "infinityy", "na", "nann", "n", "-", "+-inf",
        "i.nf", "1", "1e5", "\u{0130}nf", "\u{0131}nf", "inf ", " nan", "Name", "Info", "Nano"]
    {
        assert!(!non_finite_chars(&chars_of(token)));
    }
}

#[test]
fn numerals_are_what_reads_as_floating_point() {
    let tokens = [
        "0", "1", "-1", "+1", "1.", ".1", "1.5", "-1.5e3", "1e5", "1E5", "1e+5", "1e-5", "1.e5",
        ".1e5", "00012", "1e0005", "inf", "-inf", "+infinity", "NaN", "nan", "-nan", "Infinity",
        "", ".", "-", "+", "e", "e5", "1e", "1e+", "-.e1", ".e1", "1.2.3", "1..2", "--1", "+-1",
        "1-", "1+1", "1e5e5", "1e5.5", "0x1f", "1_0", "1f", "1d", "1L", " 1", "1 ", "1,5",
        "infinit", "infinityx", "nanx", "na", "in", "i", "n", "Name", "org.Cls", "Outer$1",
        "1.0E-4", "12.666666666666666", "4.9E-324", "1.7976931348623157E308", "1e999", "-1e999",
        "\u{0661}\u{0662}", "1\u{0661}", "\u{ff11}", "1e\u{ff11}", "\u{0130}nf", "na\u{0274}",
    ];
    for token in tokens {
        let not_finite = non_finite_chars(&chars_of(token));
        let numeral = Fixed::parse(token).is_some() || not_finite;
        assert_eq!(numeral, token.parse::<f64>().is_ok(), "{:?}", token);
        assert!(!(Fixed::parse(token).is_some() && not_finite), "{:?}", token);
    }
}

#[test]
fn numerals_denote_what_floating_point_reads() {
    let tokens = [
        "0", "1", "-1", "+1", "1.", ".1", "1.5", "-1.5e3", "1e5", "1e-5", "1.e5", ".1e5",
        "00012", "0.25", "0.5", "100.125", "-37.111", "3.973", "1.0E-4", "123456.789e1",
        "12.75e-1", "9007199254.5", "0.000001", "4.9E-324", "-0.0", "2e-6",
    ];
    for token in tokens {
        let exact = Fixed::parse(token).unwrap().units as f64;
        let read = token.parse::<f64>().unwrap() * 1_000_000.0;
        assert!((exact - read).abs() <= 1.0 + read.abs() * 1e-15, "{:?}", token);
    }
}

#[test]
fn parse_clamps_what_lies_beyond_the_range() {
    assert_eq!(fx("9223372036854.775807"), Fixed::max_value());
    assert_eq!(fx("9223372036854.775808"), Fixed::max_value());
    assert_eq!(fx("-9223372036854.775808"), Fixed::min_value());
    assert_eq!(fx("-9223372036854.775809"), Fixed::min_value());
    assert_eq!(fx("99999999999999999999999999999999999999999999999999"), Fixed::max_value());
    assert_eq!(fx("-99999999999999999999999999999999999999999999999999.5"), Fixed::min_value());
    assert_eq!(fx("9223372036854.775806").units, i64::MAX - 1);
}

#[test]
fn parse_chars_agrees_with_parse() {
    assert_eq!(Fixed::parse_chars(&chars_of("-1.5")), Some(Fixed::from_units(-1_500_000)));
    assert_eq!(Fixed::parse_chars(&chars_of("x")), None);
    assert_eq!(chars_of("a.b"), vec!['a', '.', 'b']);
}

#[test]
fn constructors() {
    assert_eq!(Fixed::zero().units, 0);
    assert_eq!(Fixed::from_units(42).units, 42);
    assert_eq!(Fixed::from_int(3).units, 3_000_000);
    assert_eq!(Fixed::from_int(-3).units, -3_000_000);
    assert_eq!(Fixed::from_int(i64::MAX), Fixed::max_value());
    assert_eq!(Fixed::from_int(i64::MIN), Fixed::min_value());
    assert_eq!(Fixed::max_value().units, i64::MAX);
    assert_eq!(Fixed::min_value().units, i64::MIN);
    assert_eq!(Fixed::saturating(7).units, 7);
    assert_eq!(Fixed::saturating(i128::MAX), Fixed::max_value());
    assert_eq!(Fixed::saturating(i128::MIN), Fixed::min_value());
}

#[test]
fn floor_div_rounds_toward_negative_infinity() {
    assert_eq!(floor_div(7, 2), 3);
    assert_eq!(floor_div(-7, 2), -4);
    assert_eq!(floor_div(-8, 2), -4);
    assert_eq!(floor_div(0, 5), 0);
    assert_eq!(floor_div(i128::MIN, 1), i128::MIN);
}

#[test]
fn ratio_divides_and_rounds_down() {
    assert_eq!(fx("1").ratio(fx("4")), Some(fx("0.25")));
    assert_eq!(fx("1").ratio(fx("3")), Some(fx("0.333333")));
    assert_eq!(fx("-1").ratio(fx("3")), Some(fx("-0.333334")));
    assert_eq!(fx("1").ratio(fx("-3")), Some(fx("-0.333334")));
    assert_eq!(fx("-1").ratio(fx("-3")), Some(fx("0.333333")));
    assert_eq!(fx("0").ratio(fx("7")), Some(fx("0")));
}

#[test]
fn ratio_by_zero_is_missing() {
    assert_eq!(fx("1").ratio(fx("0")), None);
    assert_eq!(fx("0").ratio(fx("0")), None);
}

#[test]
fn ratio_is_clamped() {
    assert_eq!(Fixed::max_value().ratio(Fixed::from_units(1)), Some(Fixed::max_value()));
    assert_eq!(Fixed::max_value().ratio(Fixed::from_units(-1)), Some(Fixed::min_value()));
}

#[test]
fn decimal_strings() {
    assert_eq!(fx("0").to_decimal_string(), "0");
    assert_eq!(fx("5").to_decimal_string(), "5");
    assert_eq!(fx("0.5").to_decimal_string(), "0.5");
    assert_eq!(fx("-37.111").to_decimal_string(), "-37.111");
    assert_eq!(fx("20.071").to_decimal_string(), "20.071");
    assert_eq!(fx("0.000001").to_decimal_string(), "0.000001");
    assert_eq!(fx("-0.000001").to_decimal_string(), "-0.000001");
    assert_eq!(fx("100.100100").to_decimal_string(), "100.1001");
    assert_eq!(fx("10").to_decimal_string(), "10");
    assert_eq!(Fixed::max_value().to_decimal_string(), "9223372036854.775807");
    assert_eq!(Fixed::min_value().to_decimal_string(), "-9223372036854.775808");
}

#[test]
fn decimal_strings_read_back() {
    for units in [0i64, 1, -1, 999_999, 1_000_000, -1_000_001, 123_456_789, i64::MAX, i64::MIN] {
        let x = Fixed::from_units(units);
        assert_eq!(Fixed::parse(&x.to_decimal_string()), Some(x));
    }
}
