use loadsmith_plugins::float_text::{check_float, FloatError};
use loadsmith_plugins::number::{
    decimal_text, parse_i32, parse_i64, parse_u64, signed_decimal_text, zero_padded_text, IntError,
};
use loadsmith_plugins::text::{
    chars_of, comma_from, is_whitespace, join, null_word, same_text, skip_whitespace, slice_of,
    text_of, trim,
};

#[test]
fn whitespace_is_unicode_whitespace() {
    for u in 0..=0x10FFFFu32 {
        if let Some(c) = char::from_u32(u) {
            assert_eq!(is_whitespace(c), c.is_whitespace(), "{u:#x}");
        }
    }
}

#[test]
fn trimming_agrees_with_std() {
    for s in ["", " ", "  a b ", "\u{3000}x\u{2003}", "\t\n", "no", "x\u{200b}"] {
        assert_eq!(text_of(&trim(&chars_of(s))), s.trim());
    }
}

#[test]
fn text_pieces() {
    let v = chars_of("  ab,cd");
    assert_eq!(skip_whitespace(&v, 0), 2);
    assert_eq!(comma_from(&v, 2), 4);
    assert_eq!(comma_from(&v, 5), 7);
    assert_eq!(text_of(&slice_of(&v, 2, 4)), "ab");
    assert!(null_word(&chars_of("nULl")));
    assert!(!null_word(&chars_of("nul")));
    assert!(same_text("ab", "ab"));
    assert!(!same_text("ab", "abc"));
    assert!(!same_text("ab", "ac"));
    assert_eq!(join(&vec![], ", "), "");
    assert_eq!(join(&vec!["a".to_string()], ", "), "a");
    assert_eq!(
        join(&vec!["a".to_string(), "".to_string(), "c".to_string()], ", "),
        "a, , c"
    );
}

#[test]
fn integers_agree_with_std() {
    let cases = [
        "", "+", "-", "0", "-0", "+0", "007", "12", "-12", "+12", "--1", "1-", " 1", "1 ", "1_0",
        "2147483647", "2147483648", "-2147483648", "-2147483649", "9223372036854775807",
        "9223372036854775808", "-9223372036854775808", "-9223372036854775809",
        "18446744073709551615", "18446744073709551616", "99999999999999999999999x", "x", "١",
    ];
    for s in cases {
        let v = chars_of(s);
        match (parse_i32(&v), s.parse::<i32>()) {
            (Ok(a), Ok(b)) => assert_eq!(a, b),
            (Err(a), Err(b)) => assert_eq!(a.message(), b.to_string(), "{s}"),
            (a, b) => panic!("{s}: {a:?} {b:?}"),
        }
        match (parse_i64(&v), s.parse::<i64>()) {
            (Ok(a), Ok(b)) => assert_eq!(a, b),
            (Err(a), Err(b)) => assert_eq!(a.message(), b.to_string(), "{s}"),
            (a, b) => panic!("{s}: {a:?} {b:?}"),
        }
        match (parse_u64(&v), s.parse::<u64>()) {
            (Ok(a), Ok(b)) => assert_eq!(a, b),
            (Err(a), Err(b)) => assert_eq!(a.message(), b.to_string(), "{s}"),
            (a, b) => panic!("{s}: {a:?} {b:?}"),
        }
    }
}

#[test]
fn integer_errors() {
    assert_eq!(parse_i32(&chars_of("")), Err(IntError::Empty));
    assert_eq!(parse_i32(&chars_of("1x")), Err(IntError::InvalidDigit));
    assert_eq!(parse_i32(&chars_of("2147483648")), Err(IntError::PosOverflow));
    assert_eq!(parse_i32(&chars_of("-2147483649")), Err(IntError::NegOverflow));
}

#[test]
fn numbers_read_back() {
    for n in [0u64, 1, 9, 10, 99, 100, 12345, u64::MAX] {
        assert_eq!(parse_u64(&chars_of(&decimal_text(n as u128))), Ok(n));
        assert_eq!(decimal_text(n as u128), n.to_string());
        assert_eq!(zero_padded_text(n, 8), format!("{n:08}"));
    }
    for n in [0i64, -1, 7, -10, i64::MIN, i64::MAX] {
        assert_eq!(signed_decimal_text(n), n.to_string());
        assert_eq!(parse_i64(&chars_of(&signed_decimal_text(n))), Ok(n));
    }
    assert_eq!(decimal_text(u128::MAX), u128::MAX.to_string());
}

#[test]
fn floats_agree_with_std() {
    let cases = [
        "", "+", "-", ".", "0", "1.", ".5", "-.5", "+1.5e3", "1e", "1e+", "1e-3", "1E5", "e5",
        "inf", "INF", "-Infinity", "infinit", "nan", "NaN", "+nan", "-nan", "nanx", " 1", "1 ",
        "1_0", "0x10", "1.2.3", "1e400", "..", "1e5.0", "--1", "+-1", ".e1", "5.e1", "i",
    ];
    for s in cases {
        match (check_float(s), s.parse::<f64>()) {
            (Ok(()), Ok(_)) => {}
            (Err(a), Err(b)) => assert_eq!(a.message(), b.to_string(), "{s}"),
            (a, b) => panic!("{s}: {a:?} {b:?}"),
        }
        assert_eq!(check_float(s).is_ok(), s.parse::<f32>().is_ok(), "{s}");
    }
    assert_eq!(check_float(""), Err(FloatError::Empty));
    assert_eq!(check_float("abc"), Err(FloatError::Invalid));
}
