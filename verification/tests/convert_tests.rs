use macro_input::convert::{parse_i64, ConvError, Target};
use macro_input::text::trim;

#[test]
fn parse_simple_value() {
    assert_eq!(parse_i64("7"), Ok(7));
}

#[test]
fn parse_with_plus_sign() {
    assert_eq!(parse_i64("+42"), Ok(42));
}

#[test]
fn parse_negative() {
    assert_eq!(parse_i64("-150"), Ok(-150));
}

#[test]
fn parse_leading_zeros() {
    assert_eq!(parse_i64("007"), Ok(7));
}

#[test]
fn parse_extremes() {
    assert_eq!(parse_i64("9223372036854775807"), Ok(i64::MAX));
    assert_eq!(parse_i64("-9223372036854775808"), Ok(i64::MIN));
}

#[test]
fn parse_empty_is_rejected() {
    assert_eq!(parse_i64(""), Err(ConvError::Empty));
}

#[test]
fn parse_letters_are_rejected() {
    assert_eq!(parse_i64("abc"), Err(ConvError::InvalidDigit));
}

#[test]
fn parse_decimal_point_is_rejected() {
    assert_eq!(parse_i64("12.5"), Err(ConvError::InvalidDigit));
}

#[test]
fn parse_lone_sign_is_rejected() {
    assert_eq!(parse_i64("+"), Err(ConvError::InvalidDigit));
    assert_eq!(parse_i64("-"), Err(ConvError::InvalidDigit));
}

#[test]
fn parse_too_large_is_rejected() {
    assert_eq!(parse_i64("9223372036854775808"), Err(ConvError::PosOverflow));
    assert_eq!(
        parse_i64("99999999999999999999999"),
        Err(ConvError::PosOverflow)
    );
}

#[test]
fn parse_too_small_is_rejected() {
    assert_eq!(parse_i64("-9223372036854775809"), Err(ConvError::NegOverflow));
}

#[test]
fn parse_stray_character_beats_overflow() {
    assert_eq!(
        parse_i64("99999999999999999999999x"),
        Err(ConvError::InvalidDigit)
    );
}

#[test]
fn error_messages() {
    assert_eq!(
        ConvError::Empty.message(),
        "cannot parse integer from empty string"
    );
    assert_eq!(
        ConvError::InvalidDigit.message(),
        "invalid digit found in string"
    );
    assert_eq!(
        ConvError::PosOverflow.message(),
        "number too large to fit in target type"
    );
    assert_eq!(
        ConvError::NegOverflow.message(),
        "number too small to fit in target type"
    );
}

#[test]
fn trim_strips_both_ends() {
    assert_eq!(trim("  7\n"), "7");
    assert_eq!(trim("\t hello \r\n"), "hello");
}

#[test]
fn trim_keeps_inner_whitespace() {
    assert_eq!(trim(" a b \n"), "a b");
}

#[test]
fn trim_of_blank_line_is_empty() {
    assert_eq!(trim(""), "");
    assert_eq!(trim(" \t\r\n"), "");
}

#[test]
fn integer_target_parses_through_trait() {
    assert_eq!(<i64 as Target>::parse_text("35"), Ok(35));
    assert_eq!(<i64 as Target>::display_name(), "i64");
}

#[test]
fn text_target_is_identity() {
    assert_eq!(<String as Target>::parse_text("hello"), Ok("hello".to_string()));
    assert_eq!(<String as Target>::display_name(), "String");
}
