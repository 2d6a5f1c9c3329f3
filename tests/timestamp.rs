use gascadelyzer::{parse_timestamp, parse_u32_digits, IntErrorKind, TimeStampParseError};

fn digits(s: &str) -> Vec<char> {
    s.chars().collect()
}

#[test]
fn joins_the_two_sides_of_the_dot() {
    assert_eq!(parse_timestamp("12.345 rest of line"), Ok(12345));
}

#[test]
fn line_without_space_has_no_timestamp() {
    assert_eq!(
        parse_timestamp("noSpaceHere"),
        Err(TimeStampParseError::PatternNotFound(String::from("noSpaceHere")))
    );
}

#[test]
fn word_without_dot_has_no_timestamp() {
    assert_eq!(
        parse_timestamp("12345 rest"),
        Err(TimeStampParseError::PatternNotFound(String::from("12345 rest")))
    );
}

#[test]
fn letters_after_the_dot_are_a_parse_error() {
    assert_eq!(
        parse_timestamp("12.abc rest"),
        Err(TimeStampParseError::ParseError(IntErrorKind::InvalidDigit))
    );
}

#[test]
fn sides_are_joined_not_scaled() {
    assert_eq!(parse_timestamp("1.5 x"), Ok(15));
    assert_eq!(parse_timestamp("1.50 x"), Ok(150));
    assert_eq!(parse_timestamp("0.100 x"), Ok(100));
}

#[test]
fn only_the_first_space_and_dot_count() {
    assert_eq!(parse_timestamp("3.2 4.5 6"), Ok(32));
    assert_eq!(
        parse_timestamp("1.2.3 x"),
        Err(TimeStampParseError::ParseError(IntErrorKind::InvalidDigit))
    );
    assert_eq!(
        parse_timestamp("x 1.5"),
        Err(TimeStampParseError::PatternNotFound(String::from("x 1.5")))
    );
}

#[test]
fn empty_digits_are_an_empty_error() {
    assert_eq!(
        parse_timestamp(". x"),
        Err(TimeStampParseError::ParseError(IntErrorKind::Empty))
    );
}

#[test]
fn too_large_is_an_overflow() {
    assert_eq!(parse_timestamp("4294967.295 x"), Ok(4294967295));
    assert_eq!(
        parse_timestamp("4294967.296 x"),
        Err(TimeStampParseError::ParseError(IntErrorKind::PosOverflow))
    );
    assert_eq!(
        parse_timestamp("99999999999.x x"),
        Err(TimeStampParseError::ParseError(IntErrorKind::PosOverflow))
    );
}

#[test]
fn digit_reading_matches_std() {
    for s in ["", "+", "-1", "+12", "0", "007", "4294967295", "4294967296", "12a", "1+2", "99999999999a"] {
        let ours = parse_u32_digits(&digits(s));
        let std_kind = s.parse::<u32>().map_err(|e| match e.kind() {
            std::num::IntErrorKind::Empty => IntErrorKind::Empty,
            std::num::IntErrorKind::InvalidDigit => IntErrorKind::InvalidDigit,
            std::num::IntErrorKind::PosOverflow => IntErrorKind::PosOverflow,
            _ => unreachable!(),
        });
        assert_eq!(ours, std_kind, "input {:?}", s);
    }
}
