use monkey::text::{
    can_use_as_ident, char_is_ascii_punctuation, char_is_control, char_is_digit,
    char_is_whitespace, parse_integer, push_decimal, push_int, push_text, text_of, to_chars,
    IntegerError,
};

#[test]
fn character_classes_agree_with_the_standard_library() {
    for code in 0..=0x10FFFFu32 {
        if let Some(c) = char::from_u32(code) {
            assert_eq!(char_is_digit(c), c.is_ascii_digit(), "digit {:x}", code);
            assert_eq!(char_is_whitespace(c), c.is_whitespace(), "white space {:x}", code);
            assert_eq!(char_is_control(c), c.is_control(), "control {:x}", code);
            assert_eq!(
                char_is_ascii_punctuation(c),
                c.is_ascii_punctuation(),
                "punctuation {:x}",
                code
            );
            assert_eq!(
                can_use_as_ident(c),
                !(c.is_ascii_digit()
                    || c.is_whitespace()
                    || c.is_control()
                    || c.is_ascii_punctuation()),
                "identifier {:x}",
                code
            );
        }
    }
}

#[test]
fn identifier_characters() {
    assert!(can_use_as_ident('a'));
    assert!(can_use_as_ident('Z'));
    assert!(can_use_as_ident('漢'));
    assert!(can_use_as_ident('😄'));
    assert!(can_use_as_ident('＋'));
    assert!(can_use_as_ident('²'));
    assert!(!can_use_as_ident('_'));
    assert!(!can_use_as_ident('0'));
    assert!(!can_use_as_ident(' '));
    assert!(!can_use_as_ident('\u{3000}'));
    assert!(!can_use_as_ident('\u{1B}'));
    assert!(!can_use_as_ident('+'));
}

#[test]
fn integers_are_read() {
    assert_eq!(parse_integer("0"), Ok(0));
    assert_eq!(parse_integer("5"), Ok(5));
    assert_eq!(parse_integer("007"), Ok(7));
    assert_eq!(parse_integer("838383"), Ok(838383));
    assert_eq!(parse_integer("9223372036854775807"), Ok(i64::MAX));
}

#[test]
fn integers_out_of_range_are_refused() {
    assert_eq!(parse_integer("9223372036854775808"), Err(IntegerError::Overflow));
    assert_eq!(parse_integer("99999999999999999999999"), Err(IntegerError::Overflow));
}

#[test]
fn texts_that_are_no_integers_are_refused() {
    assert_eq!(parse_integer(""), Err(IntegerError::Empty));
    assert_eq!(parse_integer("12a"), Err(IntegerError::InvalidDigit));
    assert_eq!(parse_integer("-5"), Err(IntegerError::InvalidDigit));
    assert_eq!(parse_integer("+5"), Err(IntegerError::InvalidDigit));
    assert_eq!(parse_integer("٣"), Err(IntegerError::InvalidDigit));
    assert_eq!(parse_integer("99999999999999999999999x"), Err(IntegerError::InvalidDigit));
}

#[test]
fn reading_agrees_with_the_standard_library_on_digit_strings() {
    let samples = [
        "1",
        "10",
        "0000",
        "123456789",
        "9223372036854775806",
        "9223372036854775807",
        "9223372036854775808",
        "18446744073709551616",
    ];
    for s in samples {
        assert_eq!(parse_integer(s).ok(), s.parse::<i64>().ok(), "{}", s);
    }
}

#[test]
fn integers_are_written() {
    for i in [0i64, 1, 9, 10, 11, 99, 100, 838383, -1, -10, -838383, i64::MAX, i64::MIN, i64::MIN + 1] {
        let mut out = String::from("x");
        push_int(&mut out, i);
        assert_eq!(out, format!("x{}", i));
    }
}

#[test]
fn unsigned_numbers_are_written() {
    for n in [0u64, 7, 10, 12345, u64::MAX] {
        let mut out = String::new();
        push_decimal(&mut out, n);
        assert_eq!(out, format!("{}", n));
    }
}

#[test]
fn written_integers_are_read_back() {
    for i in [0i64, 5, 42, 1000, i64::MAX] {
        let mut out = String::new();
        push_int(&mut out, i);
        assert_eq!(parse_integer(&out), Ok(i));
    }
}

#[test]
fn texts_are_appended() {
    let mut out = String::from("ab");
    push_text(&mut out, "cd");
    push_text(&mut out, "");
    assert_eq!(out, "abcd");
}

#[test]
fn characters_of_a_text() {
    assert_eq!(to_chars(""), Vec::<char>::new());
    assert_eq!(to_chars("aé漢😄"), vec!['a', 'é', '漢', '😄']);
}

#[test]
fn part_of_a_text() {
    let chars = to_chars("let 漢字 = 5;");
    assert_eq!(text_of(&chars, 4, 6), "漢字");
    assert_eq!(text_of(&chars, 0, 3), "let");
    assert_eq!(text_of(&chars, 3, 3), "");
    assert_eq!(text_of(&chars, 0, chars.len()), "let 漢字 = 5;");
}
