use lexparse::text::{chars_of, push_decimal, string_of_char};
use lexparse::{Delimiter, SyntaxError};

#[test]
fn message_of_an_invalid_token() {
    assert_eq!(
        SyntaxError::InvalidToken { position: 0 }.message(),
        "Syntax error: Invalid token at position 0".to_string()
    );
    assert_eq!(
        SyntaxError::InvalidToken { position: 1234567890 }.message(),
        "Syntax error: Invalid token at position 1234567890".to_string()
    );
}

#[test]
fn message_of_an_unexpected_token() {
    assert_eq!(
        SyntaxError::UnexpectedToken { expected: Delimiter::CloseParam, position: 10 }.message(),
        "Syntax error: Expected CloseParam at position 10".to_string()
    );
    assert_eq!(
        SyntaxError::UnexpectedToken { expected: Delimiter::One, position: 7 }.message(),
        "Syntax error: Expected One at position 7".to_string()
    );
}

#[test]
fn message_of_a_premature_end() {
    assert_eq!(SyntaxError::PrematureEnd.message(), "Syntax error: Invalid input".to_string());
}

#[test]
fn message_of_trailing_input() {
    assert_eq!(SyntaxError::TrailingInput.message(), "Syntax error: Invalid input".to_string());
}

#[test]
fn decimal_numerals() {
    for n in [0usize, 1, 9, 10, 11, 99, 100, 101, 65535, 1000000, usize::MAX] {
        let mut text = "n=".to_string();
        push_decimal(&mut text, n);
        assert_eq!(text, format!("n={}", n));
    }
}

#[test]
fn characters_of_a_string() {
    assert_eq!(chars_of(""), Vec::<char>::new());
    assert_eq!(chars_of("a\u{e9}\u{1F600}z"), vec!['a', '\u{e9}', '\u{1F600}', 'z']);
}

#[test]
fn string_of_one_character() {
    assert_eq!(string_of_char('x'), "x".to_string());
    assert_eq!(string_of_char('\u{1F600}'), "\u{1F600}".to_string());
}
