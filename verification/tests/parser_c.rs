use lexparse::{Delimiter, ParserC, SyntaxError};

#[test]
fn nest_parser_accepts_zeros_closed_by_ones() {
    for text in [
        "01",
        "0011",
        "00000000001111111111",
        "",
    ] {
        assert_eq!(ParserC::new(text).parse(), Ok(()), "on {:?}", text);
    }
}

#[test]
fn nest_parser_rejects_what_is_not_nested() {
    let cases = [
        (
            "0",
            SyntaxError::UnexpectedToken { expected: Delimiter::One, position: 1 },
            "Syntax error: Expected One at position 1",
        ),
        (
            "1",
            SyntaxError::TrailingInput,
            "Syntax error: Invalid input",
        ),
        (
            "10",
            SyntaxError::TrailingInput,
            "Syntax error: Invalid input",
        ),
        (
            "010",
            SyntaxError::TrailingInput,
            "Syntax error: Invalid input",
        ),
        (
            "001",
            SyntaxError::UnexpectedToken { expected: Delimiter::One, position: 3 },
            "Syntax error: Expected One at position 3",
        ),
        (
            "00110",
            SyntaxError::TrailingInput,
            "Syntax error: Invalid input",
        ),
        (
            "a",
            SyntaxError::InvalidToken { position: 0 },
            "Syntax error: Invalid token at position 0",
        ),
    ];
    for (text, expected, message) in cases {
        let error = ParserC::new(text).parse().unwrap_err();
        assert_eq!(error, expected, "on {:?}", text);
        assert_eq!(error.message(), message.to_string(), "on {:?}", text);
    }
}

#[test]
fn nest_parser_accepts_the_empty_text() {
    assert_eq!(ParserC::new("").parse(), Ok(()));
}

#[test]
fn nest_parser_steps_over_a_zero_that_stands_for_a_one() {
    assert_eq!(
        ParserC::new("0010").parse(),
        Err(SyntaxError::UnexpectedToken { expected: Delimiter::One, position: 4 })
    );
}

#[test]
fn nest_parser_leaves_a_foreign_character_that_stands_for_a_one() {
    assert_eq!(
        ParserC::new("001a").parse(),
        Err(SyntaxError::UnexpectedToken { expected: Delimiter::One, position: 3 })
    );
}

#[test]
fn nest_parser_reports_a_foreign_character_behind_the_zeros() {
    assert_eq!(ParserC::new("0a").parse(), Err(SyntaxError::InvalidToken { position: 1 }));
    assert_eq!(ParserC::new("00x11").parse(), Err(SyntaxError::InvalidToken { position: 2 }));
}

#[test]
fn nest_parser_reports_left_over_text_behind_the_ones() {
    assert_eq!(ParserC::new("01a").parse(), Err(SyntaxError::TrailingInput));
    assert_eq!(ParserC::new("0111").parse(), Err(SyntaxError::TrailingInput));
}

#[test]
fn nest_parser_continues_from_where_it_rests() {
    let mut parser = ParserC::new("0101");
    assert_eq!(parser.parse(), Err(SyntaxError::TrailingInput));
    assert_eq!(parser.parse(), Ok(()));
}

#[test]
fn nest_parser_gives_the_same_verdict_on_a_second_reading() {
    for text in ["0011", "0", "1", "0a", "0010", ""] {
        let first = ParserC::new(text).parse();
        let second = ParserC::new(text).parse();
        assert_eq!(first, second);
        if let (Err(first), Err(second)) = (first, second) {
            assert_eq!(first.message(), second.message());
        }
    }
}
