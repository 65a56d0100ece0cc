use lexparse::{Delimiter, ParserB, SyntaxError};

#[test]
fn paren_parser_accepts_balanced_texts() {
    for text in [
        "()",
        "()()()",
        "(()())()(())",
        "(())()",
        "(())(())(())",
        "",
    ] {
        assert_eq!(ParserB::new(text).parse(), Ok(()), "on {:?}", text);
    }
}

#[test]
fn paren_parser_rejects_what_is_not_balanced() {
    let cases = [
        (
            "a",
            SyntaxError::InvalidToken { position: 0 },
            "Syntax error: Invalid token at position 0",
        ),
        (
            "(",
            SyntaxError::UnexpectedToken { expected: Delimiter::CloseParam, position: 1 },
            "Syntax error: Expected CloseParam at position 1",
        ),
        (
            ")",
            SyntaxError::TrailingInput,
            "Syntax error: Invalid input",
        ),
        (
            ")(",
            SyntaxError::TrailingInput,
            "Syntax error: Invalid input",
        ),
        (
            "())",
            SyntaxError::TrailingInput,
            "Syntax error: Invalid input",
        ),
        (
            "(()",
            SyntaxError::UnexpectedToken { expected: Delimiter::CloseParam, position: 3 },
            "Syntax error: Expected CloseParam at position 3",
        ),
        (
            "()())",
            SyntaxError::TrailingInput,
            "Syntax error: Invalid input",
        ),
    ];
    for (text, expected, message) in cases {
        let error = ParserB::new(text).parse().unwrap_err();
        assert_eq!(error, expected, "on {:?}", text);
        assert_eq!(error.message(), message.to_string(), "on {:?}", text);
    }
}

#[test]
fn paren_parser_accepts_the_empty_text() {
    assert_eq!(ParserB::new("").parse(), Ok(()));
}

#[test]
fn paren_parser_reports_a_foreign_character_where_it_stands() {
    assert_eq!(ParserB::new("(a)").parse(), Err(SyntaxError::InvalidToken { position: 1 }));
    assert_eq!(ParserB::new("()a").parse(), Err(SyntaxError::InvalidToken { position: 2 }));
    assert_eq!(ParserB::new("((x").parse(), Err(SyntaxError::InvalidToken { position: 2 }));
}

#[test]
fn paren_parser_reports_a_stray_closer_before_a_foreign_character() {
    assert_eq!(ParserB::new("())a").parse(), Err(SyntaxError::TrailingInput));
}

#[test]
fn paren_parser_continues_from_where_it_rests() {
    let mut parser = ParserB::new("())()");
    assert_eq!(parser.parse(), Err(SyntaxError::TrailingInput));
    assert_eq!(parser.parse(), Err(SyntaxError::TrailingInput));
    let mut parser = ParserB::new("()");
    assert_eq!(parser.parse(), Ok(()));
    assert_eq!(parser.parse(), Ok(()));
}

#[test]
fn paren_parser_gives_the_same_verdict_on_a_second_reading() {
    for text in ["(())()", "(", ")", "(a", ""] {
        let first = ParserB::new(text).parse();
        let second = ParserB::new(text).parse();
        assert_eq!(first, second);
        if let (Err(first), Err(second)) = (first, second) {
            assert_eq!(first.message(), second.message());
        }
    }
}

#[test]
fn paren_parser_reads_deep_nesting() {
    let mut text = String::new();
    for _ in 0..300 {
        text.push('(');
    }
    for _ in 0..300 {
        text.push(')');
    }
    assert_eq!(ParserB::new(&text).parse(), Ok(()));
    text.pop();
    assert_eq!(
        ParserB::new(&text).parse(),
        Err(SyntaxError::UnexpectedToken { expected: Delimiter::CloseParam, position: 599 })
    );
}
