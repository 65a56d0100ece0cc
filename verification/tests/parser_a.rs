use lexparse::{ParserA, SyntaxError};

#[test]
fn prefix_parser_accepts_expressions() {
    for text in [
        "a",
        "+aa",
        "++++aaaaa",
        "+-aaa",
        "+++--+-+-+-+-+++-a-aaaaaaaaaaaaaaaaaa",
        "-aa",
    ] {
        assert_eq!(ParserA::new(text).parse(), Ok(()), "on {:?}", text);
    }
}

#[test]
fn prefix_parser_rejects_what_is_no_expression() {
    let cases = [
        (
            "++aa",
            SyntaxError::PrematureEnd,
            "Syntax error: Invalid input",
        ),
        (
            "+a",
            SyntaxError::PrematureEnd,
            "Syntax error: Invalid input",
        ),
        (
            "+ab",
            SyntaxError::InvalidToken { position: 2 },
            "Syntax error: Invalid token at position 2",
        ),
        (
            "+ba",
            SyntaxError::InvalidToken { position: 1 },
            "Syntax error: Invalid token at position 1",
        ),
        (
            "--aa",
            SyntaxError::PrematureEnd,
            "Syntax error: Invalid input",
        ),
        (
            "-a",
            SyntaxError::PrematureEnd,
            "Syntax error: Invalid input",
        ),
        (
            "-ab",
            SyntaxError::InvalidToken { position: 2 },
            "Syntax error: Invalid token at position 2",
        ),
        (
            "-ba",
            SyntaxError::InvalidToken { position: 1 },
            "Syntax error: Invalid token at position 1",
        ),
        (
            "aa",
            SyntaxError::TrailingInput,
            "Syntax error: Invalid input",
        ),
        (
            "b",
            SyntaxError::InvalidToken { position: 0 },
            "Syntax error: Invalid token at position 0",
        ),
    ];
    for (text, expected, message) in cases {
        let error = ParserA::new(text).parse().unwrap_err();
        assert_eq!(error, expected, "on {:?}", text);
        assert_eq!(error.message(), message.to_string(), "on {:?}", text);
    }
}

#[test]
fn prefix_parser_rejects_the_empty_text() {
    assert_eq!(ParserA::new("").parse(), Err(SyntaxError::PrematureEnd));
}

#[test]
fn prefix_parser_reports_left_over_text_before_a_foreign_character() {
    assert_eq!(ParserA::new("a?").parse(), Err(SyntaxError::TrailingInput));
    assert_eq!(ParserA::new("+aa+").parse(), Err(SyntaxError::TrailingInput));
}

#[test]
fn prefix_parser_reports_the_first_foreign_character() {
    assert_eq!(ParserA::new("+?a!").parse(), Err(SyntaxError::InvalidToken { position: 1 }));
    assert_eq!(ParserA::new("++a a").parse(), Err(SyntaxError::InvalidToken { position: 3 }));
}

#[test]
fn prefix_parser_counts_characters_not_bytes() {
    assert_eq!(ParserA::new("+a\u{e9}").parse(), Err(SyntaxError::InvalidToken { position: 2 }));
    assert_eq!(
        ParserA::new("+\u{1F600}\u{e9}").parse(),
        Err(SyntaxError::InvalidToken { position: 1 })
    );
}

#[test]
fn prefix_parser_continues_from_where_it_rests() {
    let mut parser = ParserA::new("a");
    assert_eq!(parser.parse(), Ok(()));
    assert_eq!(parser.parse(), Err(SyntaxError::PrematureEnd));
    let mut parser = ParserA::new("a+aa");
    assert_eq!(parser.parse(), Err(SyntaxError::TrailingInput));
    assert_eq!(parser.parse(), Ok(()));
}

#[test]
fn prefix_parser_gives_the_same_verdict_on_a_second_reading() {
    for text in ["+aa", "+a", "aa", "+ab", ""] {
        let first = ParserA::new(text).parse();
        let second = ParserA::new(text).parse();
        assert_eq!(first, second);
        if let (Err(first), Err(second)) = (first, second) {
            assert_eq!(first.message(), second.message());
        }
    }
}

#[test]
fn prefix_parser_reads_a_deep_expression() {
    let mut text = String::new();
    for _ in 0..500 {
        text.push('+');
    }
    for _ in 0..501 {
        text.push('a');
    }
    assert_eq!(ParserA::new(&text).parse(), Ok(()));
    text.pop();
    assert_eq!(ParserA::new(&text).parse(), Err(SyntaxError::PrematureEnd));
}
