use lexparse::classes::{class_of, classes_of, CharClass};
use lexparse::{Lexer, LogicalOperator, Token, Word};

fn tokens_of(input: &str) -> Vec<Token> {
    Lexer::new(input).tokenize()
}

fn identifier(text: &str) -> Token {
    Token::Word(Word::Identifier, text.to_string())
}

fn unknown(text: &str) -> Token {
    Token::Unknown(text.to_string())
}

fn operator(kind: LogicalOperator, text: &str) -> Token {
    Token::LogicalOperator(kind, text.to_string())
}

#[test]
fn test_lexer() {
    let mut lexer = Lexer::new(
        "// random  comment \n\
         hello = 12    * 5\t + 3\n\
         boolean_variable_=true | false //comment at the /* end\n\
         /* test multiline comment\n\
         commented_variable = 3 */\n\
         > >= < <= == !=\n\
         >>=<<===!=\n\
         2. 3.14 .5.",
    );
    let tokens: Vec<Token> = lexer.tokenize();

    let expected_values = vec![
        Token::Word(Word::Identifier, "hello".to_string()),
        Token::Unknown("=".to_string()),
        Token::Number(12, 0),
        Token::Unknown("*".to_string()),
        Token::Number(5, 0),
        Token::Unknown("+".to_string()),
        Token::Number(3, 0),
        Token::Word(Word::Identifier, "boolean_variable_".to_string()),
        Token::Unknown("=".to_string()),
        Token::Word(Word::True, "true".to_string()),
        Token::Unknown("|".to_string()),
        Token::Word(Word::False, "false".to_string()),
        Token::LogicalOperator(LogicalOperator::Greater, ">".to_string()),
        Token::LogicalOperator(LogicalOperator::GreaterOrEqual, ">=".to_string()),
        Token::LogicalOperator(LogicalOperator::Less, "<".to_string()),
        Token::LogicalOperator(LogicalOperator::LessOrEqual, "<=".to_string()),
        Token::LogicalOperator(LogicalOperator::Equal, "==".to_string()),
        Token::LogicalOperator(LogicalOperator::Different, "!=".to_string()),
        Token::LogicalOperator(LogicalOperator::Greater, ">".to_string()),
        Token::LogicalOperator(LogicalOperator::GreaterOrEqual, ">=".to_string()),
        Token::LogicalOperator(LogicalOperator::Less, "<".to_string()),
        Token::LogicalOperator(LogicalOperator::LessOrEqual, "<=".to_string()),
        Token::LogicalOperator(LogicalOperator::Equal, "==".to_string()),
        Token::LogicalOperator(LogicalOperator::Different, "!=".to_string()),
        Token::Number(2, 0),
        Token::Number(3, 14),
        Token::Number(0, 5),
        Token::Unknown(".".to_string()),
    ];

    assert_eq!(tokens.len(), expected_values.len());
    for (i, token) in tokens.into_iter().enumerate() {
        assert_eq!(token, expected_values[i]);
    }
}

#[test]
fn lexer_reads_an_expression() {
    assert_eq!(
        tokens_of("hello = 12 * 5 + 3"),
        vec![
            identifier("hello"),
            unknown("="),
            Token::Number(12, 0),
            unknown("*"),
            Token::Number(5, 0),
            unknown("+"),
            Token::Number(3, 0),
        ]
    );
}

#[test]
fn lexer_splits_a_number_at_its_point() {
    assert_eq!(tokens_of("3.14"), vec![Token::Number(3, 14)]);
    assert_eq!(tokens_of(".5"), vec![Token::Number(0, 5)]);
    assert_eq!(tokens_of("2."), vec![Token::Number(2, 0)]);
    assert_eq!(tokens_of("0"), vec![Token::Number(0, 0)]);
    assert_eq!(tokens_of("007"), vec![Token::Number(7, 0)]);
    assert_eq!(tokens_of("1234567890"), vec![Token::Number(1234567890, 0)]);
}

#[test]
fn lexer_ends_a_number_at_a_second_point() {
    assert_eq!(tokens_of("2.."), vec![Token::Number(2, 0), unknown(".")]);
    assert_eq!(tokens_of(".5."), vec![Token::Number(0, 5), unknown(".")]);
    assert_eq!(tokens_of("1.2.3"), vec![Token::Number(1, 2), Token::Number(0, 3)]);
    assert_eq!(tokens_of("1..2"), vec![Token::Number(1, 0), Token::Number(0, 2)]);
}

#[test]
fn lexer_reads_a_lone_point_as_unknown() {
    assert_eq!(tokens_of("."), vec![unknown(".")]);
    assert_eq!(tokens_of(". 5"), vec![unknown("."), Token::Number(5, 0)]);
    assert_eq!(tokens_of(".a"), vec![unknown("."), identifier("a")]);
    assert_eq!(tokens_of(".."), vec![unknown("."), unknown(".")]);
}

#[test]
fn lexer_drops_zeros_that_lead_a_fraction() {
    assert_eq!(tokens_of(".05"), vec![Token::Number(0, 5)]);
    assert_eq!(tokens_of("1.050"), vec![Token::Number(1, 50)]);
}

#[test]
fn lexer_keeps_a_number_within_32_bits() {
    assert_eq!(tokens_of("4294967295"), vec![Token::Number(4294967295, 0)]);
    assert_eq!(tokens_of("4294967296"), vec![Token::Number(0, 0)]);
    assert_eq!(tokens_of("4294967297.4294967298"), vec![Token::Number(1, 2)]);
    assert_eq!(tokens_of("99999999999"), vec![Token::Number(1215752191, 0)]);
}

#[test]
fn lexer_knows_the_keywords_wherever_they_stand() {
    assert_eq!(
        tokens_of("true x true false true"),
        vec![
            Token::Word(Word::True, "true".to_string()),
            identifier("x"),
            Token::Word(Word::True, "true".to_string()),
            Token::Word(Word::False, "false".to_string()),
            Token::Word(Word::True, "true".to_string()),
        ]
    );
}

#[test]
fn lexer_reads_a_word_as_far_as_it_reaches() {
    assert_eq!(tokens_of("truex"), vec![identifier("truex")]);
    assert_eq!(tokens_of("true_"), vec![identifier("true_")]);
    assert_eq!(tokens_of("True"), vec![identifier("True")]);
    assert_eq!(tokens_of("a1_b2 c"), vec![identifier("a1_b2"), identifier("c")]);
    assert_eq!(tokens_of("x x x"), vec![identifier("x"), identifier("x"), identifier("x")]);
    assert_eq!(tokens_of("a.5"), vec![identifier("a"), Token::Number(0, 5)]);
    assert_eq!(tokens_of("1a"), vec![Token::Number(1, 0), identifier("a")]);
}

#[test]
fn lexer_does_not_begin_a_word_with_an_underscore() {
    assert_eq!(tokens_of("_a"), vec![unknown("_"), identifier("a")]);
}

#[test]
fn lexer_reads_words_of_other_scripts() {
    assert_eq!(
        tokens_of("\u{e9}t\u{e9} \u{4eac}"),
        vec![identifier("\u{e9}t\u{e9}"), identifier("\u{4eac}")]
    );
    assert_eq!(tokens_of("x\u{b2}"), vec![identifier("x\u{b2}")]);
    assert_eq!(tokens_of("\u{b2}"), vec![unknown("\u{b2}")]);
    assert_eq!(tokens_of("\u{663}"), vec![unknown("\u{663}")]);
    assert_eq!(tokens_of("\u{1F600}a"), vec![unknown("\u{1F600}"), identifier("a")]);
}

#[test]
fn lexer_reads_two_characters_as_one_operator() {
    assert_eq!(tokens_of(">="), vec![operator(LogicalOperator::GreaterOrEqual, ">=")]);
    assert_eq!(tokens_of("<="), vec![operator(LogicalOperator::LessOrEqual, "<=")]);
    assert_eq!(tokens_of("=="), vec![operator(LogicalOperator::Equal, "==")]);
    assert_eq!(tokens_of("!="), vec![operator(LogicalOperator::Different, "!=")]);
}

#[test]
fn lexer_reads_an_operator_at_the_end_of_the_text() {
    assert_eq!(tokens_of("<"), vec![operator(LogicalOperator::Less, "<")]);
    assert_eq!(tokens_of(">"), vec![operator(LogicalOperator::Greater, ">")]);
    assert_eq!(tokens_of("a <"), vec![identifier("a"), operator(LogicalOperator::Less, "<")]);
    assert_eq!(tokens_of("="), vec![unknown("=")]);
    assert_eq!(tokens_of("!"), vec![unknown("!")]);
}

#[test]
fn lexer_tries_the_operators_in_order() {
    assert_eq!(
        tokens_of("<=="),
        vec![operator(LogicalOperator::LessOrEqual, "<="), unknown("=")]
    );
    assert_eq!(
        tokens_of("==="),
        vec![operator(LogicalOperator::Equal, "=="), unknown("=")]
    );
    assert_eq!(
        tokens_of("<>"),
        vec![operator(LogicalOperator::Less, "<"), operator(LogicalOperator::Greater, ">")]
    );
    assert_eq!(tokens_of("=<"), vec![unknown("="), operator(LogicalOperator::Less, "<")]);
    assert_eq!(tokens_of("!<"), vec![unknown("!"), operator(LogicalOperator::Less, "<")]);
}

#[test]
fn lexer_skips_a_line_comment() {
    assert_eq!(tokens_of("// c\n a"), tokens_of(" a"));
    assert_eq!(tokens_of("// c\n a"), vec![identifier("a")]);
    assert_eq!(tokens_of("a // b"), vec![identifier("a")]);
    assert_eq!(tokens_of("a//b\nc"), vec![identifier("a"), identifier("c")]);
    assert_eq!(tokens_of("//"), vec![]);
    assert_eq!(tokens_of("//\na"), vec![identifier("a")]);
    assert_eq!(tokens_of("///\na"), vec![identifier("a")]);
}

#[test]
fn lexer_skips_a_block_comment() {
    assert_eq!(tokens_of("a /* b */ c"), vec![identifier("a"), identifier("c")]);
    assert_eq!(tokens_of("a/* b\n c */c"), vec![identifier("a"), identifier("c")]);
    assert_eq!(tokens_of("/**/a"), vec![identifier("a")]);
    assert_eq!(tokens_of("/***/a"), vec![identifier("a")]);
    assert_eq!(tokens_of("/* // */a"), vec![identifier("a")]);
}

#[test]
fn lexer_closes_a_block_comment_at_the_first_closer() {
    assert_eq!(
        tokens_of("/* a /* b */ c */"),
        vec![identifier("c"), unknown("*"), unknown("/")]
    );
}

#[test]
fn lexer_reads_an_open_block_comment_to_the_end() {
    assert_eq!(tokens_of("a /* b"), vec![identifier("a")]);
    assert_eq!(tokens_of("a /*"), vec![identifier("a")]);
    assert_eq!(tokens_of("a /* b *"), vec![identifier("a")]);
    assert_eq!(tokens_of("/*/"), vec![]);
}

#[test]
fn lexer_reads_a_lone_slash_as_unknown() {
    assert_eq!(tokens_of("/"), vec![unknown("/")]);
    assert_eq!(tokens_of("a / b"), vec![identifier("a"), unknown("/"), identifier("b")]);
    assert_eq!(tokens_of("1/2"), vec![Token::Number(1, 0), unknown("/"), Token::Number(2, 0)]);
    assert_eq!(tokens_of("*/"), vec![unknown("*"), unknown("/")]);
}

#[test]
fn lexer_finds_nothing_in_white_space() {
    assert_eq!(tokens_of(""), vec![]);
    assert_eq!(tokens_of(" \t\n "), vec![]);
}

#[test]
fn lexer_reads_a_carriage_return_as_unknown() {
    assert_eq!(tokens_of("a\r\nb"), vec![identifier("a"), unknown("\r"), identifier("b")]);
}

#[test]
fn lexer_never_returns_the_end_marker() {
    for text in ["", "a", "a b", "1 2 //", "/* x", "<= >= .", "\u{1F600}"] {
        for token in tokens_of(text) {
            assert_ne!(token, Token::Epsilon);
        }
    }
}

fn text_of(token: &Token) -> Option<String> {
    match token {
        Token::Word(_, text) => Some(text.clone()),
        Token::LogicalOperator(_, text) => Some(text.clone()),
        Token::Unknown(text) => Some(text.clone()),
        Token::Number(_, _) => None,
        Token::Epsilon => None,
    }
}

#[test]
fn lexer_keeps_every_significant_character() {
    let input = "alpha<=beta // note\n /* skip */ _x == y!z > true";
    let mut joined = String::new();
    for token in tokens_of(input) {
        joined.push_str(&text_of(&token).unwrap());
    }
    assert_eq!(joined, "alpha<=beta_x==y!z>true".to_string());
}

#[test]
fn lexer_has_nothing_left_after_the_first_reading() {
    let mut lexer = Lexer::new("a b");
    assert_eq!(lexer.tokenize(), vec![identifier("a"), identifier("b")]);
    assert_eq!(lexer.tokenize(), vec![]);
}

#[test]
fn lexer_gives_the_same_tokens_on_a_second_reading() {
    let input = "x = 1.5 >= y // c";
    assert_eq!(tokens_of(input), tokens_of(input));
}

fn tokens_with(input: &str, classes: Vec<CharClass>) -> Vec<Token> {
    Lexer::with_classes(input.chars().collect(), classes).tokenize()
}

const PLAIN: CharClass = CharClass { alphabetic: false, alphanumeric: false };
const LETTER: CharClass = CharClass { alphabetic: true, alphanumeric: true };
const NUMERAL: CharClass = CharClass { alphabetic: false, alphanumeric: true };

#[test]
fn lexer_takes_the_class_of_a_character_from_the_table() {
    assert_eq!(tokens_with("ab", vec![PLAIN, PLAIN]), vec![unknown("a"), unknown("b")]);
    assert_eq!(tokens_with("ab", vec![LETTER, PLAIN]), vec![identifier("a"), unknown("b")]);
    assert_eq!(tokens_with("ab", vec![LETTER, NUMERAL]), vec![identifier("ab")]);
    assert_eq!(tokens_with("ab", vec![NUMERAL, LETTER]), vec![unknown("a"), identifier("b")]);
    assert_eq!(tokens_with("x-y", vec![LETTER, NUMERAL, LETTER]), vec![identifier("x-y")]);
    assert_eq!(
        tokens_with(">=", vec![PLAIN, PLAIN]),
        vec![operator(LogicalOperator::GreaterOrEqual, ">=")]
    );
}

#[test]
fn lexer_reads_a_number_before_it_asks_for_a_class() {
    assert_eq!(tokens_with("1a", vec![LETTER, LETTER]), vec![Token::Number(1, 0), identifier("a")]);
    assert_eq!(tokens_with(" a", vec![LETTER, LETTER]), vec![identifier("a")]);
}

#[test]
fn lexer_lets_a_word_reach_over_what_is_classed_as_its_character() {
    assert_eq!(tokens_with("a b", vec![LETTER, NUMERAL, LETTER]), vec![identifier("a b")]);
    assert_eq!(
        tokens_with("a//b", vec![LETTER, NUMERAL, NUMERAL, LETTER]),
        vec![identifier("a//b")]
    );
}

#[test]
fn lexer_knows_the_keywords_under_given_classes() {
    assert_eq!(
        tokens_with("true", vec![LETTER, LETTER, LETTER, LETTER]),
        vec![Token::Word(Word::True, "true".to_string())]
    );
    assert_eq!(
        tokens_with("true", vec![LETTER, PLAIN, LETTER, LETTER]),
        vec![identifier("t"), unknown("r"), identifier("ue")]
    );
}

#[test]
fn classes_of_the_standard_library() {
    assert_eq!(class_of('a'), LETTER);
    assert_eq!(class_of('Z'), LETTER);
    assert_eq!(class_of('\u{e9}'), LETTER);
    assert_eq!(class_of('\u{4eac}'), LETTER);
    assert_eq!(class_of('7'), NUMERAL);
    assert_eq!(class_of('\u{663}'), NUMERAL);
    assert_eq!(class_of('\u{be}'), NUMERAL);
    assert_eq!(class_of('_'), PLAIN);
    assert_eq!(class_of(' '), PLAIN);
    assert_eq!(class_of('\t'), PLAIN);
    assert_eq!(class_of('\n'), PLAIN);
    assert_eq!(class_of('/'), PLAIN);
    assert_eq!(class_of('\u{1F49D}'), PLAIN);
    assert_eq!(classes_of(&vec!['x', '1', '+']), vec![LETTER, NUMERAL, PLAIN]);
    assert_eq!(classes_of(&vec![]), vec![]);
}
