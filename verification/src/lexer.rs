//! A scanner that splits a text into tokens. It takes every token as far as
//! it reaches, reads an operator of two characters before one of one, and
//! passes over white space and comments.

use vstd::prelude::*;
use vstd::hash_map::StringHashMap;
use vstd::string::StringExecFns;
use crate::classes::{classes_of, unicode_classes, CharClass};
use crate::lexis::{
    block_comment_closer, block_comment_end, block_comment_opener, decimal_value, digit_value,
    false_text, has_at, is_digit, is_space, is_word_char, lemma_block_comment_end_bounds,
    lemma_decimal_value_push, lemma_digits_end_is, lemma_line_comment_end_bounds,
    lemma_token_end_bounds, lemma_trivia_end_bounds, lemma_word_end_is, line_comment_end,
    line_comment_opener, number_end, number_token, operator_at, operator_text, operator_token, starts_number,
    stored, token_at, token_end, tokens_from, trivia_end, true_text, word_end, word_of,
    word_token,
};
use crate::text::{chars_of, string_of_char};
use crate::token::{views, LogicalOperator, Token, TokenView, Word};

verus! {

/// Every entry of the table is the word token of its key, and both keywords
/// are entered.
spec fn is_word_table(words: Map<Seq<char>, Token>) -> bool {
    &&& words.contains_key(true_text())
    &&& words.contains_key(false_text())
    &&& forall|text: Seq<char>| #[trigger]
        words.contains_key(text) ==> words[text]@ == word_of(text)
}

/// The words that are known once `token` has been read, where `known` were
/// known before.
pub open spec fn with_word(known: Set<Seq<char>>, token: TokenView) -> Set<Seq<char>> {
    match token {
        TokenView::Word(_, text) => known.insert(text),
        _ => known,
    }
}

/// The texts of the words among `tokens`.
pub open spec fn words_among(tokens: Seq<TokenView>) -> Set<Seq<char>> {
    Set::new(|text: Seq<char>| tokens.contains(word_of(text)))
}

/// One more token adds its text to the words among the tokens if it is a
/// word, and nothing else.
proof fn lemma_words_among_push(tokens: Seq<TokenView>, token: TokenView)
    requires
        token is Word ==> token == word_of(token->Word_1),
    ensures
        words_among(tokens.push(token)) == with_word(words_among(tokens), token),
{
    let longer = tokens.push(token);
    assert forall|text: Seq<char>|
        words_among(longer).contains(text) <==> with_word(words_among(tokens), token).contains(
            text,
        ) by {
        if tokens.contains(word_of(text)) {
            let k = choose|k: int| 0 <= k < tokens.len() && tokens[k] == word_of(text);
            assert(longer[k] == word_of(text));
        }
        if longer.contains(word_of(text)) {
            let k = choose|k: int| 0 <= k < longer.len() && longer[k] == word_of(text);
            if k < tokens.len() {
                assert(tokens[k] == word_of(text));
            }
        }
        if token == word_of(text) {
            assert(longer[tokens.len() as int] == word_of(text));
        }
    }
    assert(words_among(longer) =~= with_word(words_among(tokens), token));
}

/// The two keywords.
pub open spec fn keywords() -> Set<Seq<char>> {
    set![true_text(), false_text()]
}

/// The token that a scan from `i` returns: the first token at or after `i`,
/// or the mark of the end of the text where none is left.
spec fn scanned(s: Seq<char>, classes: Seq<CharClass>, i: int) -> TokenView {
    if trivia_end(s, i) < s.len() {
        token_at(s, classes, trivia_end(s, i))
    } else {
        TokenView::Epsilon
    }
}

/// Where a scan from `i` leaves the cursor: behind the token that it returns.
spec fn scanned_end(s: Seq<char>, classes: Seq<CharClass>, i: int) -> int {
    if trivia_end(s, i) < s.len() {
        token_end(s, classes, trivia_end(s, i))
    } else {
        s.len() as int
    }
}

/// What is known of a number while its characters are read: from `start` to
/// the cursor stand digits with at most one point among them, and the two
/// values are those of the digits before and behind the point.
spec fn number_read(
    s: Seq<char>,
    start: int,
    cursor: int,
    is_float: bool,
    point: int,
    integer: u32,
    decimal: u32,
) -> bool {
    if is_float {
        &&& start <= point < cursor <= s.len()
        &&& s[point] == '.'
        &&& forall|k: int| start <= k < point ==> is_digit(s[k])
        &&& forall|k: int| point < k < cursor ==> is_digit(s[k])
        &&& integer == stored(decimal_value(s.subrange(start, point)))
        &&& decimal == stored(decimal_value(s.subrange(point + 1, cursor)))
    } else {
        &&& start <= cursor <= s.len()
        &&& forall|k: int| start <= k < cursor ==> is_digit(s[k])
        &&& integer == stored(decimal_value(s.subrange(start, cursor)))
        &&& decimal == 0
    }
}

/// Ten times a stored value plus a digit, computed in 32 bits, is the stored
/// form of ten times the value plus the digit.
proof fn lemma_stored_step(value: nat, digit: u32)
    requires
        digit < 10,
    ensures
        stored(value).wrapping_mul(10).wrapping_add(digit) == stored(value * 10 + digit as nat),
{
}

/// The literals of the scanner, character by character.
proof fn lemma_literals()
    ensures
        "//"@ == line_comment_opener(),
        "/*"@ == block_comment_opener(),
        "*/"@ == block_comment_closer(),
        "<="@ == operator_text(LogicalOperator::LessOrEqual),
        "=="@ == operator_text(LogicalOperator::Equal),
        "!="@ == operator_text(LogicalOperator::Different),
        ">="@ == operator_text(LogicalOperator::GreaterOrEqual),
        "<"@ == operator_text(LogicalOperator::Less),
        ">"@ == operator_text(LogicalOperator::Greater),
        "true"@ == true_text(),
        "false"@ == false_text(),
{
    reveal_strlit("//");
    reveal_strlit("/*");
    reveal_strlit("*/");
    reveal_strlit("<=");
    reveal_strlit("==");
    reveal_strlit("!=");
    reveal_strlit(">=");
    reveal_strlit("<");
    reveal_strlit(">");
    reveal_strlit("true");
    reveal_strlit("false");
    assert("//"@ =~= line_comment_opener());
    assert("/*"@ =~= block_comment_opener());
    assert("*/"@ =~= block_comment_closer());
    assert("<="@ =~= operator_text(LogicalOperator::LessOrEqual));
    assert("=="@ =~= operator_text(LogicalOperator::Equal));
    assert("!="@ =~= operator_text(LogicalOperator::Different));
    assert(">="@ =~= operator_text(LogicalOperator::GreaterOrEqual));
    assert("<"@ =~= operator_text(LogicalOperator::Less));
    assert(">"@ =~= operator_text(LogicalOperator::Greater));
    assert("true"@ =~= true_text());
    assert("false"@ =~= false_text());
}

/// Whether `c` is one of the ten decimal digits.
fn is_decimal_digit(c: char) -> (yes: bool)
    ensures
        yes == is_digit(c),
{
    '0' <= c && c <= '9'
}

/// The value of the decimal digit `c`.
fn digit_of(c: char) -> (value: u32)
    requires
        is_digit(c),
    ensures
        value == digit_value(c),
        value < 10,
{
    c as u32 - '0' as u32
}

/// A scanner over one text, with the position up to which it has read and
/// the table of the words it has met.
pub struct Lexer {
    input: Vec<char>,
    classes: Vec<CharClass>,
    peek_index: usize,
    words: StringHashMap<Token>,
}

impl Lexer {
    /// Every character has its class, the cursor lies within the text, and
    /// the table holds the keywords and, for every word met so far, its
    /// token.
    pub closed spec fn wf(&self) -> bool {
        &&& self.classes.len() == self.input.len()
        &&& self.peek_index <= self.input.len()
        &&& is_word_table(self.words@)
    }

    /// The text that the scanner reads.
    pub closed spec fn text(&self) -> Seq<char> {
        self.input@
    }

    /// The classes of the characters of the text, position by position.
    pub closed spec fn classes(&self) -> Seq<CharClass> {
        self.classes@
    }

    /// The number of characters read so far.
    pub closed spec fn cursor(&self) -> int {
        self.peek_index as int
    }

    /// The words that the table holds: the keywords and every word met so
    /// far.
    pub closed spec fn known_words(&self) -> Set<Seq<char>> {
        self.words@.dom()
    }

    /// Nothing but the cursor differs between `self` and `before`.
    spec fn differs_in_cursor_only(self, before: Self) -> bool {
        &&& self.input@ == before.input@
        &&& self.classes@ == before.classes@
        &&& self.words@ == before.words@
    }

    /// A scanner at the start of `input`, with the classes that the standard
    /// library gives its characters.
    pub fn new(input: &str) -> (lexer: Self)
        ensures
            lexer.wf(),
            lexer.text() == input@,
            lexer.classes() == unicode_classes(input@),
            lexer.cursor() == 0,
            lexer.known_words() == keywords(),
    {
        let chars = chars_of(input);
        let classes = classes_of(&chars);
        Lexer::with_classes(chars, classes)
    }

    /// A scanner at the start of `input`, which takes the class of each
    /// character from `classes`. Its table holds the keywords.
    #[verifier::loop_isolation(false)]
    pub fn with_classes(input: Vec<char>, classes: Vec<CharClass>) -> (lexer: Self)
        requires
            classes.len() == input.len(),
        ensures
            lexer.wf(),
            lexer.text() == input@,
            lexer.classes() == classes@,
            lexer.cursor() == 0,
            lexer.known_words() == keywords(),
    {
        let mut words: StringHashMap<Token> = StringHashMap::new();
        let reserved = Lexer::get_reserved_keywords();
        let mut i: usize = 0;
        while i < reserved.len()
            invariant
                i <= reserved.len(),
                i == 0 ==> words@.dom() =~= Set::empty(),
                i == 1 ==> words@.dom() =~= set![true_text()],
                i == 2 ==> words@.dom() =~= keywords(),
                forall|text: Seq<char>| #[trigger]
                    words@.contains_key(text) ==> words@[text]@ == word_of(text),
            decreases reserved.len() - i,
        {
            let reserved_kw = reserved[i].clone();
            match &reserved_kw {
                Token::Word(_, lexeme) => {
                    words.insert(lexeme.clone(), reserved_kw);
                },
                _ => (),
            }
            i += 1;
        }
        Lexer { input, classes, peek_index: 0, words }
    }

    /// The words that are no identifiers.
    fn get_reserved_keywords() -> (reserved: Vec<Token>)
        ensures
            reserved.len() == 2,
            reserved[0]@ == word_of(true_text()),
            reserved[1]@ == word_of(false_text()),
    {
        proof {
            lemma_literals();
        }
        let mut reserved: Vec<Token> = Vec::new();
        reserved.push(Token::Word(Word::True, String::from_str("true")));
        reserved.push(Token::Word(Word::False, String::from_str("false")));
        reserved
    }

    /// Reads the text from the cursor to its end and returns its tokens in
    /// order. No text is refused: a character that begins no other token is a
    /// token by itself, and a comment that is not closed ends with the text.
    /// The mark of the end of the text is none of the tokens. Afterwards the
    /// table knows every word among them.
    pub fn tokenize(&mut self) -> (tokens: Vec<Token>)
        requires
            old(self).wf(),
        ensures
            final(self).wf(),
            final(self).text() == old(self).text(),
            final(self).classes() == old(self).classes(),
            final(self).cursor() == old(self).text().len(),
            views(tokens@) == tokens_from(
                old(self).text(),
                old(self).classes(),
                old(self).cursor(),
            ),
            forall|k: int| 0 <= k < tokens.len() ==> tokens[k] != Token::Epsilon,
            final(self).known_words() == old(self).known_words().union(
                words_among(views(tokens@)),
            ),
    {
        let ghost s = self.input@;
        let ghost classes = self.classes@;
        let ghost known = self.words@.dom();
        let ghost start = self.peek_index as int;
        proof {
            lemma_trivia_end_bounds(s, start);
            if trivia_end(s, start) < s.len() {
                lemma_token_end_bounds(s, classes, trivia_end(s, start));
            }
        }
        let mut tokens: Vec<Token> = Vec::new();
        let mut next_token = self.scan();
        proof {
            assert(views(tokens@) =~= Seq::<TokenView>::empty());
            lemma_words_among_push(views(tokens@), next_token@);
            assert(known.union(words_among(views(tokens@))) =~= known);
        }
        loop
            invariant
                self.wf(),
                self.input@ == s,
                self.classes@ == classes,
                self.peek_index <= s.len(),
                next_token == Token::Epsilon ==> self.peek_index == s.len(),
                next_token@ is Word ==> next_token@ == word_of(next_token@->Word_1),
                tokens_from(s, classes, start) == views(tokens@) + (if next_token
                    == Token::Epsilon {
                    Seq::<TokenView>::empty()
                } else {
                    seq![next_token@] + tokens_from(s, classes, self.peek_index as int)
                }),
                forall|k: int| 0 <= k < tokens.len() ==> tokens[k] != Token::Epsilon,
                self.words@.dom() == with_word(
                    known.union(words_among(views(tokens@))),
                    next_token@,
                ),
            ensures
                self.peek_index == s.len(),
                tokens_from(s, classes, start) == views(tokens@),
                self.words@.dom() == known.union(words_among(views(tokens@))),
            decreases s.len() - self.peek_index + (if next_token == Token::Epsilon {
                0int
            } else {
                1int
            }),
        {
            if let Token::Epsilon = next_token {
                assert(views(tokens@) + Seq::<TokenView>::empty() =~= views(tokens@));
                break;
            }
            let ghost before = tokens@;
            let ghost taken = next_token@;
            let ghost cursor = self.peek_index as int;
            tokens.push(next_token);
            proof {
                assert(views(tokens@) =~= views(before).push(taken));
                assert(views(before) + (seq![taken] + tokens_from(s, classes, cursor)) =~= views(
                    tokens@,
                ) + tokens_from(s, classes, cursor));
                lemma_words_among_push(views(before), taken);
                assert(with_word(known.union(words_among(views(before))), taken) =~= known.union(
                    words_among(views(tokens@)),
                ));
                lemma_trivia_end_bounds(s, cursor);
                if trivia_end(s, cursor) < s.len() {
                    lemma_token_end_bounds(s, classes, trivia_end(s, cursor));
                }
            }
            next_token = self.scan();
        }
        tokens
    }

    /// Passes over white space and comments and reads the token that
    /// follows; `Epsilon` where the text ends first.
    #[verifier::loop_isolation(false)]
    fn scan(&mut self) -> (token: Token)
        requires
            old(self).wf(),
        ensures
            final(self).wf(),
            final(self).input@ == old(self).input@,
            final(self).classes@ == old(self).classes@,
            final(self).words@.dom() == with_word(old(self).words@.dom(), token@),
            token@ == scanned(old(self).input@, old(self).classes@, old(self).peek_index as int),
            token == Token::Epsilon <==> trivia_end(old(self).input@, old(self).peek_index as int)
                >= old(self).input.len(),
            final(self).peek_index == scanned_end(
                old(self).input@,
                old(self).classes@,
                old(self).peek_index as int,
            ),
    {
        let ghost s = self.input@;
        let ghost classes = self.classes@;
        let ghost known = self.words@;
        let ghost origin = self.peek_index as int;
        proof {
            lemma_literals();
        }
        while self.peek_index < self.input.len()
            invariant
                self.wf(),
                self.input@ == s,
                self.classes@ == classes,
                self.words@ == known,
                self.peek_index <= s.len(),
                trivia_end(s, self.peek_index as int) == trivia_end(s, origin),
            decreases s.len() - self.peek_index,
        {
            let peek = self.input[self.peek_index];

            if self.is_whitespace() {
                self.move_peek();
                continue;
            }
            if self.is_single_line_comment() {
                proof {
                    lemma_line_comment_end_bounds(s, self.peek_index as int);
                }
                self.handle_single_line_comment();
                continue;
            }
            if self.is_multi_line_comment() {
                proof {
                    lemma_block_comment_end_bounds(s, self.peek_index as int);
                }
                self.handle_multi_line_comment();
                continue;
            }
            assert(trivia_end(s, origin) == self.peek_index);

            if self.is_number() {
                return self.handle_number();
            }
            if self.classes[self.peek_index].alphabetic {
                return self.handle_word();
            }
            if let Some(logical_operator) = self.is_logical_operator() {
                return logical_operator;
            }
            self.move_peek();
            return Token::Unknown(string_of_char(peek));
        }

        Token::Epsilon
    }

    /// Whether the character at the cursor is white space.
    fn is_whitespace(&self) -> (yes: bool)
        requires
            self.peek_index < self.input.len(),
        ensures
            yes == is_space(self.input@[self.peek_index as int]),
    {
        let peek = self.input[self.peek_index];
        peek == ' ' || peek == '\t' || peek == '\n'
    }

    /// Steps over `//` if it stands at the cursor.
    fn is_single_line_comment(&mut self) -> (yes: bool)
        requires
            old(self).wf(),
        ensures
            final(self).wf(),
            final(self).differs_in_cursor_only(*old(self)),
            yes == has_at(old(self).input@, old(self).peek_index as int, line_comment_opener()),
            yes ==> final(self).peek_index == old(self).peek_index + 2,
            !yes ==> final(self).peek_index == old(self).peek_index,
    {
        proof {
            lemma_literals();
        }
        self.match_sequence("//")
    }

    /// Steps over the rest of a line, the newline included.
    #[verifier::loop_isolation(false)]
    fn handle_single_line_comment(&mut self)
        requires
            old(self).wf(),
        ensures
            final(self).wf(),
            final(self).differs_in_cursor_only(*old(self)),
            final(self).peek_index == line_comment_end(
                old(self).input@,
                old(self).peek_index as int,
            ),
    {
        while self.peek_index < self.input.len()
            invariant
                self.wf(),
                self.differs_in_cursor_only(*old(self)),
                self.peek_index <= self.input.len(),
                line_comment_end(self.input@, self.peek_index as int) == line_comment_end(
                    old(self).input@,
                    old(self).peek_index as int,
                ),
            decreases self.input.len() - self.peek_index,
        {
            let peek = self.input[self.peek_index];
            self.move_peek();
            if peek == '\n' {
                return ;
            }
        }
    }

    /// Steps over `/*` if it stands at the cursor.
    fn is_multi_line_comment(&mut self) -> (yes: bool)
        requires
            old(self).wf(),
        ensures
            final(self).wf(),
            final(self).differs_in_cursor_only(*old(self)),
            yes == has_at(old(self).input@, old(self).peek_index as int, block_comment_opener()),
            yes ==> final(self).peek_index == old(self).peek_index + 2,
            !yes ==> final(self).peek_index == old(self).peek_index,
    {
        proof {
            lemma_literals();
        }
        self.match_sequence("/*")
    }

    /// Steps over the rest of a block comment, the `*/` included; to the end
    /// of the text where the comment is not closed.
    #[verifier::loop_isolation(false)]
    fn handle_multi_line_comment(&mut self)
        requires
            old(self).wf(),
        ensures
            final(self).wf(),
            final(self).differs_in_cursor_only(*old(self)),
            final(self).peek_index == block_comment_end(
                old(self).input@,
                old(self).peek_index as int,
            ),
    {
        proof {
            lemma_literals();
        }
        while self.peek_index < self.input.len()
            invariant
                self.wf(),
                self.differs_in_cursor_only(*old(self)),
                self.peek_index <= self.input.len(),
                "*/"@ == block_comment_closer(),
                block_comment_end(self.input@, self.peek_index as int) == block_comment_end(
                    old(self).input@,
                    old(self).peek_index as int,
                ),
            decreases self.input.len() - self.peek_index,
        {
            if self.match_sequence("*/") {
                return ;
            }
            self.move_peek();
        }
    }

    /// Whether a number begins at the cursor. A point is one only before a
    /// digit: the character behind it is looked at and the cursor put back.
    fn is_number(&mut self) -> (yes: bool)
        requires
            old(self).wf(),
            old(self).peek_index < old(self).input.len(),
        ensures
            final(self).wf(),
            final(self).differs_in_cursor_only(*old(self)),
            final(self).peek_index == old(self).peek_index,
            yes == starts_number(old(self).input@, old(self).peek_index as int),
    {
        let mut peek = self.input[self.peek_index];
        if is_decimal_digit(peek) {
            return true;
        }
        let mut is_numeric = false;
        if peek == '.' {
            if self.move_peek() {
                peek = self.input[self.peek_index];

                if is_decimal_digit(peek) {
                    is_numeric = true;
                }
            }
            self.move_peek_reverse();
        }
        is_numeric
    }

    /// Reads the number that begins at the cursor.
    fn handle_number(&mut self) -> (token: Token)
        requires
            old(self).wf(),
            starts_number(old(self).input@, old(self).peek_index as int),
        ensures
            final(self).wf(),
            final(self).differs_in_cursor_only(*old(self)),
            final(self).peek_index == number_end(old(self).input@, old(self).peek_index as int),
            token@ == number_token(old(self).input@, old(self).peek_index as int),
    {
        let ghost s = self.input@;
        let ghost classes = self.classes@;
        let ghost known = self.words@;
        let ghost start = self.peek_index as int;
        let mut peek = self.input[self.peek_index];
        let mut is_float = peek == '.';
        let mut integer: u32 = if is_float {
            0
        } else {
            digit_of(peek)
        };
        let mut decimal: u32 = 0;
        let ghost mut point: int = start;
        proof {
            if !is_float {
                lemma_decimal_value_push(Seq::empty(), peek);
                assert(s.subrange(start, start + 1) =~= Seq::<char>::empty().push(peek));
            }
            assert(s.subrange(start + 1, start + 1) =~= Seq::<char>::empty());
            assert(s.subrange(start, start) =~= Seq::<char>::empty());
        }

        if self.move_peek() {
            peek = self.input[self.peek_index];

            while is_decimal_digit(peek) || peek == '.'
                invariant_except_break
                    self.peek_index < s.len(),
                    peek == s[self.peek_index as int],
                invariant
                    self.wf(),
                    self.input@ == s,
                    self.classes@ == classes,
                    self.words@ == known,
                    0 <= start < self.peek_index <= s.len(),
                    number_read(
                        s,
                        start,
                        self.peek_index as int,
                        is_float,
                        point,
                        integer,
                        decimal,
                    ),
                ensures
                    self.peek_index < s.len() ==> !is_digit(s[self.peek_index as int]) && (is_float
                        || s[self.peek_index as int] != '.'),
                decreases s.len() - self.peek_index,
            {
                let ghost cursor = self.peek_index as int;
                if peek == '.' {
                    if is_float {
                        break ;
                    }
                    is_float = true;
                    proof {
                        point = cursor;
                        assert(s.subrange(point + 1, cursor + 1) =~= Seq::<char>::empty());
                    }
                } else if is_float {
                    proof {
                        lemma_decimal_value_push(s.subrange(point + 1, cursor), peek);
                        assert(s.subrange(point + 1, cursor + 1) =~= s.subrange(
                            point + 1,
                            cursor,
                        ).push(peek));
                        lemma_stored_step(
                            decimal_value(s.subrange(point + 1, cursor)),
                            digit_value(peek) as u32,
                        );
                    }
                    decimal = decimal.wrapping_mul(10).wrapping_add(digit_of(peek));
                } else {
                    proof {
                        lemma_decimal_value_push(s.subrange(start, cursor), peek);
                        assert(s.subrange(start, cursor + 1) =~= s.subrange(start, cursor).push(
                            peek,
                        ));
                        lemma_stored_step(
                            decimal_value(s.subrange(start, cursor)),
                            digit_value(peek) as u32,
                        );
                    }
                    integer = integer.wrapping_mul(10).wrapping_add(digit_of(peek));
                }

                if !self.move_peek() {
                    break ;
                }
                peek = self.input[self.peek_index];
            }
        }
        proof {
            if is_float {
                lemma_digits_end_is(s, start, point);
                lemma_digits_end_is(s, point + 1, self.peek_index as int);
            } else {
                lemma_digits_end_is(s, start, self.peek_index as int);
            }
        }
        Token::Number(integer, decimal)
    }

    /// Reads the word that begins at the cursor and looks it up in the
    /// table: a word met before is the token it was then, a new one is an
    /// identifier and is entered.
    fn handle_word(&mut self) -> (token: Token)
        requires
            old(self).wf(),
            old(self).peek_index < old(self).input.len(),
        ensures
            final(self).wf(),
            final(self).input@ == old(self).input@,
            final(self).classes@ == old(self).classes@,
            final(self).words@.dom() == with_word(old(self).words@.dom(), token@),
            final(self).peek_index == word_end(
                old(self).input@,
                old(self).classes@,
                old(self).peek_index as int + 1,
            ),
            token@ == word_token(
                old(self).input@,
                old(self).classes@,
                old(self).peek_index as int,
            ),
    {
        let ghost s = self.input@;
        let ghost classes = self.classes@;
        let ghost known = self.words@;
        let ghost start = self.peek_index as int;
        let mut peek = self.input[self.peek_index];
        let mut word = string_of_char(peek);
        assert(word@ =~= s.subrange(start, start + 1));
        if self.move_peek() {
            peek = self.input[self.peek_index];
            let mut class = self.classes[self.peek_index];

            while class.alphanumeric || peek == '_'
                invariant_except_break
                    self.peek_index < s.len(),
                    peek == s[self.peek_index as int],
                    class == classes[self.peek_index as int],
                invariant
                    self.wf(),
                    self.input@ == s,
                    self.classes@ == classes,
                    self.words@ == known,
                    0 <= start < self.peek_index <= s.len(),
                    word@ == s.subrange(start, self.peek_index as int),
                    forall|k: int| start < k < self.peek_index ==> is_word_char(s[k], classes[k]),
                ensures
                    self.peek_index < s.len() ==> !is_word_char(
                        s[self.peek_index as int],
                        classes[self.peek_index as int],
                    ),
                decreases s.len() - self.peek_index,
            {
                word.push(peek);
                assert(word@ =~= s.subrange(start, self.peek_index as int + 1));
                if !self.move_peek() {
                    break ;
                }
                peek = self.input[self.peek_index];
                class = self.classes[self.peek_index];
            }
        }
        proof {
            lemma_word_end_is(s, classes, start + 1, self.peek_index as int);
        }
        if let Some(word_token) = self.words.get(word.as_str()) {
            return word_token.clone();
        }
        let new_identifier = Token::Word(Word::Identifier, word.clone());
        self.words.insert(word, new_identifier.clone());
        new_identifier
    }

    /// Reads the relational operator at the cursor, if one stands there. The
    /// cursor does not move where none does.
    fn is_logical_operator(&mut self) -> (found: Option<Token>)
        requires
            old(self).wf(),
        ensures
            final(self).wf(),
            final(self).differs_in_cursor_only(*old(self)),
            found is Some <==> operator_at(old(self).input@, old(self).peek_index as int) is Some,
            found matches Some(token) ==> token@ == operator_token(
                operator_at(old(self).input@, old(self).peek_index as int)->0,
            ),
            found is Some ==> final(self).peek_index == old(self).peek_index + operator_text(
                operator_at(old(self).input@, old(self).peek_index as int)->0,
            ).len(),
            found is None ==> final(self).peek_index == old(self).peek_index,
    {
        proof {
            lemma_literals();
        }
        if self.match_sequence("<=") {
            Some(Token::LogicalOperator(LogicalOperator::LessOrEqual, String::from_str("<=")))
        } else if self.match_sequence("==") {
            Some(Token::LogicalOperator(LogicalOperator::Equal, String::from_str("==")))
        } else if self.match_sequence("!=") {
            Some(Token::LogicalOperator(LogicalOperator::Different, String::from_str("!=")))
        } else if self.match_sequence(">=") {
            Some(Token::LogicalOperator(LogicalOperator::GreaterOrEqual, String::from_str(">=")))
        } else if self.match_sequence("<") {
            Some(Token::LogicalOperator(LogicalOperator::Less, String::from_str("<")))
        } else if self.match_sequence(">") {
            Some(Token::LogicalOperator(LogicalOperator::Greater, String::from_str(">")))
        } else {
            None
        }
    }

    /// Steps over `expected_sequence` if it stands at the cursor. A trial
    /// that fails leaves the cursor where it was.
    #[verifier::loop_isolation(false)]
    fn match_sequence(&mut self, expected_sequence: &str) -> (matched: bool)
        requires
            old(self).wf(),
        ensures
            final(self).wf(),
            final(self).differs_in_cursor_only(*old(self)),
            matched == has_at(old(self).input@, old(self).peek_index as int, expected_sequence@),
            matched ==> final(self).peek_index == old(self).peek_index + expected_sequence@.len(),
            !matched ==> final(self).peek_index == old(self).peek_index,
    {
        let ghost s = self.input@;
        let ghost classes = self.classes@;
        let ghost known = self.words@;
        let initial_peek_index = self.peek_index;
        let chars: Vec<char> = chars_of(expected_sequence);
        let mut matched: usize = 0;

        while matched < chars.len()
            invariant
                self.wf(),
                self.input@ == s,
                self.classes@ == classes,
                self.words@ == known,
                chars@ == expected_sequence@,
                matched <= chars.len(),
                self.peek_index == initial_peek_index + matched,
                self.peek_index <= s.len(),
                forall|k: int| 0 <= k < matched ==> s[initial_peek_index + k] == chars[k],
            decreases chars.len() - matched,
        {
            if self.peek_index < self.input.len() && self.input[self.peek_index] == chars[matched] {
                self.move_peek();
                matched += 1;
            } else {
                proof {
                    if has_at(s, initial_peek_index as int, chars@) {
                        assert(s.subrange(
                            initial_peek_index as int,
                            initial_peek_index + chars@.len(),
                        )[matched as int] == chars[matched as int]);
                    }
                }
                self.move_peek_to(initial_peek_index);
                return false;
            }
        }
        assert(s.subrange(initial_peek_index as int, initial_peek_index + chars@.len())
            =~= chars@);
        true
    }

    /// Moves the cursor one character on and says whether a character stands
    /// there.
    fn move_peek(&mut self) -> (more: bool)
        requires
            old(self).wf(),
            old(self).peek_index < old(self).input.len(),
        ensures
            final(self).wf(),
            final(self).differs_in_cursor_only(*old(self)),
            final(self).peek_index == old(self).peek_index + 1,
            more == (final(self).peek_index < final(self).input.len()),
    {
        self.peek_index += 1;
        self.peek_index < self.input.len()
    }

    /// Moves the cursor one character back.
    fn move_peek_reverse(&mut self)
        requires
            old(self).wf(),
            old(self).peek_index > 0,
        ensures
            final(self).wf(),
            final(self).differs_in_cursor_only(*old(self)),
            final(self).peek_index == old(self).peek_index - 1,
    {
        self.peek_index -= 1;
    }

    /// Puts the cursor at `new_peek`.
    fn move_peek_to(&mut self, new_peek: usize)
        requires
            old(self).wf(),
            new_peek <= old(self).input.len(),
        ensures
            final(self).wf(),
            final(self).differs_in_cursor_only(*old(self)),
            final(self).peek_index == new_peek,
    {
        self.peek_index = new_peek;
    }
}

} // verus!
