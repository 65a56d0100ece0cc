//! A recursive-descent recogniser for prefix expressions,
//! `S -> + S S | - S S | a`, which decides every alternative on one token.

use vstd::prelude::*;
use crate::error::SyntaxError;
use crate::prefix::{
    is_expression, lemma_scan_advances, lemma_verdict_of_scan, reported, resting_place, scan,
    stopped_at, verdict,
};
use crate::text::chars_of;

verus! {

/// What the recogniser sees at its cursor.
#[derive(Debug, PartialEq, Eq, Structural)]
enum Token {
    A,
    Plus,
    Minus,
    Epsilon,
    Invalid,
}

/// How far reading `token` moves the cursor.
spec fn width(token: Token) -> int {
    if token == Token::Epsilon || token == Token::Invalid {
        0
    } else {
        1
    }
}

/// The token at position `i` of `s`.
spec fn token_at(s: Seq<char>, i: int) -> Token {
    if i < 0 || i >= s.len() {
        Token::Epsilon
    } else if s[i] == 'a' {
        Token::A
    } else if s[i] == '+' {
        Token::Plus
    } else if s[i] == '-' {
        Token::Minus
    } else {
        Token::Invalid
    }
}

/// A recogniser over one text, with the position up to which it has read.
pub struct ParserA {
    input: Vec<char>,
    lookahead_index: usize,
}

impl ParserA {
    #[verifier::type_invariant]
    spec fn cursor_within_text(&self) -> bool {
        self.lookahead_index <= self.input.len()
    }

    /// The text that the recogniser reads.
    pub closed spec fn text(&self) -> Seq<char> {
        self.input@
    }

    /// The number of characters read so far.
    pub closed spec fn cursor(&self) -> int {
        self.lookahead_index as int
    }

    /// A recogniser at the start of `input`.
    pub fn new(input: &str) -> (parser: Self)
        ensures
            parser.text() == input@,
            parser.cursor() == 0,
    {
        ParserA { input: chars_of(input), lookahead_index: 0 }
    }

    /// Reads one expression from the cursor on and requires it to reach the
    /// end of the text. The text is accepted exactly when what is left of it
    /// is an expression; otherwise the error says what stood in the way, and
    /// the cursor rests where the reading stopped.
    pub fn parse(&mut self) -> (result: Result<(), SyntaxError>)
        ensures
            final(self).text() == old(self).text(),
            result == verdict(old(self).text(), old(self).cursor()),
            result is Ok <==> is_expression(
                old(self).text().subrange(old(self).cursor(), old(self).text().len() as int),
            ),
            final(self).cursor() == resting_place(old(self).text(), old(self).cursor()),
            old(self).cursor() <= final(self).cursor() <= old(self).text().len(),
    {
        proof {
            use_type_invariant(&*self);
            lemma_verdict_of_scan(self.input@, self.lookahead_index as int);
            lemma_scan_advances(self.input@, self.lookahead_index as int);
        }
        let is_correct = self.parse_internal()?;
        if is_correct {
            if self.lookahead_index < self.input.len() {
                Err(SyntaxError::TrailingInput)
            } else {
                Ok(())
            }
        } else {
            Err(SyntaxError::PrematureEnd)
        }
    }

    /// One descent: `Ok(true)` behind a complete expression, `Ok(false)` where
    /// the text ran out, and an error on a character that is no token.
    fn parse_internal(&mut self) -> (result: Result<bool, SyntaxError>)
        ensures
            final(self).input@ == old(self).input@,
            result == reported(scan(old(self).input@, old(self).lookahead_index as int)),
            final(self).lookahead_index == stopped_at(
                old(self).input@,
                scan(old(self).input@, old(self).lookahead_index as int),
            ),
        decreases old(self).input.len() - old(self).lookahead_index,
    {
        proof {
            use_type_invariant(&*self);
            lemma_scan_advances(self.input@, self.lookahead_index as int);
        }
        match self.next_token() {
            Token::A => Ok(true),
            Token::Plus | Token::Minus => {
                proof {
                    lemma_scan_advances(self.input@, self.lookahead_index as int);
                }
                if !self.parse_internal()? {
                    return Ok(false);
                }
                if !self.parse_internal()? {
                    return Ok(false);
                }
                Ok(true)
            },
            Token::Epsilon => Ok(false),
            Token::Invalid => Err(SyntaxError::InvalidToken { position: self.lookahead_index }),
        }
    }

    /// Classifies the character at the cursor and steps over it if it is a
    /// token of the grammar.
    fn next_token(&mut self) -> (token: Token)
        ensures
            final(self).input@ == old(self).input@,
            token == token_at(old(self).input@, old(self).lookahead_index as int),
            final(self).lookahead_index == old(self).lookahead_index + width(token),
    {
        proof {
            use_type_invariant(&*self);
        }
        if self.lookahead_index >= self.input.len() {
            return Token::Epsilon;
        }
        match self.input[self.lookahead_index] {
            'a' => {
                self.lookahead_index += 1;
                Token::A
            },
            '+' => {
                self.lookahead_index += 1;
                Token::Plus
            },
            '-' => {
                self.lookahead_index += 1;
                Token::Minus
            },
            _ => Token::Invalid,
        }
    }
}

/// Reading a text again ends as the first reading did: two recognisers that
/// stand at the same place of the same text get the same verdict, with the
/// same position and the same message where the text is rejected, and come
/// to rest at the same place.
pub proof fn lemma_rereading_agrees(first: ParserA, second: ParserA)
    requires
        first.text() == second.text(),
        first.cursor() == second.cursor(),
    ensures
        verdict(first.text(), first.cursor()) == verdict(second.text(), second.cursor()),
        verdict(first.text(), first.cursor()) matches Err(error) ==> verdict(
            second.text(),
            second.cursor(),
        ) matches Err(again) && error.message_text() == again.message_text(),
        resting_place(first.text(), first.cursor()) == resting_place(
            second.text(),
            second.cursor(),
        ),
{
}

} // verus!
