//! A recursive-descent recogniser for zeros closed by as many ones,
//! `S -> 0 S 1 | ε`.

use vstd::prelude::*;
use crate::error::{Delimiter, SyntaxError};
use crate::nested::{
    descend, is_nested, lemma_accepts_nested, lemma_descend_is_outcome, lemma_run_end, reported,
    resting_place, run_end, stopped_at, verdict,
};
use crate::text::chars_of;

verus! {

/// What the recogniser sees at its cursor.
#[derive(Debug, PartialEq, Eq, Structural)]
enum Token {
    Zero,
    One,
    Epsilon,
    Invalid,
}

/// The token at position `i` of `s`.
spec fn token_at(s: Seq<char>, i: int) -> Token {
    if i < 0 || i >= s.len() {
        Token::Epsilon
    } else if s[i] == '0' {
        Token::Zero
    } else if s[i] == '1' {
        Token::One
    } else {
        Token::Invalid
    }
}

/// How far reading `token` moves the cursor.
spec fn width(token: Token) -> int {
    if token == Token::Zero || token == Token::One {
        1
    } else {
        0
    }
}

/// What an attempt to read `expected` reports when it reads `found` and
/// leaves the cursor at `position`.
spec fn attempt(found: Token, expected: Token, position: usize) -> Result<(), SyntaxError> {
    if found == expected {
        Ok(())
    } else {
        Err(SyntaxError::UnexpectedToken { expected: Delimiter::One, position })
    }
}

/// A recogniser over one text, with the position up to which it has read.
pub struct ParserC {
    input: Vec<char>,
    lookahead_index: usize,
}

impl ParserC {
    #[verifier::type_invariant]
    spec fn cursor_within_text(&self) -> bool {
        self.lookahead_index <= self.input.len()
    }

    /// The text that the recogniser reads.
    pub closed spec fn text(&self) -> Seq<char> {
        self.input@
    }

    /// The number of characters read so far.
    pub closed spec fn cursor(&self) -> int {
        self.lookahead_index as int
    }

    /// A recogniser at the start of `input`.
    pub fn new(input: &str) -> (parser: Self)
        ensures
            parser.text() == input@,
            parser.cursor() == 0,
    {
        ParserC { input: chars_of(input), lookahead_index: 0 }
    }

    /// Reads zeros and the ones that close them from the cursor on and
    /// requires them to reach the end of the text. The text is accepted
    /// exactly when what is left of it is some number of zeros followed by as
    /// many ones; otherwise the error says what stood in the way, and the
    /// cursor rests where the reading stopped.
    pub fn parse(&mut self) -> (result: Result<(), SyntaxError>)
        ensures
            final(self).text() == old(self).text(),
            result == verdict(old(self).text(), old(self).cursor()),
            result is Ok <==> is_nested(
                old(self).text().subrange(old(self).cursor(), old(self).text().len() as int),
            ),
            final(self).cursor() == resting_place(old(self).text(), old(self).cursor()),
            old(self).cursor() <= final(self).cursor() <= old(self).text().len(),
    {
        proof {
            use_type_invariant(&*self);
            lemma_descend_is_outcome(self.input@, self.lookahead_index as int);
            lemma_accepts_nested(self.input@, self.lookahead_index as int);
            let zeros_end = run_end(self.input@, self.lookahead_index as int, '0');
            lemma_run_end(self.input@, self.lookahead_index as int, '0');
            lemma_run_end(self.input@, zeros_end, '1');
        }
        self.parse_internal()?;

        if self.lookahead_index < self.input.len() {
            Err(SyntaxError::TrailingInput)
        } else {
            Ok(())
        }
    }

    /// One descent. A `1` that it meets first belongs to the caller: it is
    /// read to be recognised and then handed back by moving the cursor one
    /// place to the left.
    fn parse_internal(&mut self) -> (result: Result<(), SyntaxError>)
        ensures
            final(self).input@ == old(self).input@,
            result == reported(descend(old(self).input@, old(self).lookahead_index as int)),
            final(self).lookahead_index == stopped_at(
                descend(old(self).input@, old(self).lookahead_index as int),
            ),
        decreases old(self).input.len() - old(self).lookahead_index,
    {
        proof {
            use_type_invariant(&*self);
        }
        match self.next_token() {
            Token::Zero => {
                self.parse_internal()?;
                self.match_token(Token::One)?;

                Ok(())
            },
            Token::One => {
                self.lookahead_index -= 1;
                Ok(())
            },
            Token::Epsilon => Ok(()),
            Token::Invalid => Err(SyntaxError::InvalidToken { position: self.lookahead_index }),
        }
    }

    /// Reads one token and fails unless it is a `1`.
    fn match_token(&mut self, expected: Token) -> (result: Result<(), SyntaxError>)
        requires
            expected == Token::One,
        ensures
            final(self).input@ == old(self).input@,
            final(self).lookahead_index == old(self).lookahead_index + width(
                token_at(old(self).input@, old(self).lookahead_index as int),
            ),
            result == attempt(
                token_at(old(self).input@, old(self).lookahead_index as int),
                expected,
                final(self).lookahead_index,
            ),
    {
        if self.next_token() == expected {
            Ok(())
        } else {
            Err(
                SyntaxError::UnexpectedToken {
                    expected: Delimiter::One,
                    position: self.lookahead_index,
                },
            )
        }
    }

    /// Classifies the character at the cursor and steps over it if it is a
    /// `0` or a `1`.
    fn next_token(&mut self) -> (token: Token)
        ensures
            final(self).input@ == old(self).input@,
            token == token_at(old(self).input@, old(self).lookahead_index as int),
            final(self).lookahead_index == old(self).lookahead_index + width(token),
    {
        proof {
            use_type_invariant(&*self);
        }
        if self.lookahead_index >= self.input.len() {
            return Token::Epsilon;
        }
        match self.input[self.lookahead_index] {
            '0' => {
                self.lookahead_index += 1;
                Token::Zero
            },
            '1' => {
                self.lookahead_index += 1;
                Token::One
            },
            _ => Token::Invalid,
        }
    }
}

/// Reading a text again ends as the first reading did: two recognisers that
/// stand at the same place of the same text get the same verdict, with the
/// same position and the same message where the text is rejected, and come
/// to rest at the same place.
pub proof fn lemma_rereading_agrees(first: ParserC, second: ParserC)
    requires
        first.text() == second.text(),
        first.cursor() == second.cursor(),
    ensures
        verdict(first.text(), first.cursor()) == verdict(second.text(), second.cursor()),
        verdict(first.text(), first.cursor()) matches Err(error) ==> verdict(
            second.text(),
            second.cursor(),
        ) matches Err(again) && error.message_text() == again.message_text(),
        resting_place(first.text(), first.cursor()) == resting_place(
            second.text(),
            second.cursor(),
        ),
{
}

} // verus!
