//! The failures that the recognisers report.

use vstd::prelude::*;
use vstd::string::StringExecFns;
use crate::text::{decimal_digits, push_decimal};

verus! {

/// A closing token that a recogniser insists on at one point of a derivation.
#[derive(Debug, Clone, Copy, PartialEq, Eq, Structural)]
pub enum Delimiter {
    /// The `)` that closes a parenthesis.
    CloseParam,
    /// The `1` that closes a `0`.
    One,
}

/// Why a text was rejected. Positions count characters from the start of the
/// text, beginning with 0.
#[derive(Debug, Clone, Copy, PartialEq, Eq, Structural)]
pub enum SyntaxError {
    /// The character at `position` fits no alternative of the grammar.
    InvalidToken { position: usize },
    /// A required closing token was not read; `position` is where the cursor
    /// stood after the attempt to read it.
    UnexpectedToken { expected: Delimiter, position: usize },
    /// The text ended while a part of the derivation was still owed.
    PrematureEnd,
    /// A complete derivation was read and text was left over.
    TrailingInput,
}

impl Delimiter {
    /// The name under which a message mentions this token.
    pub open spec fn name(self) -> Seq<char> {
        match self {
            Delimiter::CloseParam => "CloseParam"@,
            Delimiter::One => "One"@,
        }
    }
}

impl SyntaxError {
    /// The text of the message, character by character.
    pub open spec fn message_text(self) -> Seq<char> {
        match self {
            SyntaxError::InvalidToken { position } => {
                "Syntax error: Invalid token at position "@ + decimal_digits(position as nat)
            },
            SyntaxError::UnexpectedToken { expected, position } => {
                "Syntax error: Expected "@ + expected.name() + " at position "@ + decimal_digits(
                    position as nat,
                )
            },
            SyntaxError::PrematureEnd | SyntaxError::TrailingInput => {
                "Syntax error: Invalid input"@
            },
        }
    }

    /// A description of the failure for a human reader. Running out of text
    /// and leaving text over are worded alike.
    pub fn message(&self) -> (text: String)
        ensures
            text@ == self.message_text(),
    {
        match self {
            SyntaxError::InvalidToken { position } => {
                let mut text = String::from_str("Syntax error: Invalid token at position ");
                push_decimal(&mut text, *position);
                text
            },
            SyntaxError::UnexpectedToken { expected, position } => {
                let mut text = String::from_str("Syntax error: Expected ");
                match expected {
                    Delimiter::CloseParam => text.append("CloseParam"),
                    Delimiter::One => text.append("One"),
                }
                text.append(" at position ");
                push_decimal(&mut text, *position);
                text
            },
            SyntaxError::PrematureEnd | SyntaxError::TrailingInput => {
                String::from_str("Syntax error: Invalid input")
            },
        }
    }
}

} // verus!
