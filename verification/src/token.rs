//! The tokens that the scanner produces.

use vstd::prelude::*;

verus! {

/// The classes of words.
#[derive(Debug, Hash, PartialEq, Eq, Clone, Copy, Structural)]
pub enum Word {
    Identifier,
    True,
    False,
}

/// The relational operators.
#[derive(Debug, Hash, PartialEq, Eq, Clone, Copy, Structural)]
pub enum LogicalOperator {
    Less,
    LessOrEqual,
    Equal,
    Different,
    Greater,
    GreaterOrEqual,
}

/// One token. A word and an operator carry the text that they were read
/// from; a number carries the value before and the value behind its decimal
/// point; `Epsilon` marks the end of the text and is no part of any sequence
/// of tokens that the scanner returns.
#[derive(Debug, Hash, PartialEq, Eq)]
pub enum Token {
    Word(Word, String),
    Number(u32, u32),
    LogicalOperator(LogicalOperator, String),
    Unknown(String),
    Epsilon,
}

/// A token with its text as a sequence of characters.
pub enum TokenView {
    Word(Word, Seq<char>),
    Number(u32, u32),
    LogicalOperator(LogicalOperator, Seq<char>),
    Unknown(Seq<char>),
    Epsilon,
}

impl View for Token {
    type V = TokenView;

    open spec fn view(&self) -> TokenView {
        match self {
            Token::Word(class, text) => TokenView::Word(*class, text@),
            Token::Number(integer, fraction) => TokenView::Number(*integer, *fraction),
            Token::LogicalOperator(operator, text) => TokenView::LogicalOperator(
                *operator,
                text@,
            ),
            Token::Unknown(text) => TokenView::Unknown(text@),
            Token::Epsilon => TokenView::Epsilon,
        }
    }
}

impl Clone for Token {
    fn clone(&self) -> (copy: Self)
        ensures
            copy@ == self@,
    {
        match self {
            Token::Word(class, text) => Token::Word(*class, text.clone()),
            Token::Number(integer, fraction) => Token::Number(*integer, *fraction),
            Token::LogicalOperator(operator, text) => Token::LogicalOperator(
                *operator,
                text.clone(),
            ),
            Token::Unknown(text) => Token::Unknown(text.clone()),
            Token::Epsilon => Token::Epsilon,
        }
    }
}

/// The views of a sequence of tokens, in order.
pub open spec fn views(tokens: Seq<Token>) -> Seq<TokenView> {
    tokens.map_values(|token: Token| token@)
}

} // verus!
