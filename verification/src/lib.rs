//! Recursive-descent recognisers for three small grammars and a maximal-munch
//! lexical scanner, with their behaviour stated and proved.
//!
//! Each recogniser reads a text with one token of lookahead and either
//! accepts it or says why not: [`ParserA`] prefix expressions over `a`, `+`
//! and `-`; [`ParserB`] balanced parentheses; [`ParserC`] zeros closed by as
//! many ones. [`Lexer`] splits a text into words, numbers, relational
//! operators and single unknown characters, and passes over white space and
//! comments.

pub mod classes;
pub mod error;
pub mod lexemes;
pub mod lexer;
pub mod lexis;
pub mod nested;
pub mod parens;
pub mod parser_a;
pub mod parser_b;
pub mod parser_c;
pub mod prefix;
pub mod prefix_check;
pub mod text;
pub mod token;


pub use error::{Delimiter, SyntaxError};
pub use lexer::Lexer;
pub use parser_a::ParserA;
pub use parser_b::ParserB;
pub use parser_c::ParserC;
pub use prefix_check::a;
pub use token::{LogicalOperator, Token, Word};
