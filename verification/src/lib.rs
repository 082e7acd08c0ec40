//! Front end of the mud toy language: a byte-level lexer and a
//! recursive-descent, precedence-climbing parser, both verified against a
//! mathematical model of the tokens and of the grammar.
//!
//! The lexer turns a byte buffer into lexemes one at a time, exactly as
//! the specification function `lexer::spec_next` describes. The parser
//! pulls lexemes with one token of lookahead and builds the syntax tree
//! that the grammar functions in `grammar` compute over the input's token
//! stream. The laws in `laws` state once and for all that digit strings
//! lex to their value, that keyword spellings are reserved, and that
//! comment lines are invisible to the parse.

pub mod tokens;
pub mod lexer;
pub mod ast;
pub mod stream;
pub mod grammar;
pub mod parser;
pub mod laws;

pub use ast::{Expression, GExpr};
pub use grammar::{GParseError, ParseError};
pub use lexer::Lexer;
pub use parser::Parser;
pub use tokens::{Keyword, LexError, Lexeme, Operator, Token};
