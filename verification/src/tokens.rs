//! Token alphabet of the language: operators, keywords, lexemes, and the
//! byte-level classification and lookup functions the lexer is built on.
//!
//! The spelling tables are pure functions over the closed enumerations,
//! so they need no one-time initialisation and are safe to read from any
//! number of threads.

use vstd::prelude::*;

verus! {

/// The closed set of operator spellings. Each spelling maps to exactly one
/// tag; after lexing, operators are compared by tag only.
#[derive(Copy, Clone, Debug, Hash, PartialEq, Eq, Structural)]
pub enum Operator {
    Plus,
    Minus,
    Asterisk,
    LessThan,
    GreaterThan,
    Equals,
    Colon,
    Semicolon,
    OpenParenthesis,
    CloseParenthesis,
    OpenBrace,
    CloseBrace,
    Arrow,
    Comma,
    ColonEquals,
    Ampersand,
    Dot,
    DoubleEquals,
    ExclaimEquals,
    DoubleAmpersand,
    DoubleBar,
    Exclaim,
}

/// The closed set of reserved words. An identifier-shaped lexeme that exactly
/// matches one of their spellings always lexes as a keyword.
#[derive(Copy, Clone, Debug, Hash, PartialEq, Eq, Structural)]
pub enum Keyword {
    If,
    Else,
    While,
    Function,
    Struct,
    Return,
}

/// Everything that can go wrong while turning bytes into lexemes.
#[derive(Copy, Clone, Debug, PartialEq, Eq, Structural)]
pub enum LexError {
    /// A byte that starts no token; carries the offending byte.
    InvalidCharacter(u8),
    /// A run of operator characters no prefix of which spells an operator.
    InvalidOperator,
    /// A decimal literal whose value exceeds `u64::MAX`.
    IntegerOverflow,
    /// A string literal with no closing quote before the end of the input.
    UnterminatedString,
    /// A `#` comment with no newline before the end of the input.
    UnterminatedComment,
    /// An identifier or string literal span that is not valid UTF-8.
    InvalidEncoding,
}

/// A classified unit of input, as handed from the lexer to the parser.
#[derive(Debug, Clone, PartialEq)]
pub enum Lexeme {
    Integer(u64),
    Identifier(String),
    StringLiteral(String),
    Operator(Operator),
    Keyword(Keyword),
    Eof,
}

/// The mathematical counterpart of [`Lexeme`], with text as `Seq<char>`.
pub enum Token {
    Int(u64),
    Ident(Seq<char>),
    StrLit(Seq<char>),
    Op(Operator),
    Key(Keyword),
    End,
}

impl View for Lexeme {
    type V = Token;

    open spec fn view(&self) -> Token {
        match self {
            Lexeme::Integer(v) => Token::Int(*v),
            Lexeme::Identifier(s) => Token::Ident(s@),
            Lexeme::StringLiteral(s) => Token::StrLit(s@),
            Lexeme::Operator(op) => Token::Op(*op),
            Lexeme::Keyword(k) => Token::Key(*k),
            Lexeme::Eof => Token::End,
        }
    }
}

/// ASCII whitespace, as the lexer skips it: space, tab, newline, form feed,
/// carriage return.
pub open spec fn is_space(b: u8) -> bool {
    b == 32 || b == 9 || b == 10 || b == 12 || b == 13
}

/// An ASCII decimal digit.
pub open spec fn is_digit(b: u8) -> bool {
    48 <= b <= 57
}

/// An ASCII letter; the only bytes that may start an identifier.
pub open spec fn is_alpha(b: u8) -> bool {
    (65 <= b <= 90) || (97 <= b <= 122)
}

/// A byte that may continue an identifier: letter, digit, or underscore.
pub open spec fn is_ident_char(b: u8) -> bool {
    is_alpha(b) || is_digit(b) || b == 95
}

/// The operator-character set: the union of the bytes appearing in the
/// operator spellings, so that multi-byte operators can be scanned by
/// maximal munch.
pub open spec fn is_op_char(b: u8) -> bool {
    ||| b == 43  // +
    ||| b == 45  // -
    ||| b == 42  // *
    ||| b == 38  // &
    ||| b == 40  // (
    ||| b == 41  // )
    ||| b == 123  // {
    ||| b == 125  // }
    ||| b == 60  // <
    ||| b == 62  // >
    ||| b == 59  // ;
    ||| b == 58  // :
    ||| b == 61  // =
    ||| b == 44  // ,
    ||| b == 33  // !
    ||| b == 124  // |
    ||| b == 46  // .
}

/// The spelling-to-tag table for operators: `op_of(s)` is the tag whose
/// spelling is exactly the byte sequence `s`, if any.
pub open spec fn op_of(s: Seq<u8>) -> Option<Operator> {
    if s.len() == 1 {
        if s[0] == 43 {
            Some(Operator::Plus)
        } else if s[0] == 45 {
            Some(Operator::Minus)
        } else if s[0] == 42 {
            Some(Operator::Asterisk)
        } else if s[0] == 38 {
            Some(Operator::Ampersand)
        } else if s[0] == 40 {
            Some(Operator::OpenParenthesis)
        } else if s[0] == 41 {
            Some(Operator::CloseParenthesis)
        } else if s[0] == 123 {
            Some(Operator::OpenBrace)
        } else if s[0] == 125 {
            Some(Operator::CloseBrace)
        } else if s[0] == 60 {
            Some(Operator::LessThan)
        } else if s[0] == 62 {
            Some(Operator::GreaterThan)
        } else if s[0] == 59 {
            Some(Operator::Semicolon)
        } else if s[0] == 58 {
            Some(Operator::Colon)
        } else if s[0] == 61 {
            Some(Operator::Equals)
        } else if s[0] == 44 {
            Some(Operator::Comma)
        } else if s[0] == 33 {
            Some(Operator::Exclaim)
        } else if s[0] == 46 {
            Some(Operator::Dot)
        } else {
            None
        }
    } else if s.len() == 2 {
        if s[0] == 45 && s[1] == 62 {
            Some(Operator::Arrow)
        } else if s[0] == 58 && s[1] == 61 {
            Some(Operator::ColonEquals)
        } else if s[0] == 61 && s[1] == 61 {
            Some(Operator::DoubleEquals)
        } else if s[0] == 33 && s[1] == 61 {
            Some(Operator::ExclaimEquals)
        } else if s[0] == 38 && s[1] == 38 {
            Some(Operator::DoubleAmpersand)
        } else if s[0] == 124 && s[1] == 124 {
            Some(Operator::DoubleBar)
        } else {
            None
        }
    } else {
        None
    }
}

/// The spelling of each operator, as bytes.
pub open spec fn op_spelling(op: Operator) -> Seq<u8> {
    match op {
        Operator::Plus => seq![43u8],
        Operator::Minus => seq![45u8],
        Operator::Asterisk => seq![42u8],
        Operator::LessThan => seq![60u8],
        Operator::GreaterThan => seq![62u8],
        Operator::Equals => seq![61u8],
        Operator::Colon => seq![58u8],
        Operator::Semicolon => seq![59u8],
        Operator::OpenParenthesis => seq![40u8],
        Operator::CloseParenthesis => seq![41u8],
        Operator::OpenBrace => seq![123u8],
        Operator::CloseBrace => seq![125u8],
        Operator::Arrow => seq![45u8, 62u8],
        Operator::Comma => seq![44u8],
        Operator::ColonEquals => seq![58u8, 61u8],
        Operator::Ampersand => seq![38u8],
        Operator::Dot => seq![46u8],
        Operator::DoubleEquals => seq![61u8, 61u8],
        Operator::ExclaimEquals => seq![33u8, 61u8],
        Operator::DoubleAmpersand => seq![38u8, 38u8],
        Operator::DoubleBar => seq![124u8, 124u8],
        Operator::Exclaim => seq![33u8],
    }
}

/// The spelling of each keyword, as bytes.
pub open spec fn keyword_spelling(k: Keyword) -> Seq<u8> {
    match k {
        Keyword::If => seq![105u8, 102u8],
        Keyword::Else => seq![101u8, 108u8, 115u8, 101u8],
        Keyword::While => seq![119u8, 104u8, 105u8, 108u8, 101u8],
        Keyword::Function => seq![102u8, 110u8],
        Keyword::Struct => seq![115u8, 116u8, 114u8, 117u8, 99u8, 116u8],
        Keyword::Return => seq![114u8, 101u8, 116u8, 117u8, 114u8, 110u8],
    }
}

/// The spelling-to-tag table for keywords: `keyword_of(s)` is the keyword
/// whose spelling is exactly `s`, if any.
pub open spec fn keyword_of(s: Seq<u8>) -> Option<Keyword> {
    if s.len() == 2 && s[0] == 105 && s[1] == 102 {
        Some(Keyword::If)  // if
    } else if s.len() == 4 && s[0] == 101 && s[1] == 108 && s[2] == 115 && s[3] == 101 {
        Some(Keyword::Else)  // else
    } else if s.len() == 5 && s[0] == 119 && s[1] == 104 && s[2] == 105 && s[3] == 108 && s[4]
        == 101 {
        Some(Keyword::While)  // while
    } else if s.len() == 2 && s[0] == 102 && s[1] == 110 {
        Some(Keyword::Function)  // fn
    } else if s.len() == 6 && s[0] == 115 && s[1] == 116 && s[2] == 114 && s[3] == 117 && s[4]
        == 99 && s[5] == 116 {
        Some(Keyword::Struct)  // struct
    } else if s.len() == 6 && s[0] == 114 && s[1] == 101 && s[2] == 116 && s[3] == 117 && s[4]
        == 114 && s[5] == 110 {
        Some(Keyword::Return)  // return
    } else {
        None
    }
}

/// The precedence table for binary operators: nine levels, tightest (1) to
/// loosest (9). Operators outside the table (delimiters, `->`, `,`, `!`)
/// cannot appear as binary operators.
pub open spec fn spec_precedence(op: Operator) -> Option<u8> {
    match op {
        Operator::Dot => Some(1u8),
        Operator::Asterisk => Some(2u8),
        Operator::Plus => Some(3u8),
        Operator::Minus => Some(3u8),
        Operator::LessThan => Some(4u8),
        Operator::GreaterThan => Some(4u8),
        Operator::DoubleEquals => Some(5u8),
        Operator::ExclaimEquals => Some(5u8),
        Operator::DoubleAmpersand => Some(6u8),
        Operator::DoubleBar => Some(7u8),
        Operator::Colon => Some(8u8),
        Operator::Equals => Some(8u8),
        Operator::ColonEquals => Some(8u8),
        Operator::Semicolon => Some(9u8),
        _ => None,
    }
}

/// The loosest binding level in the precedence table.
pub const MAX_PRECEDENCE: u8 = 9;

/// Executable mirror of [`spec_precedence`].
pub fn precedence_of(op: Operator) -> (r: Option<u8>)
    ensures
        r == spec_precedence(op),
{
    match op {
        Operator::Dot => Some(1u8),
        Operator::Asterisk => Some(2u8),
        Operator::Plus => Some(3u8),
        Operator::Minus => Some(3u8),
        Operator::LessThan => Some(4u8),
        Operator::GreaterThan => Some(4u8),
        Operator::DoubleEquals => Some(5u8),
        Operator::ExclaimEquals => Some(5u8),
        Operator::DoubleAmpersand => Some(6u8),
        Operator::DoubleBar => Some(7u8),
        Operator::Colon => Some(8u8),
        Operator::Equals => Some(8u8),
        Operator::ColonEquals => Some(8u8),
        Operator::Semicolon => Some(9u8),
        _ => None,
    }
}

} // verus!
