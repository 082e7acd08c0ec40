//! Lexer-level behaviour: literals, keywords, maximal munch, comments,
//! and the lex errors.

use mud_frontend::{Keyword, LexError, Lexeme, Lexer, Operator};

fn lex_all(src: &[u8]) -> Result<Vec<Lexeme>, LexError> {
    let mut lexer = Lexer::new(src.to_vec());
    let mut out = Vec::new();
    loop {
        match lexer.next() {
            Ok(Lexeme::Eof) => return Ok(out),
            Ok(l) => out.push(l),
            Err(e) => return Err(e),
        }
    }
}

#[test]
fn integer_exact_value() {
    assert_eq!(lex_all(b"0"), Ok(vec![Lexeme::Integer(0)]));
    assert_eq!(lex_all(b"42"), Ok(vec![Lexeme::Integer(42)]));
    assert_eq!(lex_all(b"109876543210"), Ok(vec![Lexeme::Integer(109876543210)]));
}

#[test]
fn integer_at_u64_max() {
    assert_eq!(lex_all(b"18446744073709551615"), Ok(vec![Lexeme::Integer(u64::MAX)]));
}

#[test]
fn integer_overflow_is_an_error() {
    assert_eq!(lex_all(b"18446744073709551616"), Err(LexError::IntegerOverflow));
    assert_eq!(lex_all(b"999999999999999999999999"), Err(LexError::IntegerOverflow));
}

#[test]
fn keywords_never_lex_as_identifiers() {
    assert_eq!(
        lex_all(b"if else while fn struct return"),
        Ok(vec![
            Lexeme::Keyword(Keyword::If),
            Lexeme::Keyword(Keyword::Else),
            Lexeme::Keyword(Keyword::While),
            Lexeme::Keyword(Keyword::Function),
            Lexeme::Keyword(Keyword::Struct),
            Lexeme::Keyword(Keyword::Return),
        ])
    );
    // in non-alphanumeric context too
    assert_eq!(
        lex_all(b"(if)+while;"),
        Ok(vec![
            Lexeme::Operator(Operator::OpenParenthesis),
            Lexeme::Keyword(Keyword::If),
            Lexeme::Operator(Operator::CloseParenthesis),
            Lexeme::Operator(Operator::Plus),
            Lexeme::Keyword(Keyword::While),
            Lexeme::Operator(Operator::Semicolon),
        ])
    );
}

#[test]
fn keyword_like_identifiers_stay_identifiers() {
    assert_eq!(
        lex_all(b"iff if_ ifx"),
        Ok(vec![
            Lexeme::Identifier("iff".to_string()),
            Lexeme::Identifier("if_".to_string()),
            Lexeme::Identifier("ifx".to_string()),
        ])
    );
}

#[test]
fn longest_match_colon_equals() {
    assert_eq!(lex_all(b":="), Ok(vec![Lexeme::Operator(Operator::ColonEquals)]));
    assert_eq!(
        lex_all(b": ="),
        Ok(vec![Lexeme::Operator(Operator::Colon), Lexeme::Operator(Operator::Equals)])
    );
}

#[test]
fn longest_match_double_equals() {
    assert_eq!(lex_all(b"=="), Ok(vec![Lexeme::Operator(Operator::DoubleEquals)]));
    assert_eq!(
        lex_all(b"= ="),
        Ok(vec![Lexeme::Operator(Operator::Equals), Lexeme::Operator(Operator::Equals)])
    );
    assert_eq!(
        lex_all(b"->,&&||!="),
        Ok(vec![
            Lexeme::Operator(Operator::Arrow),
            Lexeme::Operator(Operator::Comma),
            Lexeme::Operator(Operator::DoubleAmpersand),
            Lexeme::Operator(Operator::DoubleBar),
            Lexeme::Operator(Operator::ExclaimEquals),
        ])
    );
}

#[test]
fn string_literal_verbatim() {
    assert_eq!(
        lex_all(b"\"testcatcat\""),
        Ok(vec![Lexeme::StringLiteral("testcatcat".to_string())])
    );
    // no escape processing: a backslash stays a backslash
    assert_eq!(
        lex_all(b"\"a\\n\""),
        Ok(vec![Lexeme::StringLiteral("a\\n".to_string())])
    );
}

#[test]
fn unterminated_string_is_an_error() {
    assert_eq!(lex_all(b"\"abc"), Err(LexError::UnterminatedString));
}

#[test]
fn comment_runs_to_newline() {
    assert_eq!(
        lex_all(b"# anything *!( here\n7"),
        Ok(vec![Lexeme::Integer(7)])
    );
    assert_eq!(lex_all(b"1 # trailing\n+ 2"), lex_all(b"1 + 2"));
}

#[test]
fn comment_without_newline_is_an_error() {
    assert_eq!(lex_all(b"# no newline"), Err(LexError::UnterminatedComment));
}

#[test]
fn invalid_character_is_an_error() {
    assert_eq!(lex_all(b"$"), Err(LexError::InvalidCharacter(b'$')));
    // a zero byte before the end of the input is rejected, not end-of-input
    assert_eq!(lex_all(b"1\x002"), Err(LexError::InvalidCharacter(0)));
}

#[test]
fn invalid_operator_is_an_error() {
    // '|' alone spells no operator
    assert_eq!(lex_all(b"|"), Err(LexError::InvalidOperator));
}

#[test]
fn unicode_identifier_content_in_strings() {
    // the decoded text of a string literal is handed through as UTF-8
    let src = "\"caf\u{e9}\"".as_bytes().to_vec();
    let mut lexer = Lexer::new(src);
    assert_eq!(lexer.next(), Ok(Lexeme::StringLiteral("caf\u{e9}".to_string())));
    // invalid UTF-8 inside a string literal is rejected
    assert_eq!(lex_all(b"\"\xff\""), Err(LexError::InvalidEncoding));
}

#[test]
fn whitespace_is_skipped() {
    assert_eq!(
        lex_all(b"  \t\r\n 5 \n"),
        Ok(vec![Lexeme::Integer(5)])
    );
}
