//! Parser-level behaviour: precedence, associativity, the block rules of
//! control flow, struct and function forms, and the parse errors.

use mud_frontend::{Expression, Keyword, Lexeme, Operator, ParseError, Parser};

fn parse(src: &[u8]) -> Result<Expression, ParseError> {
    let mut parser = Parser::new(src.to_vec());
    parser.parse()
}

fn num(v: u64) -> Expression {
    Expression::Integer(v)
}

fn ident(s: &str) -> Expression {
    Expression::Identifier(s.to_string())
}

fn bin(op: Operator, lhs: Expression, rhs: Expression) -> Expression {
    Expression::BinaryOperation { op, lhs: Box::new(lhs), rhs: Box::new(rhs) }
}

fn block(e: Expression) -> Expression {
    Expression::Block(Box::new(e))
}

fn decl(name: &str, ty: &str) -> Expression {
    bin(Operator::Colon, ident(name), ident(ty))
}

#[test]
fn empty_input_parses_to_null() {
    assert_eq!(parse(b""), Ok(Expression::Null));
    assert_eq!(parse(b"   \n\t"), Ok(Expression::Null));
}

#[test]
fn precedence_mul_binds_tighter_than_add() {
    assert_eq!(
        parse(b"1+2*3"),
        Ok(bin(Operator::Plus, num(1), bin(Operator::Asterisk, num(2), num(3))))
    );
    assert_eq!(
        parse(b"1*2+3*4"),
        Ok(bin(
            Operator::Plus,
            bin(Operator::Asterisk, num(1), num(2)),
            bin(Operator::Asterisk, num(3), num(4)),
        ))
    );
}

#[test]
fn subtraction_is_left_associative() {
    assert_eq!(
        parse(b"1-2-3"),
        Ok(bin(Operator::Minus, bin(Operator::Minus, num(1), num(2)), num(3)))
    );
}

#[test]
fn parentheses_group() {
    assert_eq!(
        parse(b"(1+2)*3"),
        Ok(bin(Operator::Asterisk, bin(Operator::Plus, num(1), num(2)), num(3)))
    );
}

#[test]
fn unary_operators_bind_a_term() {
    assert_eq!(
        parse(b"-1+2"),
        Ok(bin(
            Operator::Plus,
            Expression::UnaryOperation { op: Operator::Minus, operand: Box::new(num(1)) },
            num(2),
        ))
    );
    assert_eq!(
        parse(b"<x"),
        Ok(Expression::UnaryOperation { op: Operator::LessThan, operand: Box::new(ident("x")) })
    );
}

#[test]
fn if_without_block_fails() {
    assert_eq!(parse(b"if cond a"), Err(ParseError::ExpectedIfBlock));
}

#[test]
fn if_else_with_blocks() {
    assert_eq!(
        parse(b"if cond { a } else { b }"),
        Ok(Expression::IfElse {
            condition: Box::new(ident("cond")),
            on_if: Box::new(block(ident("a"))),
            on_else: Box::new(block(ident("b"))),
        })
    );
}

#[test]
fn if_without_else_defaults_to_null() {
    assert_eq!(
        parse(b"if c { a }"),
        Ok(Expression::IfElse {
            condition: Box::new(ident("c")),
            on_if: Box::new(block(ident("a"))),
            on_else: Box::new(Expression::Null),
        })
    );
}

#[test]
fn else_must_be_block_or_chained_if() {
    assert_eq!(parse(b"if c { a } else b"), Err(ParseError::ExpectedElseBlock));
    let chained = parse(b"if c { a } else if d { b } else { e }");
    assert!(chained.is_ok());
}

#[test]
fn struct_with_two_fields() {
    assert_eq!(
        parse(b"struct { x: int, y: int }"),
        Ok(Expression::Struct { fields: vec![decl("x", "int"), decl("y", "int")] })
    );
}

#[test]
fn struct_missing_comma_fails() {
    assert_eq!(
        parse(b"struct { x: int y: int }"),
        Err(ParseError::ExpectedOperator {
            expected: Operator::Comma,
            got: Lexeme::Identifier("y".to_string()),
        })
    );
}

#[test]
fn empty_struct_is_permitted() {
    assert_eq!(parse(b"struct {}"), Ok(Expression::Struct { fields: vec![] }));
}

#[test]
fn struct_field_must_be_declaration() {
    assert_eq!(parse(b"struct { 1+2 }"), Err(ParseError::MalformedStructField));
}

#[test]
fn function_form() {
    assert_eq!(
        parse(b"fn(x: int) -> int { return x }"),
        Ok(Expression::Function {
            args: vec![decl("x", "int")],
            return_type: Box::new(ident("int")),
            body: Box::new(block(Expression::Return(Box::new(ident("x"))))),
        })
    );
}

#[test]
fn function_body_must_be_block() {
    assert_eq!(parse(b"fn() -> int 3"), Err(ParseError::ExpectedFunctionBlock));
}

#[test]
fn function_parameter_must_be_declaration() {
    assert_eq!(parse(b"fn(3) -> int { 0 }"), Err(ParseError::MalformedParameter));
}

#[test]
fn while_body_must_be_block() {
    assert_eq!(
        parse(b"while x { y }"),
        Ok(Expression::While {
            condition: Box::new(ident("x")),
            body: Box::new(block(ident("y"))),
        })
    );
    assert_eq!(parse(b"while x y"), Err(ParseError::ExpectedWhileBlock));
}

#[test]
fn function_call_arguments() {
    assert_eq!(
        parse(b"f(1, 2)"),
        Ok(Expression::FunctionCall {
            function: Box::new(ident("f")),
            args: vec![num(1), num(2)],
        })
    );
    assert_eq!(
        parse(b"f()"),
        Ok(Expression::FunctionCall { function: Box::new(ident("f")), args: vec![] })
    );
}

#[test]
fn empty_block_wraps_null() {
    assert_eq!(parse(b"{}"), Ok(block(Expression::Null)));
    assert_eq!(parse(b"{ 5 }"), Ok(block(num(5))));
}

#[test]
fn unclosed_groupings_fail() {
    assert_eq!(parse(b"(1+2"), Err(ParseError::UnclosedParenthesis));
    assert_eq!(parse(b"{1"), Err(ParseError::UnclosedBrace));
}

#[test]
fn trailing_token_fails() {
    assert_eq!(
        parse(b"1 2"),
        Err(ParseError::TrailingToken(Lexeme::Integer(2)))
    );
}

#[test]
fn lex_error_propagates_through_parse() {
    assert_eq!(
        parse(b"1+$"),
        Err(ParseError::Lexical(mud_frontend::LexError::InvalidCharacter(b'$')))
    );
}

#[test]
fn string_literals_are_terms() {
    assert_eq!(
        parse(b"x = \"cat\""),
        Ok(bin(
            Operator::Equals,
            ident("x"),
            Expression::StringLiteral("cat".to_string()),
        ))
    );
}

#[test]
fn comment_line_has_no_effect_on_the_ast() {
    assert_eq!(parse(b"# a comment ;*!\n1+2*3"), parse(b"1+2*3"));
    assert_eq!(parse(b"x := 1"), parse(b"# leading note\nx := 1"));
}

#[test]
fn dot_binds_tightest() {
    assert_eq!(
        parse(b"a.b*c"),
        Ok(bin(
            Operator::Asterisk,
            bin(Operator::Dot, ident("a"), ident("b")),
            ident("c"),
        ))
    );
}

#[test]
fn comparison_and_logic_levels() {
    // `a < b && c == d` groups as `(a < b) && (c == d)`
    assert_eq!(
        parse(b"a < b && c == d"),
        Ok(bin(
            Operator::DoubleAmpersand,
            bin(Operator::LessThan, ident("a"), ident("b")),
            bin(Operator::DoubleEquals, ident("c"), ident("d")),
        ))
    );
    // `||` binds looser than `&&`
    assert_eq!(
        parse(b"a && b || c"),
        Ok(bin(
            Operator::DoubleBar,
            bin(Operator::DoubleAmpersand, ident("a"), ident("b")),
            ident("c"),
        ))
    );
}

#[test]
fn assignment_level_groups_statements() {
    assert_eq!(
        parse(b"x := 1; y = 2"),
        Ok(bin(
            Operator::Semicolon,
            bin(Operator::ColonEquals, ident("x"), num(1)),
            bin(Operator::Equals, ident("y"), num(2)),
        ))
    );
}

#[test]
fn else_at_end_of_input_defaults_to_null() {
    // the alternate of a bare trailing `else` parses as Null, which the
    // else rule accepts
    assert_eq!(
        parse(b"if c { a } else"),
        Ok(Expression::IfElse {
            condition: Box::new(ident("c")),
            on_if: Box::new(block(ident("a"))),
            on_else: Box::new(Expression::Null),
        })
    );
}

#[test]
fn missing_comma_in_call_arguments_fails() {
    assert_eq!(
        parse(b"f(1 2)"),
        Err(ParseError::ExpectedOperator {
            expected: Operator::Comma,
            got: Lexeme::Integer(2),
        })
    );
    assert_eq!(
        parse(b"f(1,"),
        Err(ParseError::ExpectedOperator {
            expected: Operator::Comma,
            got: Lexeme::Eof,
        })
    );
}

#[test]
fn keyword_else_cannot_start_a_term() {
    assert_eq!(
        parse(b"else"),
        Err(ParseError::ExpectedTerm(Lexeme::Keyword(Keyword::Else)))
    );
}
