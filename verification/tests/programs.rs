//! Whole-program parses in the shape of the language's test programs: a
//! statement sequence, an if/else, and function definition plus call.

use mud_frontend::{Expression, Operator, Parser};

fn parse(src: &[u8]) -> Result<Expression, mud_frontend::ParseError> {
    let mut parser = Parser::new(src.to_vec());
    parser.parse()
}

#[test]
fn sequence() {
    // statements chain through the loosest-binding semicolon operator,
    // folded left-associatively like every binary level
    let ast = parse(b"a := 1;\nb := 2;\nc := a + b").unwrap();
    match &ast {
        Expression::BinaryOperation { op, lhs, .. } => {
            assert_eq!(*op, Operator::Semicolon);
            match &**lhs {
                Expression::BinaryOperation { op: inner, .. } => {
                    assert_eq!(*inner, Operator::Semicolon);
                },
                other => panic!("expected a semicolon chain, got {:?}", other),
            }
        },
        other => panic!("expected a semicolon chain, got {:?}", other),
    }
}

#[test]
fn run_if_else() {
    let ast = parse(b"a := 1;\nif a == 1 { <1 } else { <2 }").unwrap();
    match &ast {
        Expression::BinaryOperation { op, rhs, .. } => {
            assert_eq!(*op, Operator::Semicolon);
            assert!(matches!(&**rhs, Expression::IfElse { .. }));
        },
        other => panic!("expected a sequence ending in if/else, got {:?}", other),
    }
}

#[test]
fn run_functions() {
    // the parenthesis keeps the function body's expression from
    // consuming the following semicolon chain
    let ast = parse(b"f := (fn(x: int) -> int { return x * 2 });\n<f(21)").unwrap();
    match &ast {
        Expression::BinaryOperation { op, lhs, .. } => {
            assert_eq!(*op, Operator::Semicolon);
            match &**lhs {
                Expression::BinaryOperation { op: assign, rhs: fun, .. } => {
                    assert_eq!(*assign, Operator::ColonEquals);
                    assert!(matches!(&**fun, Expression::Function { .. }));
                },
                other => panic!("expected a function binding, got {:?}", other),
            }
        },
        other => panic!("expected a sequence, got {:?}", other),
    }
}
