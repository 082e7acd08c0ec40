//! The abstract syntax tree the parser produces, together with its
//! mathematical counterpart used in contracts, and the structural
//! predicates of the grammar (declaration shape, block shape).

use vstd::prelude::*;
use crate::tokens::Operator;

verus! {

/// An expression of the language. Every construct, statements included, is
/// an expression; statement sequences are right-leaning `Semicolon` chains;
/// a block always wraps exactly one expression (an empty block wraps
/// `Null`).
#[derive(Debug, PartialEq)]
pub enum Expression {
    Null,
    Integer(u64),
    Identifier(String),
    StringLiteral(String),
    BinaryOperation { op: Operator, lhs: Box<Expression>, rhs: Box<Expression> },
    UnaryOperation { op: Operator, operand: Box<Expression> },
    FunctionCall { function: Box<Expression>, args: Vec<Expression> },
    Return(Box<Expression>),
    Block(Box<Expression>),
    IfElse { condition: Box<Expression>, on_if: Box<Expression>, on_else: Box<Expression> },
    While { condition: Box<Expression>, body: Box<Expression> },
    Function { args: Vec<Expression>, return_type: Box<Expression>, body: Box<Expression> },
    Struct { fields: Vec<Expression> },
}

/// The mathematical counterpart of [`Expression`], with text as
/// `Seq<char>` and child lists as `Seq`.
pub enum GExpr {
    Null,
    Integer(u64),
    Identifier(Seq<char>),
    StringLiteral(Seq<char>),
    BinaryOperation { op: Operator, lhs: Box<GExpr>, rhs: Box<GExpr> },
    UnaryOperation { op: Operator, operand: Box<GExpr> },
    FunctionCall { function: Box<GExpr>, args: Seq<GExpr> },
    Return(Box<GExpr>),
    Block(Box<GExpr>),
    IfElse { condition: Box<GExpr>, on_if: Box<GExpr>, on_else: Box<GExpr> },
    While { condition: Box<GExpr>, body: Box<GExpr> },
    Function { args: Seq<GExpr>, return_type: Box<GExpr>, body: Box<GExpr> },
    Struct { fields: Seq<GExpr> },
}

/// The view of a list of expressions, element by element.
pub open spec fn view_exprs(s: Seq<Expression>) -> Seq<GExpr>
    decreases s,
{
    if s.len() == 0 {
        Seq::empty()
    } else {
        view_exprs(s.drop_last()).push(view_expr(s.last()))
    }
}

/// The view of an expression: the same tree over mathematical types.
pub open spec fn view_expr(e: Expression) -> GExpr
    decreases e,
{
    match e {
        Expression::Null => GExpr::Null,
        Expression::Integer(v) => GExpr::Integer(v),
        Expression::Identifier(s) => GExpr::Identifier(s@),
        Expression::StringLiteral(s) => GExpr::StringLiteral(s@),
        Expression::BinaryOperation { op, lhs, rhs } => GExpr::BinaryOperation {
            op: op,
            lhs: Box::new(view_expr(*lhs)),
            rhs: Box::new(view_expr(*rhs)),
        },
        Expression::UnaryOperation { op, operand } => GExpr::UnaryOperation {
            op: op,
            operand: Box::new(view_expr(*operand)),
        },
        Expression::FunctionCall { function, args } => GExpr::FunctionCall {
            function: Box::new(view_expr(*function)),
            args: view_exprs(args@),
        },
        Expression::Return(e1) => GExpr::Return(Box::new(view_expr(*e1))),
        Expression::Block(e1) => GExpr::Block(Box::new(view_expr(*e1))),
        Expression::IfElse { condition, on_if, on_else } => GExpr::IfElse {
            condition: Box::new(view_expr(*condition)),
            on_if: Box::new(view_expr(*on_if)),
            on_else: Box::new(view_expr(*on_else)),
        },
        Expression::While { condition, body } => GExpr::While {
            condition: Box::new(view_expr(*condition)),
            body: Box::new(view_expr(*body)),
        },
        Expression::Function { args, return_type, body } => GExpr::Function {
            args: view_exprs(args@),
            return_type: Box::new(view_expr(*return_type)),
            body: Box::new(view_expr(*body)),
        },
        Expression::Struct { fields } => GExpr::Struct { fields: view_exprs(fields@) },
    }
}

impl View for Expression {
    type V = GExpr;

    open spec fn view(&self) -> GExpr {
        view_expr(*self)
    }
}

/// Declaration shape: a `Colon`-tagged binary operation whose left child is
/// an identifier, read as "declare name of type". Struct fields and
/// function parameters must have this shape.
pub open spec fn spec_is_decl(e: GExpr) -> bool {
    match e {
        GExpr::BinaryOperation { op, lhs, .. } => op == Operator::Colon && (*lhs matches
            GExpr::Identifier(_)),
        _ => false,
    }
}

/// Block shape: `if`/`while`/function bodies must be blocks.
pub open spec fn spec_is_block(e: GExpr) -> bool {
    e matches GExpr::Block(_)
}

/// Executable mirror of [`spec_is_decl`].
pub fn is_decl(e: &Expression) -> (r: bool)
    ensures
        r == spec_is_decl(e@),
{
    match e {
        Expression::BinaryOperation { op, lhs, .. } => {
            proof {
                assert(e@ matches GExpr::BinaryOperation { op: o2, lhs: l2, .. } && o2 == *op
                    && *l2 == view_expr(**lhs));
            }
            if *op == Operator::Colon {
                match &**lhs {
                    Expression::Identifier(_) => true,
                    _ => false,
                }
            } else {
                false
            }
        },
        _ => false,
    }
}

/// Executable mirror of [`spec_is_block`].
pub fn is_block(e: &Expression) -> (r: bool)
    ensures
        r == spec_is_block(e@),
{
    match e {
        Expression::Block(_) => true,
        _ => false,
    }
}

} // verus!
