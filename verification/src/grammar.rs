//! The grammar, as a mathematical recursive-descent parser over a token
//! stream. These functions fix what the executable parser must produce:
//! its contracts state that it returns exactly what they compute.
//!
//! A state is the number `k` of tokens pulled so far; the lookahead of a
//! state is `cur(s, k)`, and consuming it means moving to `k + 1`, which
//! fails if fetching the next lookahead fails in the lexer.
//!
//! Termination is measured by `rem`, the number of stream tokens not yet
//! pulled. A handful of branches compare `rem` values before recursing;
//! a sub-parse never moves the cursor backwards, so these comparisons are
//! always true and only discharge the termination check.

use vstd::prelude::*;
use crate::ast::{spec_is_block, spec_is_decl, GExpr};
use crate::stream::{cur, pull, TokenStream};
use crate::tokens::{spec_precedence, Keyword, LexError, Lexeme, Operator, Token};

verus! {

/// Everything that can go wrong while parsing.
#[derive(Debug, PartialEq)]
pub enum ParseError {
    /// A lex error met while fetching the next token.
    Lexical(LexError),
    /// A specific operator was required; carries it and the actual lexeme.
    ExpectedOperator { expected: Operator, got: Lexeme },
    /// A lexeme that no term can start with.
    ExpectedTerm(Lexeme),
    /// A complete expression was parsed but input remains.
    TrailingToken(Lexeme),
    /// A parenthesised expression without its closing parenthesis.
    UnclosedParenthesis,
    /// A brace block without its closing brace.
    UnclosedBrace,
    /// The consequent of an `if` was not a block.
    ExpectedIfBlock,
    /// The alternate of an `else` was neither an if-else chain, a block,
    /// nor absent.
    ExpectedElseBlock,
    /// The body of a `while` was not a block.
    ExpectedWhileBlock,
    /// The body of a function was not a block.
    ExpectedFunctionBlock,
    /// A struct field without declaration shape.
    MalformedStructField,
    /// A function parameter without declaration shape.
    MalformedParameter,
}

/// The mathematical counterpart of [`ParseError`], with [`Token`] payloads.
pub enum GParseError {
    Lexical(LexError),
    ExpectedOperator { expected: Operator, got: Token },
    ExpectedTerm(Token),
    TrailingToken(Token),
    UnclosedParenthesis,
    UnclosedBrace,
    ExpectedIfBlock,
    ExpectedElseBlock,
    ExpectedWhileBlock,
    ExpectedFunctionBlock,
    MalformedStructField,
    MalformedParameter,
}

impl View for ParseError {
    type V = GParseError;

    open spec fn view(&self) -> GParseError {
        match self {
            ParseError::Lexical(e) => GParseError::Lexical(*e),
            ParseError::ExpectedOperator { expected, got } => GParseError::ExpectedOperator {
                expected: *expected,
                got: got@,
            },
            ParseError::ExpectedTerm(l) => GParseError::ExpectedTerm(l@),
            ParseError::TrailingToken(l) => GParseError::TrailingToken(l@),
            ParseError::UnclosedParenthesis => GParseError::UnclosedParenthesis,
            ParseError::UnclosedBrace => GParseError::UnclosedBrace,
            ParseError::ExpectedIfBlock => GParseError::ExpectedIfBlock,
            ParseError::ExpectedElseBlock => GParseError::ExpectedElseBlock,
            ParseError::ExpectedWhileBlock => GParseError::ExpectedWhileBlock,
            ParseError::ExpectedFunctionBlock => GParseError::ExpectedFunctionBlock,
            ParseError::MalformedStructField => GParseError::MalformedStructField,
            ParseError::MalformedParameter => GParseError::MalformedParameter,
        }
    }
}

/// Tokens of the stream not yet pulled after `k` pulls, clamped at zero:
/// the termination measure of the grammar.
pub open spec fn rem(s: TokenStream, k: int) -> int {
    if s.toks.len() + 1 - k >= 0 {
        s.toks.len() + 1 - k
    } else {
        0
    }
}

/// A valid alternate of an `else`: a chained if-else, absent, or a block.
pub open spec fn spec_is_valid_else(e: GExpr) -> bool {
    ||| e matches GExpr::IfElse { .. }
    ||| e matches GExpr::Null
    ||| spec_is_block(e)
}

/// One term: consume the lookahead and dispatch on it; then, if a `(`
/// follows the parsed term, reinterpret it as a callee and parse the
/// argument list.
pub open spec fn sp_term(s: TokenStream, k: int) -> Result<(GExpr, int), GParseError>
    decreases rem(s, k), 0int, 0int,
{
    let t = cur(s, k);
    match pull(s, k) {
        Err(e) => Err(GParseError::Lexical(e)),
        Ok(_) => {
            let k1 = k + 1;
            let prim: Result<(GExpr, int), GParseError> = match t {
                Token::Int(v) => Ok((GExpr::Integer(v), k1)),
                Token::Ident(nm) => Ok((GExpr::Identifier(nm), k1)),
                Token::StrLit(sv) => Ok((GExpr::StringLiteral(sv), k1)),
                Token::Op(op) => match op {
                    Operator::Minus => sp_unary(s, k1, op),  // negation
                    Operator::Asterisk => sp_unary(s, k1, op),  // dereference
                    Operator::Exclaim => sp_unary(s, k1, op),  // logical not
                    Operator::Ampersand => sp_unary(s, k1, op),  // address-of
                    Operator::LessThan => sp_unary(s, k1, op),  // print
                    Operator::OpenParenthesis => sp_paren(s, k1),
                    Operator::OpenBrace => sp_brace(s, k1),
                    _ => Err(GParseError::ExpectedTerm(t)),
                },
                Token::Key(kw) => match kw {
                    Keyword::If => sp_ifelse(s, k1),
                    Keyword::While => sp_while(s, k1),
                    Keyword::Struct => sp_struct(s, k1),
                    Keyword::Function => sp_function(s, k1),
                    Keyword::Return => match sp_expression(s, k1) {
                        Ok((e, k2)) => Ok((GExpr::Return(Box::new(e)), k2)),
                        Err(e) => Err(e),
                    },
                    Keyword::Else => Err(GParseError::ExpectedTerm(t)),
                },
                Token::End => Ok((GExpr::Null, k1)),
            };
            match prim {
                Err(e) => Err(e),
                Ok((e0, kp)) => {
                    if cur(s, kp) matches Token::Op(Operator::OpenParenthesis) {
                        if rem(s, kp) <= rem(s, k) {
                            match pull(s, kp) {
                                Err(e) => Err(GParseError::Lexical(e)),
                                Ok(_) => sp_call_args(s, kp + 1, e0, Seq::empty()),
                            }
                        } else {
                            Err(GParseError::UnclosedParenthesis)  // never reached: a sub-parse cannot move the cursor back; see the module note on termination
                        }
                    } else {
                        Ok((e0, kp))
                    }
                },
            }
        },
    }
}

/// A unary operation: the operator binds one following term.
pub open spec fn sp_unary(s: TokenStream, k: int, op: Operator) -> Result<
    (GExpr, int),
    GParseError,
>
    decreases rem(s, k), 0int, 1int,
{
    match sp_term(s, k) {
        Ok((e, k2)) => Ok((GExpr::UnaryOperation { op, operand: Box::new(e) }, k2)),
        Err(e) => Err(e),
    }
}

/// Precedence climbing at one level: after the left operand, fold further
/// operands left-associatively while the lookahead is an operator of
/// exactly this level.
pub open spec fn sp_binop_rest(s: TokenStream, k: int, p: int, lhs: GExpr) -> Result<
    (GExpr, int),
    GParseError,
>
    decreases rem(s, k), 0int, 2 * p + 1,
        when p >= 1
{
    match cur(s, k) {
        Token::Op(op) => match spec_precedence(op) {
            Some(q) => if q as int == p {
                match pull(s, k) {
                    Err(e) => Err(GParseError::Lexical(e)),
                    Ok(_) => match sp_binop(s, k + 1, p - 1) {
                        Err(e) => Err(e),
                        Ok((rhs, k2)) => {
                            let folded = GExpr::BinaryOperation {
                                op,
                                lhs: Box::new(lhs),
                                rhs: Box::new(rhs),
                            };
                            if rem(s, k2) < rem(s, k) {
                                sp_binop_rest(s, k2, p, folded)
                            } else {
                                Ok((folded, k2))  // never reached: a sub-parse cannot move the cursor back; see the module note on termination
                            }
                        },
                    },
                }
            } else {
                Ok((lhs, k))
            },
            None => Ok((lhs, k)),
        },
        _ => Ok((lhs, k)),
    }
}

/// Precedence climbing: level 0 is a term; otherwise parse the tighter
/// level for the left operand and fold at this level.
pub open spec fn sp_binop(s: TokenStream, k: int, p: int) -> Result<(GExpr, int), GParseError>
    decreases rem(s, k), 0int, 2 * p + 2,
        when p >= 0
{
    if p <= 0 {
        sp_term(s, k)
    } else {
        match sp_binop(s, k, p - 1) {
            Err(e) => Err(e),
            Ok((lhs, k1)) => {
                if rem(s, k1) <= rem(s, k) {
                    sp_binop_rest(s, k1, p, lhs)
                } else {
                    Ok((lhs, k1))  // never reached: a sub-parse cannot move the cursor back; see the module note on termination
                }
            },
        }
    }
}

/// A full expression: precedence climbing from the loosest level.
pub open spec fn sp_expression(s: TokenStream, k: int) -> Result<(GExpr, int), GParseError>
    decreases rem(s, k), 0int, 21int,
{
    sp_binop(s, k, 9)
}

/// A parenthesised expression: the inner expression, then `)`.
pub open spec fn sp_paren(s: TokenStream, k: int) -> Result<(GExpr, int), GParseError>
    decreases rem(s, k), 0int, 22int,
{
    match sp_expression(s, k) {
        Err(e) => Err(e),
        Ok((e, k2)) => {
            if cur(s, k2) matches Token::Op(Operator::CloseParenthesis) {
                match pull(s, k2) {
                    Err(le) => Err(GParseError::Lexical(le)),
                    Ok(_) => Ok((e, k2 + 1)),
                }
            } else {
                Err(GParseError::UnclosedParenthesis)
            }
        },
    }
}

/// A block: `{}` wraps `Null`, otherwise one inner expression, then `}`.
pub open spec fn sp_brace(s: TokenStream, k: int) -> Result<(GExpr, int), GParseError>
    decreases rem(s, k), 0int, 22int,
{
    if cur(s, k) matches Token::Op(Operator::CloseBrace) {
        match pull(s, k) {
            Err(le) => Err(GParseError::Lexical(le)),
            Ok(_) => Ok((GExpr::Block(Box::new(GExpr::Null)), k + 1)),
        }
    } else {
        match sp_expression(s, k) {
            Err(e) => Err(e),
            Ok((e, k2)) => {
                if cur(s, k2) matches Token::Op(Operator::CloseBrace) {
                    match pull(s, k2) {
                        Err(le) => Err(GParseError::Lexical(le)),
                        Ok(_) => Ok((GExpr::Block(Box::new(e)), k2 + 1)),
                    }
                } else {
                    Err(GParseError::UnclosedBrace)
                }
            },
        }
    }
}

/// If/else, after `if` is consumed: condition, then a consequent that must
/// be a block, then optionally `else` with an alternate that must be a
/// chained if-else, absent, or a block.
pub open spec fn sp_ifelse(s: TokenStream, k: int) -> Result<(GExpr, int), GParseError>
    decreases rem(s, k), 0int, 23int,
{
    match sp_expression(s, k) {
        Err(e) => Err(e),
        Ok((condition, kc)) => {
            if rem(s, kc) <= rem(s, k) {
                match sp_expression(s, kc) {
                    Err(e) => Err(e),
                    Ok((on_if, ki)) => {
                        let alt: Result<(GExpr, int), GParseError> = if cur(s, ki) matches
                            Token::Key(Keyword::Else) {
                            match pull(s, ki) {
                                Err(le) => Err(GParseError::Lexical(le)),
                                Ok(_) => {
                                    if rem(s, ki + 1) <= rem(s, k) {
                                        sp_expression(s, ki + 1)
                                    } else {
                                        Err(GParseError::ExpectedElseBlock)  // never reached: a sub-parse cannot move the cursor back; see the module note on termination
                                    }
                                },
                            }
                        } else {
                            Ok((GExpr::Null, ki))
                        };
                        match alt {
                            Err(e) => Err(e),
                            Ok((on_else, ke)) => {
                                if !spec_is_block(on_if) {
                                    Err(GParseError::ExpectedIfBlock)
                                } else if !spec_is_valid_else(on_else) {
                                    Err(GParseError::ExpectedElseBlock)
                                } else {
                                    Ok(
                                        (
                                            GExpr::IfElse {
                                                condition: Box::new(condition),
                                                on_if: Box::new(on_if),
                                                on_else: Box::new(on_else),
                                            },
                                            ke,
                                        ),
                                    )
                                }
                            },
                        }
                    },
                }
            } else {
                Err(GParseError::ExpectedIfBlock)  // never reached: a sub-parse cannot move the cursor back; see the module note on termination
            }
        },
    }
}

/// While, after `while` is consumed: condition, then a body that must be
/// a block.
pub open spec fn sp_while(s: TokenStream, k: int) -> Result<(GExpr, int), GParseError>
    decreases rem(s, k), 0int, 23int,
{
    match sp_expression(s, k) {
        Err(e) => Err(e),
        Ok((condition, kc)) => {
            if rem(s, kc) <= rem(s, k) {
                match sp_expression(s, kc) {
                    Err(e) => Err(e),
                    Ok((body, kb)) => {
                        if spec_is_block(body) {
                            Ok(
                                (
                                    GExpr::While {
                                        condition: Box::new(condition),
                                        body: Box::new(body),
                                    },
                                    kb,
                                ),
                            )
                        } else {
                            Err(GParseError::ExpectedWhileBlock)
                        }
                    },
                }
            } else {
                Err(GParseError::ExpectedWhileBlock)  // never reached: a sub-parse cannot move the cursor back; see the module note on termination
            }
        },
    }
}

/// The comma-separated, brace-delimited field list of a struct; every
/// field must have declaration shape; no trailing comma; empty permitted.
pub open spec fn sp_struct_fields(s: TokenStream, k: int, fields: Seq<GExpr>) -> Result<
    (GExpr, int),
    GParseError,
>
    decreases rem(s, k), 0int, 22int,
{
    if cur(s, k) matches Token::Op(Operator::CloseBrace) {
        match pull(s, k) {
            Err(le) => Err(GParseError::Lexical(le)),
            Ok(_) => Ok((GExpr::Struct { fields }, k + 1)),
        }
    } else {
        let step: Result<int, GParseError> = if fields.len() > 0 {
            if cur(s, k) matches Token::Op(Operator::Comma) {
                match pull(s, k) {
                    Err(le) => Err(GParseError::Lexical(le)),
                    Ok(_) => Ok(k + 1),
                }
            } else {
                Err(
                    GParseError::ExpectedOperator {
                        expected: Operator::Comma,
                        got: cur(s, k),
                    },
                )
            }
        } else {
            Ok(k)
        };
        match step {
            Err(e) => Err(e),
            Ok(k1) => match sp_expression(s, k1) {
                Err(e) => Err(e),
                Ok((f, k2)) => {
                    if !spec_is_decl(f) {
                        Err(GParseError::MalformedStructField)
                    } else if rem(s, k2) < rem(s, k) {
                        sp_struct_fields(s, k2, fields.push(f))
                    } else {
                        Err(GParseError::MalformedStructField)  // never reached: a sub-parse cannot move the cursor back; see the module note on termination
                    }
                },
            },
        }
    }
}

/// A struct expression, after `struct` is consumed: `{`, then the fields.
pub open spec fn sp_struct(s: TokenStream, k: int) -> Result<(GExpr, int), GParseError>
    decreases rem(s, k), 0int, 23int,
{
    if cur(s, k) matches Token::Op(Operator::OpenBrace) {
        match pull(s, k) {
            Err(le) => Err(GParseError::Lexical(le)),
            Ok(_) => sp_struct_fields(s, k + 1, Seq::empty()),
        }
    } else {
        Err(GParseError::ExpectedOperator { expected: Operator::OpenBrace, got: cur(s, k) })
    }
}

/// The comma-separated, parenthesis-delimited parameter list of a
/// function; every parameter must have declaration shape.
pub open spec fn sp_fn_args(s: TokenStream, k: int, args: Seq<GExpr>) -> Result<
    (Seq<GExpr>, int),
    GParseError,
>
    decreases rem(s, k), 0int, 22int,
{
    if cur(s, k) matches Token::Op(Operator::CloseParenthesis) {
        match pull(s, k) {
            Err(le) => Err(GParseError::Lexical(le)),
            Ok(_) => Ok((args, k + 1)),
        }
    } else {
        let step: Result<int, GParseError> = if args.len() > 0 {
            if cur(s, k) matches Token::Op(Operator::Comma) {
                match pull(s, k) {
                    Err(le) => Err(GParseError::Lexical(le)),
                    Ok(_) => Ok(k + 1),
                }
            } else {
                Err(
                    GParseError::ExpectedOperator {
                        expected: Operator::Comma,
                        got: cur(s, k),
                    },
                )
            }
        } else {
            Ok(k)
        };
        match step {
            Err(e) => Err(e),
            Ok(k1) => match sp_expression(s, k1) {
                Err(e) => Err(e),
                Ok((a, k2)) => {
                    if !spec_is_decl(a) {
                        Err(GParseError::MalformedParameter)
                    } else if rem(s, k2) < rem(s, k) {
                        sp_fn_args(s, k2, args.push(a))
                    } else {
                        Err(GParseError::MalformedParameter)  // never reached: a sub-parse cannot move the cursor back; see the module note on termination
                    }
                },
            },
        }
    }
}

/// A function expression, after `fn` is consumed: the parameter list,
/// `->`, a return-type expression, then a body that must be a block.
pub open spec fn sp_function(s: TokenStream, k: int) -> Result<(GExpr, int), GParseError>
    decreases rem(s, k), 0int, 23int,
{
    if !(cur(s, k) matches Token::Op(Operator::OpenParenthesis)) {
        Err(GParseError::ExpectedOperator { expected: Operator::OpenParenthesis, got: cur(s, k) })
    } else {
        match pull(s, k) {
            Err(le) => Err(GParseError::Lexical(le)),
            Ok(_) => match sp_fn_args(s, k + 1, Seq::empty()) {
                Err(e) => Err(e),
                Ok((args, ka)) => {
                    if !(cur(s, ka) matches Token::Op(Operator::Arrow)) {
                        Err(
                            GParseError::ExpectedOperator {
                                expected: Operator::Arrow,
                                got: cur(s, ka),
                            },
                        )
                    } else {
                        match pull(s, ka) {
                            Err(le) => Err(GParseError::Lexical(le)),
                            Ok(_) => {
                                if rem(s, ka + 1) <= rem(s, k) {
                                    match sp_expression(s, ka + 1) {
                                        Err(e) => Err(e),
                                        Ok((rt, kr)) => {
                                            if rem(s, kr) <= rem(s, k) {
                                                match sp_expression(s, kr) {
                                                    Err(e) => Err(e),
                                                    Ok((body, kb)) => {
                                                        if spec_is_block(body) {
                                                            Ok(
                                                                (
                                                                    GExpr::Function {
                                                                        args,
                                                                        return_type: Box::new(rt),
                                                                        body: Box::new(body),
                                                                    },
                                                                    kb,
                                                                ),
                                                            )
                                                        } else {
                                                            Err(GParseError::ExpectedFunctionBlock)
                                                        }
                                                    },
                                                }
                                            } else {
                                                Err(GParseError::ExpectedFunctionBlock)  // never reached: a sub-parse cannot move the cursor back; see the module note on termination
                                            }
                                        },
                                    }
                                } else {
                                    Err(GParseError::ExpectedFunctionBlock)  // never reached: a sub-parse cannot move the cursor back; see the module note on termination
                                }
                            },
                        }
                    }
                },
            },
        }
    }
}

/// The comma-separated argument list of a function call, after the
/// opening parenthesis is consumed; empty permitted, no trailing comma.
pub open spec fn sp_call_args(s: TokenStream, k: int, f: GExpr, args: Seq<GExpr>) -> Result<
    (GExpr, int),
    GParseError,
>
    decreases rem(s, k), (if args.len() == 0 { 1int } else { 0int }), 22int,
{
    if cur(s, k) matches Token::Op(Operator::CloseParenthesis) {
        match pull(s, k) {
            Err(le) => Err(GParseError::Lexical(le)),
            Ok(_) => Ok((GExpr::FunctionCall { function: Box::new(f), args }, k + 1)),
        }
    } else {
        let step: Result<int, GParseError> = if args.len() > 0 {
            if cur(s, k) matches Token::Op(Operator::Comma) {
                match pull(s, k) {
                    Err(le) => Err(GParseError::Lexical(le)),
                    Ok(_) => Ok(k + 1),
                }
            } else {
                Err(
                    GParseError::ExpectedOperator {
                        expected: Operator::Comma,
                        got: cur(s, k),
                    },
                )
            }
        } else {
            Ok(k)
        };
        match step {
            Err(e) => Err(e),
            Ok(k1) => match sp_expression(s, k1) {
                Err(e) => Err(e),
                Ok((a, k2)) => {
                    if (args.len() == 0 && rem(s, k2) <= rem(s, k)) || rem(s, k2) < rem(s, k) {
                        sp_call_args(s, k2, f, args.push(a))
                    } else {
                        Err(GParseError::UnclosedParenthesis)  // never reached: a sub-parse cannot move the cursor back; see the module note on termination
                    }
                },
            },
        }
    }
}

/// A whole program, parsed from the state `k`: prime the lookahead, parse
/// one expression, and require the input to be exhausted. A fresh parser
/// starts at `k == 0`.
pub open spec fn sp_parse(s: TokenStream, k: int) -> Result<GExpr, GParseError> {
    match pull(s, k) {
        Err(e) => Err(GParseError::Lexical(e)),
        Ok(_) => match sp_expression(s, k + 1) {
            Err(e) => Err(e),
            Ok((e, k2)) => {
                if cur(s, k2) is End {
                    Ok(e)
                } else {
                    Err(GParseError::TrailingToken(cur(s, k2)))
                }
            },
        },
    }
}

/// Past the end of the stream a term is `Null` (or the stream's error):
/// every pull yields `End` or the error, and `Null` has no call suffix.
pub proof fn lemma_sp_term_beyond(s: TokenStream, k: int)
    requires
        k >= 1,
        k - 1 >= s.toks.len(),
    ensures
        (match s.err {
            None => sp_term(s, k) == Ok::<(GExpr, int), GParseError>((GExpr::Null, k + 1)),
            Some(e) => sp_term(s, k) == Err::<(GExpr, int), GParseError>(GParseError::Lexical(e)),
        }),
{
}

/// Past the end of the stream, precedence climbing at any level yields
/// what a term yields.
pub proof fn lemma_sp_binop_beyond(s: TokenStream, k: int, p: int)
    requires
        k >= 1,
        k - 1 >= s.toks.len(),
        0 <= p <= 9,
    ensures
        (match s.err {
            None => sp_binop(s, k, p) == Ok::<(GExpr, int), GParseError>((GExpr::Null, k + 1)),
            Some(e) => sp_binop(s, k, p) == Err::<(GExpr, int), GParseError>(
                GParseError::Lexical(e),
            ),
        }),
    decreases p,
{
    lemma_sp_term_beyond(s, k);
    if p > 0 {
        lemma_sp_binop_beyond(s, k, p - 1);
        assert(cur(s, k + 1) is End);
        if s.err is None {
            assert(sp_binop_rest(s, k + 1, p, GExpr::Null) == Ok::<(GExpr, int), GParseError>(
                (GExpr::Null, k + 1),
            ));
        }
    }
}

/// Past the end of the stream an expression is `Null` (or the stream's
/// error).
pub proof fn lemma_sp_expression_beyond(s: TokenStream, k: int)
    requires
        k >= 1,
        k - 1 >= s.toks.len(),
    ensures
        (match s.err {
            None => sp_expression(s, k) == Ok::<(GExpr, int), GParseError>((GExpr::Null, k + 1)),
            Some(e) => sp_expression(s, k) == Err::<(GExpr, int), GParseError>(
                GParseError::Lexical(e),
            ),
        }),
{
    lemma_sp_binop_beyond(s, k, 9);
}

} // verus!
