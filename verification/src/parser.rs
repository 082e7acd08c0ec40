//! The parser: drives the lexer with one token of lookahead and builds the
//! syntax tree by recursive descent with precedence climbing. Every method
//! returns exactly what the corresponding grammar function computes on the
//! input's token stream.

use vstd::prelude::*;
use crate::ast::{is_block, is_decl, Expression};
use crate::grammar::{
    rem, sp_binop, sp_binop_rest, sp_call_args, sp_expression, sp_fn_args, sp_function,
    sp_ifelse, sp_parse, sp_struct, sp_struct_fields, sp_term, sp_while, spec_is_valid_else,
    GParseError, ParseError,
};
use crate::ast::view_exprs;
use crate::lexer::Lexer;
use crate::stream::{
    cur, cursor_from, lemma_cursor_bounds, lemma_pulls_snoc, lemma_stream_pull, pull, pulls_ok,
    token_stream, TokenStream,
};
use crate::tokens::{precedence_of, Keyword, Lexeme, Operator, Token, MAX_PRECEDENCE};

verus! {

/// Executable mirror of [`spec_is_valid_else`].
fn is_valid_else(e: &Expression) -> (r: bool)
    ensures
        r == spec_is_valid_else(e@),
{
    match e {
        Expression::IfElse { .. } => true,
        Expression::Null => true,
        Expression::Block(_) => true,
        _ => false,
    }
}

/// The parser: a lexer and one buffered lookahead lexeme. The ghost
/// counter records how many lexemes have been pulled, tying the concrete
/// state to a position in the input's token stream.
pub struct Parser {
    lexer: Lexer,
    lexeme: Lexeme,
    pulls: Ghost<int>,
}

impl Parser {
    /// The input byte sequence.
    pub closed spec fn input(self) -> Seq<u8> {
        self.lexer.input()
    }

    /// The token stream of the input.
    pub open spec fn stream(self) -> TokenStream {
        token_stream(self.input())
    }

    /// How many lexemes have been pulled from the lexer.
    pub closed spec fn pulled(self) -> int {
        self.pulls@
    }

    /// Well-formedness: every pull so far succeeded, the lexer's cursor
    /// sits exactly after the pulled tokens, and the buffered lookahead is
    /// the last pulled token.
    pub closed spec fn wf(self) -> bool {
        &&& self.lexer.wf()
        &&& self.pulls@ >= 0
        &&& pulls_ok(self.input(), 0, self.pulls@)
        &&& self.lexer.cursor() == cursor_from(self.input(), 0, self.pulls@)
        &&& self.lexeme@ == cur(self.stream(), self.pulls@)
    }

    pub fn new(program: Vec<u8>) -> (r: Parser)
        ensures
            r.wf(),
            r.input() == program@,
            r.pulled() == 0,
    {
        let r = Parser { lexer: Lexer::new(program), lexeme: Lexeme::Eof, pulls: Ghost(0) };
        proof {
            assert(pulls_ok(r.input(), 0, 0));
            assert(cursor_from(r.input(), 0, 0) == 0);
            assert(pull(r.stream(), -1) == Ok::<Token, crate::tokens::LexError>(Token::End));
        }
        r
    }

    /// Returns the buffered lookahead and replaces it with the next lexeme
    /// pulled from the lexer, propagating lex errors.
    fn advance(&mut self) -> (r: Result<Lexeme, ParseError>)
        requires
            old(self).wf(),
        ensures
            final(self).input() == old(self).input(),
            (match pull(old(self).stream(), old(self).pulled()) {
                Ok(_) => {
                    &&& r matches Ok(l) && l@ == cur(old(self).stream(), old(self).pulled())
                    &&& final(self).wf()
                    &&& final(self).pulled() == old(self).pulled() + 1
                },
                Err(e) => r matches Err(pe) && pe@ == GParseError::Lexical(e),
            }),
    {
        let ghost p = self.input();
        let ghost k = self.pulls@;
        proof {
            lemma_cursor_bounds(p, 0, k);
            lemma_stream_pull(p, 0, k);
            lemma_pulls_snoc(p, 0, k);
        }
        match self.lexer.next() {
            Ok(l) => {
                let mut taken = l;
                core::mem::swap(&mut self.lexeme, &mut taken);
                proof {
                    self.pulls@ = k + 1;
                }
                Ok(taken)
            },
            Err(e) => Err(ParseError::Lexical(e)),
        }
    }

    /// Takes the buffered lookahead out to report it in an error; the
    /// parser is discarded afterwards.
    fn take_lexeme(&mut self) -> (r: Lexeme)
        ensures
            r@ == old(self).lexeme@,
            final(self).input() == old(self).input(),
    {
        let mut tmp = Lexeme::Eof;
        core::mem::swap(&mut self.lexeme, &mut tmp);
        tmp
    }

    /// Parses one whole program: one expression, which the end of the
    /// input must follow.
    pub fn parse(&mut self) -> (r: Result<Expression, ParseError>)
        requires
            old(self).wf(),
        ensures
            final(self).input() == old(self).input(),
            (match sp_parse(old(self).stream(), old(self).pulled()) {
                Ok(g) => r matches Ok(e) && e@ == g && final(self).wf(),
                Err(ge) => r matches Err(pe) && pe@ == ge,
            }),
    {
        match self.advance() {
            Err(e) => {
                return Err(e);
            },
            Ok(_) => {},
        }
        let expr = match self.expression() {
            Ok(e) => e,
            Err(e) => {
                return Err(e);
            },
        };
        match &self.lexeme {
            Lexeme::Eof => Ok(expr),
            _ => {
                let got = self.take_lexeme();
                Err(ParseError::TrailingToken(got))
            },
        }
    }

    /// One full expression: precedence climbing from the loosest level.
    fn expression(&mut self) -> (r: Result<Expression, ParseError>)
        requires
            old(self).wf(),
        ensures
            final(self).input() == old(self).input(),
            (match sp_expression(old(self).stream(), old(self).pulled()) {
                Ok(ek) => {
                    &&& r matches Ok(e) && e@ == ek.0
                    &&& final(self).wf()
                    &&& final(self).pulled() == ek.1
                    &&& old(self).pulled() < ek.1
                },
                Err(pe) => r matches Err(e2) && e2@ == pe,
            }),
        decreases rem(old(self).stream(), old(self).pulled()), 21int,
    {
        self.binary_operation(MAX_PRECEDENCE)
    }

    /// Precedence climbing: parse the tighter level for the left operand,
    /// then fold operands left-associatively while the lookahead is an
    /// operator of exactly this level.
    fn binary_operation(&mut self, precedence: u8) -> (r: Result<Expression, ParseError>)
        requires
            old(self).wf(),
            precedence <= 9,
        ensures
            final(self).input() == old(self).input(),
            (match sp_binop(old(self).stream(), old(self).pulled(), precedence as int) {
                Ok(ek) => {
                    &&& r matches Ok(e) && e@ == ek.0
                    &&& final(self).wf()
                    &&& final(self).pulled() == ek.1
                    &&& old(self).pulled() < ek.1
                },
                Err(pe) => r matches Err(e2) && e2@ == pe,
            }),
        decreases rem(old(self).stream(), old(self).pulled()), 2 * (precedence as int) + 2,
    {
        let ghost s = self.stream();
        let ghost k0 = self.pulls@;
        if precedence == 0 {
            return self.term();
        }
        let mut expr = match self.binary_operation(precedence - 1) {
            Ok(e) => e,
            Err(e) => {
                return Err(e);
            },
        };
        loop
            invariant
                self.wf(),
                self.input() == old(self).input(),
                s == old(self).stream(),
                k0 == old(self).pulled(),
                1 <= precedence <= 9,
                k0 < self.pulls@,
                sp_binop_rest(s, self.pulls@, precedence as int, expr@) == sp_binop(
                    s,
                    k0,
                    precedence as int,
                ),
            ensures
                self.wf(),
                self.input() == old(self).input(),
                k0 < self.pulls@,
                sp_binop(s, k0, precedence as int) == Ok::<(crate::ast::GExpr, int), GParseError>(
                    (expr@, self.pulls@),
                ),
            decreases rem(s, self.pulls@),
        {
            let op = match &self.lexeme {
                Lexeme::Operator(o) => *o,
                _ => {
                    break ;
                },
            };
            let goes_here = match precedence_of(op) {
                Some(q) => q == precedence,
                None => false,
            };
            if !goes_here {
                break ;
            }
            match self.advance() {
                Err(e) => {
                    return Err(e);
                },
                Ok(_) => {},
            }
            let rhs = match self.binary_operation(precedence - 1) {
                Ok(e) => e,
                Err(e) => {
                    return Err(e);
                },
            };
            expr = Expression::BinaryOperation { op, lhs: Box::new(expr), rhs: Box::new(rhs) };
        }
        Ok(expr)
    }

    /// One term, with the function-call suffix.
    fn term(&mut self) -> (r: Result<Expression, ParseError>)
        requires
            old(self).wf(),
        ensures
            final(self).input() == old(self).input(),
            (match sp_term(old(self).stream(), old(self).pulled()) {
                Ok(ek) => {
                    &&& r matches Ok(e) && e@ == ek.0
                    &&& final(self).wf()
                    &&& final(self).pulled() == ek.1
                    &&& old(self).pulled() < ek.1
                },
                Err(pe) => r matches Err(e2) && e2@ == pe,
            }),
        decreases rem(old(self).stream(), old(self).pulled()), 0int,
    {
        let ghost s = self.stream();
        let ghost k0 = self.pulls@;
        let t = match self.advance() {
            Ok(l) => l,
            Err(e) => {
                return Err(e);
            },
        };
        let prim: Result<Expression, ParseError> = match t {
            Lexeme::Integer(v) => Ok(Expression::Integer(v)),
            Lexeme::Identifier(nm) => Ok(Expression::Identifier(nm)),
            Lexeme::StringLiteral(sv) => Ok(Expression::StringLiteral(sv)),
            Lexeme::Operator(op) => match op {
                Operator::Minus => self.unary(op),
                Operator::Asterisk => self.unary(op),
                Operator::Exclaim => self.unary(op),
                Operator::Ampersand => self.unary(op),
                Operator::LessThan => self.unary(op),
                Operator::OpenParenthesis => self.paren(),
                Operator::OpenBrace => self.brace(),
                _ => Err(ParseError::ExpectedTerm(Lexeme::Operator(op))),
            },
            Lexeme::Keyword(kw) => match kw {
                Keyword::If => self.ifelse(),
                Keyword::While => self.while_loop(),
                Keyword::Struct => self.struct_expression(),
                Keyword::Function => self.function(),
                Keyword::Return => match self.expression() {
                    Ok(e) => Ok(Expression::Return(Box::new(e))),
                    Err(e) => Err(e),
                },
                Keyword::Else => Err(ParseError::ExpectedTerm(Lexeme::Keyword(kw))),
            },
            Lexeme::Eof => Ok(Expression::Null),
        };
        match prim {
            Err(e) => Err(e),
            Ok(e0) => {
                let suffix = match &self.lexeme {
                    Lexeme::Operator(Operator::OpenParenthesis) => true,
                    _ => false,
                };
                if suffix {
                    match self.advance() {
                        Err(e) => {
                            return Err(e);
                        },
                        Ok(_) => {},
                    }
                    self.call_args(e0)
                } else {
                    Ok(e0)
                }
            },
        }
    }

    /// A unary operation: the operator binds one following term.
    fn unary(&mut self, op: Operator) -> (r: Result<Expression, ParseError>)
        requires
            old(self).wf(),
        ensures
            final(self).input() == old(self).input(),
            (match crate::grammar::sp_unary(old(self).stream(), old(self).pulled(), op) {
                Ok(ek) => {
                    &&& r matches Ok(e) && e@ == ek.0
                    &&& final(self).wf()
                    &&& final(self).pulled() == ek.1
                    &&& old(self).pulled() < ek.1
                },
                Err(pe) => r matches Err(e2) && e2@ == pe,
            }),
        decreases rem(old(self).stream(), old(self).pulled()), 1int,
    {
        match self.term() {
            Ok(e) => Ok(Expression::UnaryOperation { op, operand: Box::new(e) }),
            Err(e) => Err(e),
        }
    }

    /// A parenthesised expression, after `(` is consumed.
    fn paren(&mut self) -> (r: Result<Expression, ParseError>)
        requires
            old(self).wf(),
        ensures
            final(self).input() == old(self).input(),
            (match crate::grammar::sp_paren(old(self).stream(), old(self).pulled()) {
                Ok(ek) => {
                    &&& r matches Ok(e) && e@ == ek.0
                    &&& final(self).wf()
                    &&& final(self).pulled() == ek.1
                    &&& old(self).pulled() < ek.1
                },
                Err(pe) => r matches Err(e2) && e2@ == pe,
            }),
        decreases rem(old(self).stream(), old(self).pulled()), 22int,
    {
        let e = match self.expression() {
            Ok(e) => e,
            Err(er) => {
                return Err(er);
            },
        };
        match &self.lexeme {
            Lexeme::Operator(Operator::CloseParenthesis) => {
                match self.advance() {
                    Err(er) => Err(er),
                    Ok(_) => Ok(e),
                }
            },
            _ => Err(ParseError::UnclosedParenthesis),
        }
    }

    /// A block, after `{` is consumed.
    fn brace(&mut self) -> (r: Result<Expression, ParseError>)
        requires
            old(self).wf(),
        ensures
            final(self).input() == old(self).input(),
            (match crate::grammar::sp_brace(old(self).stream(), old(self).pulled()) {
                Ok(ek) => {
                    &&& r matches Ok(e) && e@ == ek.0
                    &&& final(self).wf()
                    &&& final(self).pulled() == ek.1
                    &&& old(self).pulled() < ek.1
                },
                Err(pe) => r matches Err(e2) && e2@ == pe,
            }),
        decreases rem(old(self).stream(), old(self).pulled()), 22int,
    {
        let empty = match &self.lexeme {
            Lexeme::Operator(Operator::CloseBrace) => true,
            _ => false,
        };
        if empty {
            match self.advance() {
                Err(er) => {
                    return Err(er);
                },
                Ok(_) => {},
            }
            proof {
                assert(Expression::Null@ == crate::ast::GExpr::Null);
                assert(Expression::Block(Box::new(Expression::Null))@ == crate::ast::GExpr::Block(
                    Box::new(crate::ast::GExpr::Null),
                ));
            }
            return Ok(Expression::Block(Box::new(Expression::Null)));
        }
        let e = match self.expression() {
            Ok(e) => e,
            Err(er) => {
                return Err(er);
            },
        };
        match &self.lexeme {
            Lexeme::Operator(Operator::CloseBrace) => {
                match self.advance() {
                    Err(er) => Err(er),
                    Ok(_) => Ok(Expression::Block(Box::new(e))),
                }
            },
            _ => Err(ParseError::UnclosedBrace),
        }
    }

    /// If/else, after `if` is consumed.
    fn ifelse(&mut self) -> (r: Result<Expression, ParseError>)
        requires
            old(self).wf(),
        ensures
            final(self).input() == old(self).input(),
            (match sp_ifelse(old(self).stream(), old(self).pulled()) {
                Ok(ek) => {
                    &&& r matches Ok(e) && e@ == ek.0
                    &&& final(self).wf()
                    &&& final(self).pulled() == ek.1
                    &&& old(self).pulled() < ek.1
                },
                Err(pe) => r matches Err(e2) && e2@ == pe,
            }),
        decreases rem(old(self).stream(), old(self).pulled()), 23int,
    {
        let condition = match self.expression() {
            Ok(e) => e,
            Err(e) => {
                return Err(e);
            },
        };
        let on_if = match self.expression() {
            Ok(e) => e,
            Err(e) => {
                return Err(e);
            },
        };
        let has_else = match &self.lexeme {
            Lexeme::Keyword(Keyword::Else) => true,
            _ => false,
        };
        let on_else = if has_else {
            match self.advance() {
                Err(e) => {
                    return Err(e);
                },
                Ok(_) => {},
            }
            match self.expression() {
                Ok(e) => e,
                Err(e) => {
                    return Err(e);
                },
            }
        } else {
            Expression::Null
        };
        if !is_block(&on_if) {
            return Err(ParseError::ExpectedIfBlock);
        }
        if !is_valid_else(&on_else) {
            return Err(ParseError::ExpectedElseBlock);
        }
        Ok(
            Expression::IfElse {
                condition: Box::new(condition),
                on_if: Box::new(on_if),
                on_else: Box::new(on_else),
            },
        )
    }

    /// While, after `while` is consumed.
    fn while_loop(&mut self) -> (r: Result<Expression, ParseError>)
        requires
            old(self).wf(),
        ensures
            final(self).input() == old(self).input(),
            (match sp_while(old(self).stream(), old(self).pulled()) {
                Ok(ek) => {
                    &&& r matches Ok(e) && e@ == ek.0
                    &&& final(self).wf()
                    &&& final(self).pulled() == ek.1
                    &&& old(self).pulled() < ek.1
                },
                Err(pe) => r matches Err(e2) && e2@ == pe,
            }),
        decreases rem(old(self).stream(), old(self).pulled()), 23int,
    {
        let condition = match self.expression() {
            Ok(e) => e,
            Err(e) => {
                return Err(e);
            },
        };
        let body = match self.expression() {
            Ok(e) => e,
            Err(e) => {
                return Err(e);
            },
        };
        if !is_block(&body) {
            return Err(ParseError::ExpectedWhileBlock);
        }
        Ok(Expression::While { condition: Box::new(condition), body: Box::new(body) })
    }

    /// A struct expression, after `struct` is consumed: a brace-delimited,
    /// comma-separated list of declaration-shaped fields.
    fn struct_expression(&mut self) -> (r: Result<Expression, ParseError>)
        requires
            old(self).wf(),
        ensures
            final(self).input() == old(self).input(),
            (match sp_struct(old(self).stream(), old(self).pulled()) {
                Ok(ek) => {
                    &&& r matches Ok(e) && e@ == ek.0
                    &&& final(self).wf()
                    &&& final(self).pulled() == ek.1
                    &&& old(self).pulled() < ek.1
                },
                Err(pe) => r matches Err(e2) && e2@ == pe,
            }),
        decreases rem(old(self).stream(), old(self).pulled()), 23int,
    {
        let ghost s = self.stream();
        let ghost k0 = self.pulls@;
        let open = match &self.lexeme {
            Lexeme::Operator(Operator::OpenBrace) => true,
            _ => false,
        };
        if !open {
            let got = self.take_lexeme();
            return Err(ParseError::ExpectedOperator { expected: Operator::OpenBrace, got });
        }
        match self.advance() {
            Err(e) => {
                return Err(e);
            },
            Ok(_) => {},
        }
        let ghost kstart = self.pulls@;
        let mut fields: Vec<Expression> = Vec::new();
        loop
            invariant
                self.wf(),
                self.input() == old(self).input(),
                s == old(self).stream(),
                kstart <= self.pulls@,
                k0 < self.pulls@,
                sp_struct_fields(s, self.pulls@, view_exprs(fields@)) == sp_struct_fields(
                    s,
                    kstart,
                    Seq::<crate::ast::GExpr>::empty(),
                ),
                fields@.len() == view_exprs(fields@).len(),
                k0 == old(self).pulled(),
                kstart == k0 + 1,
                cur(s, k0) == Token::Op(Operator::OpenBrace),
                pull(s, k0) is Ok,
            decreases rem(s, self.pulls@), (if fields@.len() == 0 { 1int } else { 0int }),
        {
            let ghost kbeg = self.pulls@;
            let close = match &self.lexeme {
                Lexeme::Operator(Operator::CloseBrace) => true,
                _ => false,
            };
            if close {
                match self.advance() {
                    Err(e) => {
                        return Err(e);
                    },
                    Ok(_) => {},
                }
                let res = Expression::Struct { fields };
                proof {
                    assert(res@ == crate::ast::GExpr::Struct { fields: view_exprs(res->fields@) });
                }
                return Ok(res);
            }
            if fields.len() != 0 {
                let comma = match &self.lexeme {
                    Lexeme::Operator(Operator::Comma) => true,
                    _ => false,
                };
                if !comma {
                    let got = self.take_lexeme();
                    return Err(ParseError::ExpectedOperator { expected: Operator::Comma, got });
                }
                match self.advance() {
                    Err(e) => {
                        return Err(e);
                    },
                    Ok(_) => {},
                }
            }
            let ghost kit = self.pulls@;
            let field = match self.expression() {
                Ok(e) => e,
                Err(e) => {
                    return Err(e);
                },
            };
            if !is_decl(&field) {
                return Err(ParseError::MalformedStructField);
            }
            let ghost old_fields = fields@;
            fields.push(field);
            proof {
                assert(fields@.drop_last() =~= old_fields);
                assert(view_exprs(fields@) == view_exprs(old_fields).push(fields@.last()@));
                if kit - 1 >= s.toks.len() {
                    // impossible: an expression parsed past the end is Null
                    // or fails, and the field has declaration shape
                    crate::grammar::lemma_sp_expression_beyond(s, kit);
                }
                assert(sp_struct_fields(s, kbeg, view_exprs(old_fields)) == sp_struct_fields(
                    s,
                    self.pulls@,
                    view_exprs(fields@),
                ));
            }
        }
    }

    /// A function expression, after `fn` is consumed: parameter list,
    /// `->`, return type, then a block body.
    fn function(&mut self) -> (r: Result<Expression, ParseError>)
        requires
            old(self).wf(),
        ensures
            final(self).input() == old(self).input(),
            (match sp_function(old(self).stream(), old(self).pulled()) {
                Ok(ek) => {
                    &&& r matches Ok(e) && e@ == ek.0
                    &&& final(self).wf()
                    &&& final(self).pulled() == ek.1
                    &&& old(self).pulled() < ek.1
                },
                Err(pe) => r matches Err(e2) && e2@ == pe,
            }),
        decreases rem(old(self).stream(), old(self).pulled()), 23int,
    {
        let ghost s = self.stream();
        let ghost k0 = self.pulls@;
        let open = match &self.lexeme {
            Lexeme::Operator(Operator::OpenParenthesis) => true,
            _ => false,
        };
        if !open {
            let got = self.take_lexeme();
            return Err(ParseError::ExpectedOperator { expected: Operator::OpenParenthesis, got });
        }
        match self.advance() {
            Err(e) => {
                return Err(e);
            },
            Ok(_) => {},
        }
        let ghost kstart = self.pulls@;
        let mut args: Vec<Expression> = Vec::new();
        loop
            invariant_except_break
                sp_fn_args(s, self.pulls@, view_exprs(args@)) == sp_fn_args(
                    s,
                    kstart,
                    Seq::<crate::ast::GExpr>::empty(),
                ),
            invariant
                self.wf(),
                self.input() == old(self).input(),
                s == old(self).stream(),
                kstart <= self.pulls@,
                k0 < self.pulls@,
                args@.len() == view_exprs(args@).len(),
                k0 == old(self).pulled(),
                kstart == k0 + 1,
                cur(s, k0) == Token::Op(Operator::OpenParenthesis),
                pull(s, k0) is Ok,
            ensures
                self.wf(),
                self.input() == old(self).input(),
                k0 < self.pulls@,
                sp_fn_args(s, kstart, Seq::<crate::ast::GExpr>::empty()) == Ok::<
                    (Seq<crate::ast::GExpr>, int),
                    GParseError,
                >((view_exprs(args@), self.pulls@)),
            decreases rem(s, self.pulls@), (if args@.len() == 0 { 1int } else { 0int }),
        {
            let ghost kbeg = self.pulls@;
            let close = match &self.lexeme {
                Lexeme::Operator(Operator::CloseParenthesis) => true,
                _ => false,
            };
            if close {
                match self.advance() {
                    Err(e) => {
                        return Err(e);
                    },
                    Ok(_) => {},
                }
                break ;
            }
            if args.len() != 0 {
                let comma = match &self.lexeme {
                    Lexeme::Operator(Operator::Comma) => true,
                    _ => false,
                };
                if !comma {
                    let got = self.take_lexeme();
                    return Err(ParseError::ExpectedOperator { expected: Operator::Comma, got });
                }
                match self.advance() {
                    Err(e) => {
                        return Err(e);
                    },
                    Ok(_) => {},
                }
            }
            let ghost kit = self.pulls@;
            let arg = match self.expression() {
                Ok(e) => e,
                Err(e) => {
                    return Err(e);
                },
            };
            if !is_decl(&arg) {
                return Err(ParseError::MalformedParameter);
            }
            let ghost old_args = args@;
            args.push(arg);
            proof {
                assert(args@.drop_last() =~= old_args);
                assert(view_exprs(args@) == view_exprs(old_args).push(args@.last()@));
                if kit - 1 >= s.toks.len() {
                    // impossible: an expression parsed past the end is Null
                    // or fails, and the parameter has declaration shape
                    crate::grammar::lemma_sp_expression_beyond(s, kit);
                }
                assert(sp_fn_args(s, kbeg, view_exprs(old_args)) == sp_fn_args(
                    s,
                    self.pulls@,
                    view_exprs(args@),
                ));
            }
        }
        let arrow = match &self.lexeme {
            Lexeme::Operator(Operator::Arrow) => true,
            _ => false,
        };
        if !arrow {
            let got = self.take_lexeme();
            return Err(ParseError::ExpectedOperator { expected: Operator::Arrow, got });
        }
        match self.advance() {
            Err(e) => {
                return Err(e);
            },
            Ok(_) => {},
        }
        let return_type = match self.expression() {
            Ok(e) => e,
            Err(e) => {
                return Err(e);
            },
        };
        let body = match self.expression() {
            Ok(e) => e,
            Err(e) => {
                return Err(e);
            },
        };
        if !is_block(&body) {
            return Err(ParseError::ExpectedFunctionBlock);
        }
        Ok(
            Expression::Function {
                args,
                return_type: Box::new(return_type),
                body: Box::new(body),
            },
        )
    }

    /// The argument list of a function call, after the callee and its
    /// opening parenthesis are consumed.
    fn call_args(&mut self, f: Expression) -> (r: Result<Expression, ParseError>)
        requires
            old(self).wf(),
        ensures
            final(self).input() == old(self).input(),
            (match sp_call_args(
                old(self).stream(),
                old(self).pulled(),
                f@,
                Seq::<crate::ast::GExpr>::empty(),
            ) {
                Ok(ek) => {
                    &&& r matches Ok(e) && e@ == ek.0
                    &&& final(self).wf()
                    &&& final(self).pulled() == ek.1
                    &&& old(self).pulled() < ek.1
                },
                Err(pe) => r matches Err(e2) && e2@ == pe,
            }),
        decreases rem(old(self).stream(), old(self).pulled()), 22int,
    {
        let ghost s = self.stream();
        let ghost k0 = self.pulls@;
        let ghost fv = f@;
        let mut args: Vec<Expression> = Vec::new();
        loop
            invariant
                self.wf(),
                self.input() == old(self).input(),
                s == old(self).stream(),
                k0 <= self.pulls@,
                sp_call_args(s, self.pulls@, fv, view_exprs(args@)) == sp_call_args(
                    s,
                    k0,
                    fv,
                    Seq::<crate::ast::GExpr>::empty(),
                ),
                args@.len() == view_exprs(args@).len(),
                k0 == old(self).pulled(),
                fv == f@,
            decreases rem(s, self.pulls@), (if args@.len() == 0 { 1int } else { 0int }),
        {
            let ghost kbeg = self.pulls@;
            let close = match &self.lexeme {
                Lexeme::Operator(Operator::CloseParenthesis) => true,
                _ => false,
            };
            if close {
                match self.advance() {
                    Err(e) => {
                        return Err(e);
                    },
                    Ok(_) => {},
                }
                let res = Expression::FunctionCall { function: Box::new(f), args };
                proof {
                    assert(res@ matches crate::ast::GExpr::FunctionCall { function: fb, args: ab }
                        && *fb == fv && ab == view_exprs(res->FunctionCall_args@));
                }
                return Ok(res);
            }
            if args.len() != 0 {
                let comma = match &self.lexeme {
                    Lexeme::Operator(Operator::Comma) => true,
                    _ => false,
                };
                if !comma {
                    let got = self.take_lexeme();
                    return Err(ParseError::ExpectedOperator { expected: Operator::Comma, got });
                }
                match self.advance() {
                    Err(e) => {
                        return Err(e);
                    },
                    Ok(_) => {},
                }
            }
            let a = match self.expression() {
                Ok(e) => e,
                Err(e) => {
                    return Err(e);
                },
            };
            let ghost old_args = args@;
            args.push(a);
            proof {
                assert(args@.drop_last() =~= old_args);
                assert(view_exprs(args@) == view_exprs(old_args).push(args@.last()@));
                assert(sp_call_args(s, kbeg, fv, view_exprs(old_args)) == sp_call_args(
                    s,
                    self.pulls@,
                    fv,
                    view_exprs(args@),
                ));
            }
        }
    }
}

} // verus!
