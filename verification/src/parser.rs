//! The parser: recursive descent with one-token lookahead over the token
//! sequence, two binary-precedence levels, unary prefix signs and grouping
//! parentheses. It yields one spanned tree, or the first syntax error.

use vstd::prelude::*;

use crate::ast::{
    spec_ast_wf,
    Ast,
    Astkind,
    BinaryOperation,
    BinaryOperationKind,
    ParseError,
    UnaryOperation,
    UnaryOperationKind,
};
use crate::token::{Annotation, Token, TokenKind};

verus! {

/// The two binary-precedence levels: the additive operators `+ -`, and the
/// tighter-binding multiplicative operators `* /`.
#[derive(Debug, Clone, Copy, PartialEq, Eq)]
pub enum BinopLevel {
    AddSub,
    MulDiv,
}

/// Orders the grammar rules for termination: each rule passes control only to
/// rules of smaller rank at the same position, or moves past a token first.
pub open spec fn level_rank(level: BinopLevel) -> int {
    match level {
        BinopLevel::AddSub => 5,
        BinopLevel::MulDiv => 3,
    }
}

/// Which of the level's operators the token names, as a spanned operator tag;
/// any other token is `NotOperator`, the operator loop's normal exit signal.
pub open spec fn spec_binop_token(level: BinopLevel, tok: Token) -> Result<
    BinaryOperation,
    ParseError,
> {
    match level {
        BinopLevel::AddSub => match tok.value {
            TokenKind::Plus => Ok(Annotation { value: BinaryOperationKind::Add, loc: tok.loc }),
            TokenKind::Minus => Ok(Annotation { value: BinaryOperationKind::Sub, loc: tok.loc }),
            _ => Err(ParseError::NotOperator(tok)),
        },
        BinopLevel::MulDiv => match tok.value {
            TokenKind::Asterisk => Ok(
                Annotation { value: BinaryOperationKind::Mult, loc: tok.loc },
            ),
            TokenKind::Slash => Ok(Annotation { value: BinaryOperationKind::Div, loc: tok.loc }),
            _ => Err(ParseError::NotOperator(tok)),
        },
    }
}

/// Parses `Expr := Expr3` at `pos`: the grammar's entry point.
pub open spec fn spec_parse_expr(toks: Seq<Token>, pos: int) -> (Result<Ast, ParseError>, int)
    decreases toks.len() - pos, 6int,
{
    spec_parse_left_binop(toks, pos, BinopLevel::AddSub)
}

/// Parses one precedence level: a subexpression of the tighter level, then a
/// left-associative run of this level's operators, each followed by another
/// subexpression. The pair is the result and the position just after it.
pub open spec fn spec_parse_left_binop(toks: Seq<Token>, pos: int, level: BinopLevel) -> (Result<
    Ast,
    ParseError,
>, int)
    decreases toks.len() - pos, level_rank(level),
{
    let sub = if level is AddSub {
        spec_parse_left_binop(toks, pos, BinopLevel::MulDiv)
    } else {
        spec_parse_expr1(toks, pos)
    };
    match sub.0 {
        Err(e) => (Err(e), sub.1),
        Ok(e) => if pos <= sub.1 <= toks.len() {
            // the cursor moves forwards and stays within the tokens; this
            // bound keeps the recursion visibly well-founded
            spec_binop_loop(toks, sub.1, level, e)
        } else {
            (Ok(e), sub.1)
        },
    }
}

/// The operator loop of one precedence level: while the next token is one of
/// the level's operators, consume it and a following subexpression, and fold
/// the result leftwards into `e`. A token of any other kind, or the end of
/// the tokens, ends the loop without error.
pub open spec fn spec_binop_loop(toks: Seq<Token>, pos: int, level: BinopLevel, e: Ast) -> (Result<
    Ast,
    ParseError,
>, int)
    decreases toks.len() - pos, level_rank(level) - 1,
{
    if pos < 0 || pos >= toks.len() {
        (Ok(e), pos)
    } else {
        match spec_binop_token(level, toks[pos]) {
            Err(_) => (Ok(e), pos),
            Ok(op) => {
                let sub = if level is AddSub {
                    spec_parse_left_binop(toks, pos + 1, BinopLevel::MulDiv)
                } else {
                    spec_parse_expr1(toks, pos + 1)
                };
                match sub.0 {
                    Err(err) => (Err(err), sub.1),
                    Ok(right) => {
                        let combined = Annotation {
                            value: Astkind::BinaryOperation {
                                operation: op,
                                left: Box::new(e),
                                right: Box::new(right),
                            },
                            loc: e.loc.spec_merge(right.loc),
                        };
                        if pos < sub.1 <= toks.len() {
                            spec_binop_loop(toks, sub.1, level, combined)
                        } else {
                            (Ok(combined), sub.1)
                        }
                    },
                }
            },
        }
    }
}

/// Parses `Expr1 := ("+" | "-")? Atom`: at most one leading sign, whose span
/// is merged with the atom's into the node's span.
pub open spec fn spec_parse_expr1(toks: Seq<Token>, pos: int) -> (Result<Ast, ParseError>, int)
    decreases toks.len() - pos, 1int,
{
    if 0 <= pos < toks.len() && (toks[pos].value is Plus || toks[pos].value is Minus) {
        let op = if toks[pos].value is Plus {
            Annotation { value: UnaryOperationKind::Plus, loc: toks[pos].loc }
        } else {
            Annotation { value: UnaryOperationKind::Minus, loc: toks[pos].loc }
        };
        let sub = spec_parse_atom(toks, pos + 1);
        match sub.0 {
            Err(e) => (Err(e), sub.1),
            Ok(e) => (
                Ok(
                    Annotation {
                        value: Astkind::UnaryOperation { operation: op, expression: Box::new(e) },
                        loc: op.loc.spec_merge(e.loc),
                    },
                ),
                sub.1,
            ),
        }
    } else {
        spec_parse_atom(toks, pos)
    }
}

/// Parses `Atom := Number | "(" Expr ")"`. A number token becomes a leaf; an
/// opening parenthesis demands a full expression and then exactly a closing
/// parenthesis. Any other token is no expression, and no token at all is
/// `Eof`.
pub open spec fn spec_parse_atom(toks: Seq<Token>, pos: int) -> (Result<Ast, ParseError>, int)
    decreases toks.len() - pos, 0int,
{
    if pos < 0 || pos >= toks.len() {
        (Err(ParseError::Eof), pos)
    } else {
        let tok = toks[pos];
        match tok.value {
            TokenKind::Number(n) => (
                Ok(Annotation { value: Astkind::Number(n), loc: tok.loc }),
                pos + 1,
            ),
            TokenKind::Lparen => {
                let sub = spec_parse_expr(toks, pos + 1);
                match sub.0 {
                    Err(e) => (Err(e), sub.1),
                    Ok(e) => if sub.1 >= toks.len() {
                        (Err(ParseError::UnclosedOpenParen(tok)), sub.1)
                    } else if toks[sub.1].value is Rparen {
                        (Ok(e), sub.1 + 1)
                    } else {
                        (Err(ParseError::RedundantExpression(toks[sub.1])), sub.1 + 1)
                    },
                }
            },
            _ => (Err(ParseError::NotExpression(tok)), pos + 1),
        }
    }
}

/// What parsing a whole token sequence yields: the expression, provided every
/// token was consumed; a token left over after it is `RedundantExpression`.
pub open spec fn spec_parse(toks: Seq<Token>) -> Result<Ast, ParseError> {
    let r = spec_parse_expr(toks, 0);
    match r.0 {
        Err(e) => Err(e),
        Ok(ast) => if r.1 < toks.len() {
            Err(ParseError::RedundantExpression(toks[r.1]))
        } else {
            Ok(ast)
        },
    }
}

/// Recognizes an operator of `level` at `pos` without consuming it: the
/// spanned operator tag on a match, `NotOperator` otherwise, which the
/// operator loop absorbs as its exit signal.
fn parse_binop(tokens: &Vec<Token>, pos: usize, level: BinopLevel) -> (r: Result<
    BinaryOperation,
    ParseError,
>)
    requires
        pos < tokens@.len(),
    ensures
        r == spec_binop_token(level, tokens@[pos as int]),
{
    let tok = tokens[pos];
    match level {
        BinopLevel::AddSub => match tok.value {
            TokenKind::Plus => Ok(BinaryOperation::add(tok.loc)),
            TokenKind::Minus => Ok(BinaryOperation::sub(tok.loc)),
            _ => Err(ParseError::NotOperator(tok)),
        },
        BinopLevel::MulDiv => match tok.value {
            TokenKind::Asterisk => Ok(BinaryOperation::mult(tok.loc)),
            TokenKind::Slash => Ok(BinaryOperation::div(tok.loc)),
            _ => Err(ParseError::NotOperator(tok)),
        },
    }
}

/// Parses an atom at `pos` and returns it with the position just after it.
pub fn parse_atom(tokens: &Vec<Token>, pos: usize) -> (r: (Result<Ast, ParseError>, usize))
    requires
        pos <= tokens@.len(),
    ensures
        (r.0, r.1 as int) == spec_parse_atom(tokens@, pos as int),
        pos <= r.1 <= tokens@.len(),
        r.0 matches Ok(a) ==> spec_ast_wf(a),
    decreases tokens@.len() - pos, 0int,
{
    if pos >= tokens.len() {
        return (Err(ParseError::Eof), pos);
    }
    let tok = tokens[pos];
    match tok.value {
        TokenKind::Number(n) => (Ok(Ast::number(n, tok.loc)), pos + 1),
        TokenKind::Lparen => {
            let (r, p) = parse_expr(tokens, pos + 1);
            match r {
                Err(e) => (Err(e), p),
                Ok(e) => {
                    if p >= tokens.len() {
                        (Err(ParseError::UnclosedOpenParen(tok)), p)
                    } else {
                        let next = tokens[p];
                        match next.value {
                            TokenKind::Rparen => (Ok(e), p + 1),
                            _ => (Err(ParseError::RedundantExpression(next)), p + 1),
                        }
                    }
                },
            }
        },
        _ => (Err(ParseError::NotExpression(tok)), pos + 1),
    }
}

/// Parses an optionally signed atom at `pos`.
pub fn parse_expr1(tokens: &Vec<Token>, pos: usize) -> (r: (Result<Ast, ParseError>, usize))
    requires
        pos <= tokens@.len(),
    ensures
        (r.0, r.1 as int) == spec_parse_expr1(tokens@, pos as int),
        pos <= r.1 <= tokens@.len(),
        r.0 matches Ok(a) ==> spec_ast_wf(a),
    decreases tokens@.len() - pos, 1int,
{
    if pos < tokens.len() {
        let tok = tokens[pos];
        match tok.value {
            TokenKind::Plus | TokenKind::Minus => {
                let op = match tok.value {
                    TokenKind::Plus => UnaryOperation::plus(tok.loc),
                    _ => UnaryOperation::minus(tok.loc),
                };
                let (r, p) = parse_atom(tokens, pos + 1);
                match r {
                    Err(e) => (Err(e), p),
                    Ok(e) => {
                        let loc = op.loc.merge(&e.loc);
                        (Ok(Ast::unary_operation(op, e, loc)), p)
                    },
                }
            },
            _ => parse_atom(tokens, pos),
        }
    } else {
        parse_atom(tokens, pos)
    }
}

/// Parses one precedence level at `pos`: a subexpression of the tighter
/// level, then this level's left-associative operator loop. A token that is
/// no operator of the level ends the loop without error.
#[verifier::loop_isolation(false)]
pub fn parse_left_binop(tokens: &Vec<Token>, pos: usize, level: BinopLevel) -> (r: (Result<
    Ast,
    ParseError,
>, usize))
    requires
        pos <= tokens@.len(),
    ensures
        (r.0, r.1 as int) == spec_parse_left_binop(tokens@, pos as int, level),
        pos <= r.1 <= tokens@.len(),
        r.0 matches Ok(a) ==> spec_ast_wf(a),
    decreases tokens@.len() - pos, level_rank(level),
{
    let (first, p1) = match level {
        BinopLevel::AddSub => parse_expr2(tokens, pos),
        BinopLevel::MulDiv => parse_expr1(tokens, pos),
    };
    match first {
        Err(e) => (Err(e), p1),
        Ok(first_ast) => {
            let mut e = first_ast;
            let mut p = p1;
            loop
                invariant
                    pos <= p <= tokens@.len(),
                    spec_parse_left_binop(tokens@, pos as int, level) == spec_binop_loop(
                        tokens@,
                        p as int,
                        level,
                        e,
                    ),
                    spec_ast_wf(e),
                decreases tokens@.len() - p,
            {
                if p >= tokens.len() {
                    return (Ok(e), p);
                }
                match parse_binop(tokens, p, level) {
                    Err(_) => {
                        return (Ok(e), p);
                    },
                    Ok(op) => {
                        let (r2, p2) = match level {
                            BinopLevel::AddSub => parse_expr2(tokens, p + 1),
                            BinopLevel::MulDiv => parse_expr1(tokens, p + 1),
                        };
                        match r2 {
                            Err(err) => {
                                return (Err(err), p2);
                            },
                            Ok(right) => {
                                let loc = e.loc.merge(&right.loc);
                                e = Ast::binary_operation(op, e, right, loc);
                                p = p2;
                            },
                        }
                    },
                }
            }
        },
    }
}

/// Parses `Expr2 := Expr1 (("*" | "/") Expr1)*`: the multiplicative level.
pub fn parse_expr2(tokens: &Vec<Token>, pos: usize) -> (r: (Result<Ast, ParseError>, usize))
    requires
        pos <= tokens@.len(),
    ensures
        (r.0, r.1 as int) == spec_parse_left_binop(tokens@, pos as int, BinopLevel::MulDiv),
        pos <= r.1 <= tokens@.len(),
        r.0 matches Ok(a) ==> spec_ast_wf(a),
    decreases tokens@.len() - pos, 4int,
{
    parse_left_binop(tokens, pos, BinopLevel::MulDiv)
}

/// Parses `Expr3 := Expr2 (("+" | "-") Expr2)*`: the additive level.
pub fn parse_expr3(tokens: &Vec<Token>, pos: usize) -> (r: (Result<Ast, ParseError>, usize))
    requires
        pos <= tokens@.len(),
    ensures
        (r.0, r.1 as int) == spec_parse_left_binop(tokens@, pos as int, BinopLevel::AddSub),
        pos <= r.1 <= tokens@.len(),
        r.0 matches Ok(a) ==> spec_ast_wf(a),
    decreases tokens@.len() - pos, 6int,
{
    parse_left_binop(tokens, pos, BinopLevel::AddSub)
}

/// Parses `Expr := Expr3`: the grammar's entry point.
pub fn parse_expr(tokens: &Vec<Token>, pos: usize) -> (r: (Result<Ast, ParseError>, usize))
    requires
        pos <= tokens@.len(),
    ensures
        (r.0, r.1 as int) == spec_parse_expr(tokens@, pos as int),
        pos <= r.1 <= tokens@.len(),
        r.0 matches Ok(a) ==> spec_ast_wf(a),
    decreases tokens@.len() - pos, 7int,
{
    parse_expr3(tokens, pos)
}

/// Parses a whole token sequence into one expression tree. Exactly
/// `spec_parse` on the tokens; an `Ok` tree carries the span invariant: every
/// node's location is the merge of its parts' locations.
pub fn parse(tokens: Vec<Token>) -> (r: Result<Ast, ParseError>)
    ensures
        r == spec_parse(tokens@),
        r matches Ok(a) ==> spec_ast_wf(a),
{
    let (r0, p) = parse_expr(&tokens, 0);
    match r0 {
        Err(e) => Err(e),
        Ok(ast) => {
            if p < tokens.len() {
                Err(ParseError::RedundantExpression(tokens[p]))
            } else {
                Ok(ast)
            }
        },
    }
}

} // verus!
