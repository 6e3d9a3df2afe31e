//! The abstract syntax tree of parsed expressions, and the parser's errors.

use vstd::prelude::*;

use crate::token::{Annotation, Location, Token};

verus! {

/// The shapes an expression can take.
#[allow(inconsistent_fields)]
#[derive(Debug, PartialEq, Eq, Hash)]
pub enum Astkind {
    /// A number literal.
    Number(u64),
    /// A prefix sign applied to an expression.
    UnaryOperation { operation: UnaryOperation, expression: Box<Ast> },
    /// An infix operator applied to two expressions.
    BinaryOperation { operation: BinaryOperation, left: Box<Ast>, right: Box<Ast> },
}

pub type Ast = Annotation<Astkind>;

/// A node's location is the merge of its parts' locations, all the way down.
/// The parser establishes this at construction and never mutates a node.
pub open spec fn spec_ast_wf(a: Ast) -> bool
    decreases a,
{
    match a.value {
        Astkind::Number(_) => true,
        Astkind::UnaryOperation { operation, expression } => {
            &&& a.loc == operation.loc.spec_merge((*expression).loc)
            &&& spec_ast_wf(*expression)
        },
        Astkind::BinaryOperation { operation, left, right } => {
            &&& a.loc == (*left).loc.spec_merge((*right).loc)
            &&& spec_ast_wf(*left)
            &&& spec_ast_wf(*right)
        },
    }
}

impl Ast {
    pub fn number(n: u64, loc: Location) -> (r: Self)
        ensures
            r == (Annotation { value: Astkind::Number(n), loc }),
    {
        Self::new(Astkind::Number(n), loc)
    }

    pub fn unary_operation(operation: UnaryOperation, expression: Ast, loc: Location) -> (r: Self)
        ensures
            r == (Annotation {
                value: Astkind::UnaryOperation { operation, expression: Box::new(expression) },
                loc,
            }),
    {
        Self::new(Astkind::UnaryOperation { operation, expression: Box::new(expression) }, loc)
    }

    pub fn binary_operation(operation: BinaryOperation, left: Ast, right: Ast, loc: Location) -> (r:
        Self)
        ensures
            r == (Annotation {
                value: Astkind::BinaryOperation {
                    operation,
                    left: Box::new(left),
                    right: Box::new(right),
                },
                loc,
            }),
    {
        Self::new(
            Astkind::BinaryOperation { operation, left: Box::new(left), right: Box::new(right) },
            loc,
        )
    }
}

/// The prefix signs.
#[derive(Debug, Clone, Copy, PartialEq, Eq, Hash)]
pub enum UnaryOperationKind {
    Plus,
    Minus,
}

pub type UnaryOperation = Annotation<UnaryOperationKind>;

impl UnaryOperation {
    pub fn plus(loc: Location) -> (r: Self)
        ensures
            r == (Annotation { value: UnaryOperationKind::Plus, loc }),
    {
        Self::new(UnaryOperationKind::Plus, loc)
    }

    pub fn minus(loc: Location) -> (r: Self)
        ensures
            r == (Annotation { value: UnaryOperationKind::Minus, loc }),
    {
        Self::new(UnaryOperationKind::Minus, loc)
    }
}

/// The infix operators.
#[derive(Debug, Clone, Copy, PartialEq, Eq, Hash)]
pub enum BinaryOperationKind {
    Add,
    Sub,
    Mult,
    Div,
}

pub type BinaryOperation = Annotation<BinaryOperationKind>;

impl BinaryOperation {
    pub fn add(loc: Location) -> (r: Self)
        ensures
            r == (Annotation { value: BinaryOperationKind::Add, loc }),
    {
        Self::new(BinaryOperationKind::Add, loc)
    }

    pub fn sub(loc: Location) -> (r: Self)
        ensures
            r == (Annotation { value: BinaryOperationKind::Sub, loc }),
    {
        Self::new(BinaryOperationKind::Sub, loc)
    }

    pub fn mult(loc: Location) -> (r: Self)
        ensures
            r == (Annotation { value: BinaryOperationKind::Mult, loc }),
    {
        Self::new(BinaryOperationKind::Mult, loc)
    }

    pub fn div(loc: Location) -> (r: Self)
        ensures
            r == (Annotation { value: BinaryOperationKind::Div, loc }),
    {
        Self::new(BinaryOperationKind::Div, loc)
    }
}

/// The ways parsing can fail.
#[derive(Debug, Clone, Copy, PartialEq, Eq, Hash)]
pub enum ParseError {
    /// A token that fits no rule at this point.
    UnexpectedToken(Token),
    /// A token that is no expression where an expression was required.
    NotExpression(Token),
    /// A token that is no operator where an operator was looked for; raised by
    /// the operator recognizers and absorbed by the binary-operator loop as its
    /// normal exit, never surfaced to the caller.
    NotOperator(Token),
    /// An opening parenthesis whose matching close never came.
    UnclosedOpenParen(Token),
    /// A token left over after a complete expression.
    RedundantExpression(Token),
    /// The token sequence ended where a token was required.
    Eof,
}

} // verus!
