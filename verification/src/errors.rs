//! The two error families: lexing/parsing errors and evaluation errors.
use crate::ast::exp::{Exp, ExpV};
use crate::ast::lit::{Lit, LitV};
use crate::ast::Op;
use vstd::prelude::*;

verus! {

/// An error raised while turning text into tokens or tokens into a tree.
#[derive(Debug, PartialEq, Eq, Structural, Clone, Copy)]
pub enum LexError {
    /// The variable name in an assign or declare is not a name
    /// (`+ := 2`, `12 := 2`).
    NameNotString,
    /// A letter directly follows a number (`12Hello`, `5l`).
    LetterAfterNumber,
    /// The operator is not in the recognized set (`~`, `#`).
    UnknownOperator,
    /// The lexed value cannot become an expression.
    ResultNotLiteral,
    /// A dot appeared in a state that cannot take one
    /// (`1 +. 2`, `1.00.2`, `hel.lo := 2`).
    InvalidDotAppend,
    /// A quote appeared in a state that cannot take one
    /// (`12"hello"`, `12.0" name"`).
    InvalidQuoteAppend,
    /// An operator could not be retrieved from the stack.
    OperatorStackError,
    /// A value could not be retrieved from the stack.
    VariableStackError,
    /// The input could not be completely parsed.
    Incomplete,
    /// The parentheses do not match (`(1 + 2`).
    ParenthesisNotMatch,
}

/// An error raised while reducing an expression tree to a literal.
#[derive(Debug, PartialEq)]
pub enum EvalError {
    /// The operand type cannot take this unary operator (`!"hello"`).
    InvalidUnOp(Op, Lit),
    /// The operand types cannot take this binary operator
    /// (`"hello" - "world"`).
    InvalidBinOp(Op, Lit, Lit),
    /// A unary operator's subexpression did not reduce to a literal.
    CannotReduceUnOp(Op, Box<Exp>),
    /// A binary operator's subexpressions did not reduce to literals.
    CannotReduceBinOp(Op, Box<Exp>, Box<Exp>),
    /// The expression of an assign did not reduce to a literal.
    CannotReduceAssign(Box<Exp>),
    /// The expression of a declare did not reduce to a literal.
    CannotReduceDeclare(Box<Exp>),
    /// A variable is not bound in the environment.
    VarNotInEnv(String),
    /// The operator is not a unary operator.
    NotUnOp(Op),
    /// The operator is not a binary operator.
    NotBinOp(Op),
    /// Integer or decimal division (or remainder) by zero.
    DivisionByZero(Op, Lit, Lit),
    /// The exact result does not fit the value representation.
    Overflow(Op, Lit, Lit),
    /// The evaluation budget ran out: one evaluation bounds its nesting
    /// depth and its loop iterations by a count no physical run reaches.
    Exhausted,
}

/// The mathematical shape of an [`EvalError`].
pub enum EvalErrorV {
    InvalidUnOp(Op, LitV),
    InvalidBinOp(Op, LitV, LitV),
    CannotReduceUnOp(Op, Box<ExpV>),
    CannotReduceBinOp(Op, Box<ExpV>, Box<ExpV>),
    CannotReduceAssign(Box<ExpV>),
    CannotReduceDeclare(Box<ExpV>),
    VarNotInEnv(Seq<char>),
    NotUnOp(Op),
    NotBinOp(Op),
    DivisionByZero(Op, LitV, LitV),
    Overflow(Op, LitV, LitV),
    Exhausted,
}

impl View for EvalError {
    type V = EvalErrorV;

    open spec fn view(&self) -> EvalErrorV {
        match self {
            EvalError::InvalidUnOp(op, l) => EvalErrorV::InvalidUnOp(*op, l@),
            EvalError::InvalidBinOp(op, l1, l2) => EvalErrorV::InvalidBinOp(*op, l1@, l2@),
            EvalError::CannotReduceUnOp(op, e) => EvalErrorV::CannotReduceUnOp(
                *op,
                Box::new(e.view()),
            ),
            EvalError::CannotReduceBinOp(op, e1, e2) => EvalErrorV::CannotReduceBinOp(
                *op,
                Box::new(e1.view()),
                Box::new(e2.view()),
            ),
            EvalError::CannotReduceAssign(e) => EvalErrorV::CannotReduceAssign(Box::new(e.view())),
            EvalError::CannotReduceDeclare(e) => EvalErrorV::CannotReduceDeclare(
                Box::new(e.view()),
            ),
            EvalError::VarNotInEnv(n) => EvalErrorV::VarNotInEnv(n@),
            EvalError::NotUnOp(op) => EvalErrorV::NotUnOp(*op),
            EvalError::NotBinOp(op) => EvalErrorV::NotBinOp(*op),
            EvalError::DivisionByZero(op, l1, l2) => EvalErrorV::DivisionByZero(*op, l1@, l2@),
            EvalError::Overflow(op, l1, l2) => EvalErrorV::Overflow(*op, l1@, l2@),
            EvalError::Exhausted => EvalErrorV::Exhausted,
        }
    }
}

/// Any error the engine can surface: a lex/parse error or an eval error.
#[derive(Debug, PartialEq)]
pub enum YamlError {
    LexError(LexError),
    EvalError(EvalError),
}

/// The mathematical shape of a [`YamlError`].
pub enum YamlErrorV {
    LexError(LexError),
    EvalError(EvalErrorV),
}

impl View for YamlError {
    type V = YamlErrorV;

    open spec fn view(&self) -> YamlErrorV {
        match self {
            YamlError::LexError(e) => YamlErrorV::LexError(*e),
            YamlError::EvalError(e) => YamlErrorV::EvalError(e@),
        }
    }
}

impl LexError {
    /// A stable human-readable description of the error.
    pub fn description(&self) -> (r: &'static str)
        ensures
            r@ == spec_lex_error_description(*self),
    {
        match self {
            LexError::NameNotString => "Variable name to assign or declare is not a string",
            LexError::LetterAfterNumber => "Number cannot have a letter after it",
            LexError::UnknownOperator => "Unknown operator",
            LexError::ResultNotLiteral => "Lexed value needs to be a literal",
            LexError::InvalidDotAppend => "Cannot append dot to state",
            LexError::InvalidQuoteAppend => "Cannot append quote to state",
            LexError::OperatorStackError => "Operator cannot be retrieved from the stack",
            LexError::VariableStackError => "Variable cannot be retrieved from the stack",
            LexError::ParenthesisNotMatch => "Parenthesis do not match",
            LexError::Incomplete => "Lexer cannot completely parse expression",
        }
    }
}

/// The description each lex error renders to.
pub open spec fn spec_lex_error_description(e: LexError) -> Seq<char> {
    match e {
        LexError::NameNotString => "Variable name to assign or declare is not a string"@,
        LexError::LetterAfterNumber => "Number cannot have a letter after it"@,
        LexError::UnknownOperator => "Unknown operator"@,
        LexError::ResultNotLiteral => "Lexed value needs to be a literal"@,
        LexError::InvalidDotAppend => "Cannot append dot to state"@,
        LexError::InvalidQuoteAppend => "Cannot append quote to state"@,
        LexError::OperatorStackError => "Operator cannot be retrieved from the stack"@,
        LexError::VariableStackError => "Variable cannot be retrieved from the stack"@,
        LexError::ParenthesisNotMatch => "Parenthesis do not match"@,
        LexError::Incomplete => "Lexer cannot completely parse expression"@,
    }
}

} // verus!
