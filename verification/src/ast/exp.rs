//! Expression trees produced by the parser and consumed by the evaluator.
use crate::ast::lit::{
    spec_lit_add, spec_lit_and, spec_lit_div, spec_lit_exp, spec_lit_mul, spec_lit_not,
    spec_lit_or, spec_lit_rem, spec_lit_sub, Lit, LitV,
};
use crate::ast::Op;
use crate::environment::{spec_env_assign, spec_env_get, spec_env_set, ASTEnvironment, EnvV};
use crate::errors::{EvalError, EvalErrorV, YamlError, YamlErrorV};
use vstd::prelude::*;

verus! {

/// A parsed expression.
#[derive(Debug, PartialEq)]
pub enum Exp {
    /// A unary operator like `!`.
    UnaryOp(Op, Box<Exp>),
    /// A binary operator like `+` or `-`.
    BinaryOp(Op, Box<Exp>, Box<Exp>),
    /// A variable to retrieve from the environment.
    Variable(String),
    /// Bind a variable name to the evaluated expression.
    Declare(String, Box<Exp>),
    /// Set an existing variable name to the evaluated expression.
    Assign(String, Box<Exp>),
    /// A literal like `2` or `"hello"`.
    Lit(Lit),
}

/// The mathematical shape of an [`Exp`], with names as character sequences.
pub enum ExpV {
    UnaryOp(Op, Box<ExpV>),
    BinaryOp(Op, Box<ExpV>, Box<ExpV>),
    Variable(Seq<char>),
    Declare(Seq<char>, Box<ExpV>),
    Assign(Seq<char>, Box<ExpV>),
    Lit(LitV),
}

impl Exp {
    /// The mathematical shape of the tree.
    pub open spec fn shape(&self) -> ExpV
        decreases self,
    {
        match self {
            Exp::UnaryOp(op, e) => ExpV::UnaryOp(*op, Box::new(e.shape())),
            Exp::BinaryOp(op, e1, e2) => ExpV::BinaryOp(
                *op,
                Box::new(e1.shape()),
                Box::new(e2.shape()),
            ),
            Exp::Variable(n) => ExpV::Variable(n@),
            Exp::Declare(n, e) => ExpV::Declare(n@, Box::new(e.shape())),
            Exp::Assign(n, e) => ExpV::Assign(n@, Box::new(e.shape())),
            Exp::Lit(l) => ExpV::Lit(l@),
        }
    }
}

impl View for Exp {
    type V = ExpV;

    open spec fn view(&self) -> ExpV {
        self.shape()
    }
}

impl ExpV {
    /// Every decimal literal in the tree is canonical and within bounds.
    pub open spec fn wf(self) -> bool
        decreases self,
    {
        match self {
            ExpV::UnaryOp(_, e) => e.wf(),
            ExpV::BinaryOp(_, e1, e2) => e1.wf() && e2.wf(),
            ExpV::Variable(_) => true,
            ExpV::Declare(_, e) => e.wf(),
            ExpV::Assign(_, e) => e.wf(),
            ExpV::Lit(l) => l.wf(),
        }
    }
}

impl Exp {
    /// Every decimal literal in the tree is canonical and within bounds.
    pub open spec fn wf(&self) -> bool {
        self@.wf()
    }

    /// An exact copy.
    pub fn duplicate(&self) -> (r: Exp)
        ensures
            r == *self,
        decreases self,
    {
        match self {
            Exp::UnaryOp(op, e) => Exp::UnaryOp(*op, Box::new(e.duplicate())),
            Exp::BinaryOp(op, e1, e2) => Exp::BinaryOp(
                *op,
                Box::new(e1.duplicate()),
                Box::new(e2.duplicate()),
            ),
            Exp::Variable(n) => Exp::Variable(n.clone()),
            Exp::Declare(n, e) => Exp::Declare(n.clone(), Box::new(e.duplicate())),
            Exp::Assign(n, e) => Exp::Assign(n.clone(), Box::new(e.duplicate())),
            Exp::Lit(l) => Exp::Lit(l.duplicate()),
        }
    }
}

/// The view of an evaluation result, component by component.
pub open spec fn exp_result_view(r: Result<Exp, YamlError>) -> Result<ExpV, YamlErrorV> {
    match r {
        Ok(e) => Ok(e@),
        Err(er) => Err(er@),
    }
}

/// What a binary operator does to two fully reduced operands.
pub open spec fn spec_apply_bin(op: Op, a: LitV, b: LitV) -> Result<LitV, YamlErrorV> {
    match op {
        Op::Plus => spec_lit_add(a, b),
        Op::Minus => spec_lit_sub(a, b),
        Op::Times => spec_lit_mul(a, b),
        Op::Divide => spec_lit_div(a, b),
        Op::Modulo => spec_lit_rem(a, b),
        Op::Exponent => spec_lit_exp(a, b),
        Op::And => spec_lit_and(a, b),
        Op::Or => spec_lit_or(a, b),
        Op::Equal => Ok(LitV::Bool(a == b)),
        Op::NotEqual => Ok(LitV::Bool(a != b)),
        Op::Not => Err(YamlErrorV::EvalError(EvalErrorV::NotBinOp(Op::Not))),
    }
}

/// The meaning of evaluating an expression against an environment: the
/// result (a literal wrapped as an expression, or the first error raised)
/// together with the environment after evaluation. Operands evaluate left
/// to right; a failing subexpression keeps whatever bindings it already
/// made.
pub open spec fn spec_eval(e: ExpV, env: EnvV) -> (Result<ExpV, YamlErrorV>, EnvV)
    decreases e,
{
    match e {
        ExpV::Lit(_) => (Ok(e), env),
        ExpV::Variable(n) => match spec_env_get(env, n) {
            Some(l) => (Ok(ExpV::Lit(l)), env),
            None => (Err(YamlErrorV::EvalError(EvalErrorV::VarNotInEnv(n))), env),
        },
        ExpV::Declare(n, sub) => {
            let sr = spec_eval(*sub, env);
            match sr.0 {
                Ok(ExpV::Lit(v)) => (Ok(ExpV::Lit(v)), spec_env_set(sr.1, n, v)),
                Ok(_) => (
                    Err(YamlErrorV::EvalError(EvalErrorV::CannotReduceDeclare(sub))),
                    sr.1,
                ),
                Err(er) => (Err(er), sr.1),
            }
        },
        ExpV::Assign(n, sub) => {
            let sr = spec_eval(*sub, env);
            match sr.0 {
                Ok(ExpV::Lit(v)) => (Ok(ExpV::Lit(v)), spec_env_assign(sr.1, n, v)),
                Ok(_) => (
                    Err(YamlErrorV::EvalError(EvalErrorV::CannotReduceAssign(sub))),
                    sr.1,
                ),
                Err(er) => (Err(er), sr.1),
            }
        },
        ExpV::UnaryOp(op, sub) => {
            let sr = spec_eval(*sub, env);
            match sr.0 {
                Ok(ExpV::Lit(v)) => if op == Op::Not {
                    match spec_lit_not(v) {
                        Ok(l) => (Ok(ExpV::Lit(l)), sr.1),
                        Err(er) => (Err(er), sr.1),
                    }
                } else {
                    (Err(YamlErrorV::EvalError(EvalErrorV::NotUnOp(op))), sr.1)
                },
                Ok(_) => (
                    Err(YamlErrorV::EvalError(EvalErrorV::CannotReduceUnOp(op, sub))),
                    sr.1,
                ),
                Err(er) => (Err(er), sr.1),
            }
        },
        ExpV::BinaryOp(op, e1, e2) => {
            let r1 = spec_eval(*e1, env);
            match r1.0 {
                Err(er) => (Err(er), r1.1),
                Ok(v1) => {
                    let r2 = spec_eval(*e2, r1.1);
                    match r2.0 {
                        Err(er) => (Err(er), r2.1),
                        Ok(v2) => match (v1, v2) {
                            (ExpV::Lit(l1), ExpV::Lit(l2)) => match spec_apply_bin(op, l1, l2) {
                                Ok(l) => (Ok(ExpV::Lit(l)), r2.1),
                                Err(er) => (Err(er), r2.1),
                            },
                            _ => (
                                Err(
                                    YamlErrorV::EvalError(
                                        EvalErrorV::CannotReduceBinOp(op, e1, e2),
                                    ),
                                ),
                                r2.1,
                            ),
                        },
                    }
                },
            }
        },
    }
}

impl Exp {
    /// Evaluates the expression against `env` and returns the reduced
    /// literal wrapped as an expression, or the first error raised; the
    /// environment keeps every binding made before a failure.
    pub fn eval(&self, env: &mut ASTEnvironment) -> (r: Result<Exp, YamlError>)
        requires
            old(env).inv(),
            self.wf(),
        ensures
            final(env).inv(),
            exp_result_view(r) == spec_eval(self@, old(env)@).0,
            final(env)@ == spec_eval(self@, old(env)@).1,
            r matches Ok(e) ==> e.wf(),
        decreases *self,
    {
        match self {
            Exp::Lit(_) => Ok(self.duplicate()),
            Exp::Variable(name) => match env.get(name.as_str()) {
                Some(lit) => Ok(Exp::Lit(lit)),
                None => Err(YamlError::EvalError(EvalError::VarNotInEnv(name.clone()))),
            },
            Exp::Declare(name, exp) => match exp.eval(env) {
                Err(e) => Err(e),
                Ok(Exp::Lit(value)) => {
                    env.set(name.as_str(), value.duplicate());
                    Ok(Exp::Lit(value))
                },
                Ok(_) => Err(
                    YamlError::EvalError(EvalError::CannotReduceDeclare(Box::new(exp.duplicate()))),
                ),
            },
            Exp::Assign(name, exp) => match exp.eval(env) {
                Err(e) => Err(e),
                Ok(Exp::Lit(value)) => {
                    env.assign(name.as_str(), value.duplicate());
                    Ok(Exp::Lit(value))
                },
                Ok(_) => Err(
                    YamlError::EvalError(EvalError::CannotReduceAssign(Box::new(exp.duplicate()))),
                ),
            },
            Exp::UnaryOp(op, exp) => match exp.eval(env) {
                Err(e) => Err(e),
                Ok(Exp::Lit(value)) => match op {
                    Op::Not => match value.not() {
                        Ok(l) => Ok(Exp::Lit(l)),
                        Err(e) => Err(e),
                    },
                    _ => Err(YamlError::EvalError(EvalError::NotUnOp(*op))),
                },
                Ok(_) => Err(
                    YamlError::EvalError(
                        EvalError::CannotReduceUnOp(*op, Box::new(exp.duplicate())),
                    ),
                ),
            },
            Exp::BinaryOp(op, exp1, exp2) => match exp1.eval(env) {
                Err(e) => Err(e),
                Ok(v1) => match exp2.eval(env) {
                    Err(e) => Err(e),
                    Ok(v2) => match (v1, v2) {
                        (Exp::Lit(l1), Exp::Lit(l2)) => {
                            let applied: Result<Lit, YamlError> = match op {
                                Op::Plus => l1.add(l2),
                                Op::Minus => l1.sub(l2),
                                Op::Times => l1.mul(l2),
                                Op::Divide => l1.div(l2),
                                Op::Modulo => l1.rem(l2),
                                Op::Exponent => l1.exp(l2),
                                Op::And => l1.and(l2),
                                Op::Or => l1.or(l2),
                                Op::Equal => Ok(Lit::Bool(l1.lit_eq(&l2))),
                                Op::NotEqual => Ok(Lit::Bool(!l1.lit_eq(&l2))),
                                Op::Not => Err(YamlError::EvalError(EvalError::NotBinOp(Op::Not))),
                            };
                            match applied {
                                Ok(l) => Ok(Exp::Lit(l)),
                                Err(e) => Err(e),
                            }
                        },
                        _ => Err(
                            YamlError::EvalError(
                                EvalError::CannotReduceBinOp(
                                    *op,
                                    Box::new(exp1.duplicate()),
                                    Box::new(exp2.duplicate()),
                                ),
                            ),
                        ),
                    },
                },
            },
        }
    }
}

} // verus!
