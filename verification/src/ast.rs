//! The expression model: operators, literal values and expression trees.
pub mod exp;
pub mod lit;

pub use crate::ast::exp::Exp;
pub use crate::ast::exp::ExpV;
pub use crate::ast::lit::Lit;
pub use crate::ast::lit::LitV;

use vstd::prelude::*;

verus! {

/// An operator of the expression language, used both inside expression trees
/// and (in its string form) as a token during lexing.
#[derive(Debug, PartialEq, Eq, Structural, Clone, Copy)]
pub enum Op {
    Plus,
    Minus,
    Times,
    Divide,
    Modulo,
    Exponent,
    And,
    Or,
    Not,
    Equal,
    NotEqual,
}

} // verus!
