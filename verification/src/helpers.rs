//! Token classification tables: keywords, the closed operator set and its
//! precedence, the whitespace characters that split tokens, and the mapping
//! from an operator token to an expression node.
use crate::ast::exp::{exp_result_view, Exp, ExpV};
use crate::ast::Op;
use crate::errors::{LexError, YamlError, YamlErrorV};
use vstd::prelude::*;

verus! {

/// Whether `s` is one of the control-flow keywords of the YAML surface.
pub open spec fn spec_is_keyword(s: Seq<char>) -> bool {
    s == "if"@ || s == "then"@ || s == "elif"@ || s == "else"@ || s == "do"@
}

/// Whether `s` is one of the recognized operator tokens (a closed set).
pub open spec fn spec_is_operator(s: Seq<char>) -> bool {
    ||| s == "("@
    ||| s == ")"@
    ||| s == "!"@
    ||| s == "^"@
    ||| s == "*"@
    ||| s == "/"@
    ||| s == "%"@
    ||| s == "+"@
    ||| s == "-"@
    ||| s == "!="@
    ||| s == "=="@
    ||| s == "&&"@
    ||| s == "||"@
    ||| s == "="@
    ||| s == ":="@
}

/// The binding strength of an operator token. Higher binds tighter; `(` has
/// the special precedence -1 that never collapses from outside, and an
/// unrecognized token also maps to -1.
pub open spec fn spec_operator_precedence(s: Seq<char>) -> i32 {
    if s == "("@ {
        -1i32
    } else if s == ")"@ {
        8
    } else if s == "!"@ {
        7
    } else if s == "^"@ {
        6
    } else if s == "*"@ || s == "/"@ || s == "%"@ {
        5
    } else if s == "+"@ || s == "-"@ {
        4
    } else if s == "!="@ || s == "=="@ {
        3
    } else if s == "&&"@ {
        2
    } else if s == "||"@ {
        1
    } else if s == "="@ || s == ":="@ {
        0
    } else {
        -1i32
    }
}

/// Whether `c` is whitespace that separates tokens: space, tab, or newline.
pub open spec fn spec_is_split_character(c: char) -> bool {
    c == ' ' || c == '\n' || c == '\t'
}

/// Relies on std's `String::push`: appends one character at the end of the
/// string. vstd specifies many `String` methods but not this one.
pub assume_specification [ std::string::String::push ](s: &mut String, ch: char)
    ensures
        final(s)@ == old(s)@.push(ch),
;

/// The string holding exactly the characters of `v`, in order.
pub fn chars_to_string(v: &Vec<char>) -> (r: String)
    ensures
        r@ == v@,
{
    let mut r = String::new();
    let mut i: usize = 0;
    while i < v.len()
        invariant
            i <= v@.len(),
            r@ == v@.take(i as int),
        decreases v@.len() - i,
    {
        r.push(v[i]);
        proof {
            assert(v@.take(i + 1) =~= v@.take(i as int).push(v@[i as int]));
        }
        i += 1;
    }
    proof {
        assert(v@.take(v@.len() as int) =~= v@);
    }
    r
}

/// Character-wise string equality, proved equivalent to equality of the views.
pub fn str_eqs(a: &str, b: &str) -> (r: bool)
    ensures
        r == (a@ == b@),
{
    let la = a.unicode_len();
    let lb = b.unicode_len();
    if la != lb {
        proof {
            assert(a@.len() != b@.len());
        }
        return false;
    }
    let mut i: usize = 0;
    while i < la
        invariant
            la == a@.len(),
            la == b@.len(),
            i <= la,
            forall|j: int| 0 <= j < i ==> a@[j] == b@[j],
        decreases la - i,
    {
        if a.get_char(i) != b.get_char(i) {
            return false;
        }
        i += 1;
    }
    proof {
        assert(a@ =~= b@);
    }
    true
}

/// Whether `string` is a control-flow keyword of the YAML surface.
pub fn is_keyword(string: &str) -> (r: bool)
    ensures
        r == spec_is_keyword(string@),
{
    str_eqs(string, "if") || str_eqs(string, "then") || str_eqs(string, "elif") || str_eqs(
        string,
        "else",
    ) || str_eqs(string, "do")
}

/// Whether `string` is a recognized operator token.
pub fn is_operator(string: &str) -> (r: bool)
    ensures
        r == spec_is_operator(string@),
{
    str_eqs(string, "(") || str_eqs(string, ")") || str_eqs(string, "!") || str_eqs(string, "^")
        || str_eqs(string, "*") || str_eqs(string, "/") || str_eqs(string, "%") || str_eqs(
        string,
        "+",
    ) || str_eqs(string, "-") || str_eqs(string, "!=") || str_eqs(string, "==") || str_eqs(
        string,
        "&&",
    ) || str_eqs(string, "||") || str_eqs(string, "=") || str_eqs(string, ":=")
}

/// The precedence of `string`, or -1 for `(` and for unrecognized tokens.
pub fn operator_precedence(string: &str) -> (r: i32)
    ensures
        r == spec_operator_precedence(string@),
{
    if str_eqs(string, "(") {
        -1
    } else if str_eqs(string, ")") {
        8
    } else if str_eqs(string, "!") {
        7
    } else if str_eqs(string, "^") {
        6
    } else if str_eqs(string, "*") || str_eqs(string, "/") || str_eqs(string, "%") {
        5
    } else if str_eqs(string, "+") || str_eqs(string, "-") {
        4
    } else if str_eqs(string, "!=") || str_eqs(string, "==") {
        3
    } else if str_eqs(string, "&&") {
        2
    } else if str_eqs(string, "||") {
        1
    } else if str_eqs(string, "=") || str_eqs(string, ":=") {
        0
    } else {
        -1
    }
}

/// Whether `ch` is whitespace that separates tokens.
pub fn is_split_character(ch: char) -> (r: bool)
    ensures
        r == spec_is_split_character(ch),
{
    ch == ' ' || ch == '\n' || ch == '\t'
}

/// The expression node an operator token builds from its two operands:
/// a binary operation for the arithmetic, comparison and logical tokens;
/// an assignment or declaration (whose left operand must be a variable)
/// for `=` and `:=`; an unknown-operator error for anything else.
pub open spec fn spec_operator_to_exp(operator: Seq<char>, exp1: ExpV, exp2: ExpV) -> Result<
    ExpV,
    YamlErrorV,
> {
    if operator == "=="@ {
        Ok(ExpV::BinaryOp(Op::Equal, Box::new(exp1), Box::new(exp2)))
    } else if operator == "!="@ {
        Ok(ExpV::BinaryOp(Op::NotEqual, Box::new(exp1), Box::new(exp2)))
    } else if operator == "+"@ {
        Ok(ExpV::BinaryOp(Op::Plus, Box::new(exp1), Box::new(exp2)))
    } else if operator == "-"@ {
        Ok(ExpV::BinaryOp(Op::Minus, Box::new(exp1), Box::new(exp2)))
    } else if operator == "*"@ {
        Ok(ExpV::BinaryOp(Op::Times, Box::new(exp1), Box::new(exp2)))
    } else if operator == "/"@ {
        Ok(ExpV::BinaryOp(Op::Divide, Box::new(exp1), Box::new(exp2)))
    } else if operator == "%"@ {
        Ok(ExpV::BinaryOp(Op::Modulo, Box::new(exp1), Box::new(exp2)))
    } else if operator == "^"@ {
        Ok(ExpV::BinaryOp(Op::Exponent, Box::new(exp1), Box::new(exp2)))
    } else if operator == "&&"@ {
        Ok(ExpV::BinaryOp(Op::And, Box::new(exp1), Box::new(exp2)))
    } else if operator == "||"@ {
        Ok(ExpV::BinaryOp(Op::Or, Box::new(exp1), Box::new(exp2)))
    } else if operator == "="@ {
        match exp1 {
            ExpV::Variable(name) => Ok(ExpV::Assign(name, Box::new(exp2))),
            _ => Err(YamlErrorV::LexError(LexError::NameNotString)),
        }
    } else if operator == ":="@ {
        match exp1 {
            ExpV::Variable(name) => Ok(ExpV::Declare(name, Box::new(exp2))),
            _ => Err(YamlErrorV::LexError(LexError::NameNotString)),
        }
    } else {
        Err(YamlErrorV::LexError(LexError::UnknownOperator))
    }
}

/// Builds the expression node of an operator token; see
/// [`spec_operator_to_exp`].
pub fn operator_to_exp(operator: &str, exp1: Exp, exp2: Exp) -> (r: Result<Exp, YamlError>)
    ensures
        exp_result_view(r) == spec_operator_to_exp(operator@, exp1@, exp2@),
        exp1.wf() && exp2.wf() && (r matches Ok(e)) ==> (r matches Ok(e) && e.wf()),
{
    if str_eqs(operator, "==") {
        Ok(Exp::BinaryOp(Op::Equal, Box::new(exp1), Box::new(exp2)))
    } else if str_eqs(operator, "!=") {
        Ok(Exp::BinaryOp(Op::NotEqual, Box::new(exp1), Box::new(exp2)))
    } else if str_eqs(operator, "+") {
        Ok(Exp::BinaryOp(Op::Plus, Box::new(exp1), Box::new(exp2)))
    } else if str_eqs(operator, "-") {
        Ok(Exp::BinaryOp(Op::Minus, Box::new(exp1), Box::new(exp2)))
    } else if str_eqs(operator, "*") {
        Ok(Exp::BinaryOp(Op::Times, Box::new(exp1), Box::new(exp2)))
    } else if str_eqs(operator, "/") {
        Ok(Exp::BinaryOp(Op::Divide, Box::new(exp1), Box::new(exp2)))
    } else if str_eqs(operator, "%") {
        Ok(Exp::BinaryOp(Op::Modulo, Box::new(exp1), Box::new(exp2)))
    } else if str_eqs(operator, "^") {
        Ok(Exp::BinaryOp(Op::Exponent, Box::new(exp1), Box::new(exp2)))
    } else if str_eqs(operator, "&&") {
        Ok(Exp::BinaryOp(Op::And, Box::new(exp1), Box::new(exp2)))
    } else if str_eqs(operator, "||") {
        Ok(Exp::BinaryOp(Op::Or, Box::new(exp1), Box::new(exp2)))
    } else if str_eqs(operator, "=") {
        match exp1 {
            Exp::Variable(name) => Ok(Exp::Assign(name, Box::new(exp2))),
            _ => Err(YamlError::LexError(LexError::NameNotString)),
        }
    } else if str_eqs(operator, ":=") {
        match exp1 {
            Exp::Variable(name) => Ok(Exp::Declare(name, Box::new(exp2))),
            _ => Err(YamlError::LexError(LexError::NameNotString)),
        }
    } else {
        Err(YamlError::LexError(LexError::UnknownOperator))
    }
}

} // verus!
