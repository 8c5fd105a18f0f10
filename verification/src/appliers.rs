//! Small applier helpers kept from the engine's early shape: a direct
//! arithmetic dispatcher over integer operands and a variable holder.
use crate::helpers::str_eqs;
use vstd::prelude::*;

verus! {

/// What the arithmetic dispatcher computes: 32-bit wrapping arithmetic
/// for the four total operators, truncating division and remainder for
/// `/` and `%`, and (like an unrecognized operator) the wrapping sum as
/// the fallback.
pub open spec fn spec_apply_arithmetic_operator(operator: Seq<char>, a: i32, b: i32) -> i32 {
    if operator == "+"@ {
        vstd::wrapping::i32_specs::wrapping_add(a, b)
    } else if operator == "-"@ {
        vstd::wrapping::i32_specs::wrapping_sub(a, b)
    } else if operator == "*"@ {
        vstd::wrapping::i32_specs::wrapping_mul(a, b)
    } else if operator == "/"@ {
        match a.checked_div(b) {
            Some(q) => q,
            None => 0i32,
        }
    } else if operator == "%"@ {
        match a.checked_rem(b) {
            Some(q) => q,
            None => 0i32,
        }
    } else {
        vstd::wrapping::i32_specs::wrapping_add(a, b)
    }
}

/// Applies one arithmetic operator token to two integers; division and
/// remainder demand a divisor that cannot trap.
pub fn apply_arithmetic_operator(operator: &str, a: i32, b: i32) -> (r: i32)
    requires
        (operator@ == "/"@ || operator@ == "%"@) ==> b != 0 && !(a == i32::MIN && b == -1i32),
    ensures
        r == spec_apply_arithmetic_operator(operator@, a, b),
{
    if str_eqs(operator, "+") {
        a.wrapping_add(b)
    } else if str_eqs(operator, "-") {
        a.wrapping_sub(b)
    } else if str_eqs(operator, "*") {
        a.wrapping_mul(b)
    } else if str_eqs(operator, "/") {
        match a.checked_div(b) {
            Some(q) => q,
            None => 0,
        }
    } else if str_eqs(operator, "%") {
        match a.checked_rem(b) {
            Some(q) => q,
            None => 0,
        }
    } else {
        a.wrapping_add(b)
    }
}

/// Holds a variable name for lookup.
pub struct VariableApplier {
    name: String,
}

impl VariableApplier {
    /// The held name.
    pub closed spec fn spec_name(&self) -> Seq<char> {
        self.name@
    }

    /// Wraps a variable name.
    pub fn new(name: &str) -> (r: VariableApplier)
        ensures
            r.spec_name() == name@,
    {
        VariableApplier { name: name.to_owned() }
    }

    /// Reads the held name back.
    pub fn name(&self) -> (r: &str)
        ensures
            r@ == self.spec_name(),
    {
        self.name.as_str()
    }
}

} // verus!
