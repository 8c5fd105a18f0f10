//! The parser: turns the lexer's two token queues into a single expression
//! tree by operator precedence (shunting yard over an explicit value stack
//! and operator stack).
use crate::ast::exp::{exp_result_view, Exp, ExpV};
use crate::errors::{LexError, YamlError, YamlErrorV};
use crate::helpers::{
    operator_precedence, operator_to_exp, spec_operator_precedence, spec_operator_to_exp,
};
use std::collections::VecDeque;
use vstd::prelude::*;

verus! {

/// Every expression on the stack is well formed.
pub open spec fn stack_wf(s: Seq<ExpV>) -> bool {
    forall|i: int| 0 <= i < s.len() ==> (#[trigger] s[i]).wf()
}

/// One collapse pass: pop operators while the threshold allows it or an
/// unmatched `)` is being resolved, folding value-stack entries into tree
/// nodes. `(` never collapses from outside (its precedence lies below any
/// threshold); a `)` opens an inner parenthesis count that `(` closes.
/// Ends with the two stacks, or the first error: a missing operand, an
/// unknown operator, a misshapen assignment, or unbalanced parentheses.
pub open spec fn spec_collapse(
    vars: Seq<ExpV>,
    ops: Seq<Seq<char>>,
    thr: i32,
    pc: int,
) -> Result<(Seq<ExpV>, Seq<Seq<char>>), YamlErrorV>
    decreases ops.len(),
{
    if ops.len() == 0 || !(thr < spec_operator_precedence(ops[0]) || pc > 0) {
        if pc != 0 {
            Err(YamlErrorV::LexError(LexError::ParenthesisNotMatch))
        } else {
            Ok((vars, ops))
        }
    } else {
        let op = ops[0];
        let rest = ops.drop_first();
        if op == ")"@ {
            spec_collapse(vars, rest, thr, pc + 1)
        } else if op == "("@ {
            spec_collapse(vars, rest, thr, pc - 1)
        } else if op == "!"@ {
            if vars.len() == 0 {
                Err(YamlErrorV::LexError(LexError::VariableStackError))
            } else {
                spec_collapse(
                    seq![ExpV::UnaryOp(crate::ast::Op::Not, Box::new(vars[0]))]
                        + vars.drop_first(),
                    rest,
                    thr,
                    pc,
                )
            }
        } else if vars.len() < 2 {
            Err(YamlErrorV::LexError(LexError::VariableStackError))
        } else {
            match spec_operator_to_exp(op, vars[1], vars[0]) {
                Ok(node) => spec_collapse(seq![node] + vars.skip(2), rest, thr, pc),
                Err(e) => Err(e),
            }
        }
    }
}

/// Whether operators of precedence `p` associate to the left: the
/// multiplicative, additive, comparison and logical levels do; unary
/// `!`, the exponent and the assignments associate to the right.
pub open spec fn spec_left_assoc(p: i32) -> bool {
    1 <= p <= 5
}

/// One collapse pass during the main loop. It works like
/// [`spec_collapse`], except that a collapse running inside a parenthesis
/// group may find one operand still waiting in the value queue: the
/// missing right operand is then drawn from the queue's source end.
pub open spec fn spec_collapse_q(
    vars: Seq<ExpV>,
    ops: Seq<Seq<char>>,
    queue: Seq<ExpV>,
    thr: i32,
    pc: int,
) -> Result<(Seq<ExpV>, Seq<Seq<char>>, Seq<ExpV>), YamlErrorV>
    decreases ops.len(),
{
    if ops.len() == 0 || !(thr < spec_operator_precedence(ops[0]) || pc > 0) {
        if pc != 0 {
            Err(YamlErrorV::LexError(LexError::ParenthesisNotMatch))
        } else {
            Ok((vars, ops, queue))
        }
    } else {
        let op = ops[0];
        let rest = ops.drop_first();
        if op == ")"@ {
            spec_collapse_q(vars, rest, queue, thr, pc + 1)
        } else if op == "("@ {
            spec_collapse_q(vars, rest, queue, thr, pc - 1)
        } else if op == "!"@ {
            if vars.len() >= 1 {
                spec_collapse_q(
                    seq![ExpV::UnaryOp(crate::ast::Op::Not, Box::new(vars[0]))]
                        + vars.drop_first(),
                    rest,
                    queue,
                    thr,
                    pc,
                )
            } else if queue.len() >= 1 {
                spec_collapse_q(
                    seq![ExpV::UnaryOp(crate::ast::Op::Not, Box::new(queue.last()))],
                    rest,
                    queue.drop_last(),
                    thr,
                    pc,
                )
            } else {
                Err(YamlErrorV::LexError(LexError::VariableStackError))
            }
        } else if vars.len() >= 2 {
            match spec_operator_to_exp(op, vars[1], vars[0]) {
                Ok(node) => spec_collapse_q(seq![node] + vars.skip(2), rest, queue, thr, pc),
                Err(e) => Err(e),
            }
        } else if vars.len() == 1 && queue.len() >= 1 {
            match spec_operator_to_exp(op, vars[0], queue.last()) {
                Ok(node) => spec_collapse_q(seq![node], rest, queue.drop_last(), thr, pc),
                Err(e) => Err(e),
            }
        } else {
            Err(YamlErrorV::LexError(LexError::VariableStackError))
        }
    }
}

/// The main loop: consume operator tokens back-to-front (source order).
/// A token of lower precedence than the stack's top — or of equal
/// precedence, on the left-associative levels — first collapses the
/// stacks down to its level (`(` is exempt); every token but the
/// parentheses moves one value from the value queue onto the value
/// stack; the token then joins the operator stack.
pub open spec fn spec_parse_loop(
    sv: Seq<ExpV>,
    so: Seq<Seq<char>>,
    vars: Seq<ExpV>,
    ops: Seq<Seq<char>>,
) -> Result<(Seq<ExpV>, Seq<Seq<char>>, Seq<ExpV>), YamlErrorV>
    decreases ops.len(),
{
    if ops.len() == 0 {
        Ok((sv, so, vars))
    } else {
        let op = ops.last();
        let rest = ops.drop_last();
        let p = spec_operator_precedence(op);
        let step = if so.len() > 0 && p != -1 && (p < spec_operator_precedence(so[0]) || (p
            == spec_operator_precedence(so[0]) && spec_left_assoc(p))) {
            let thr = if p < spec_operator_precedence(so[0]) {
                p
            } else {
                (p - 1) as i32
            };
            spec_collapse_q(sv, so, vars, thr, 0)
        } else {
            Ok((sv, so, vars))
        };
        match step {
            Err(e) => Err(e),
            Ok(s1) => if s1.2.len() > 0 && op != "("@ && op != ")"@ {
                spec_parse_loop(
                    seq![s1.2.last()] + s1.0,
                    seq![op] + s1.1,
                    s1.2.drop_last(),
                    rest,
                )
            } else {
                spec_parse_loop(s1.0, seq![op] + s1.1, s1.2, rest)
            },
        }
    }
}

/// Parsing a whole token stream with a fresh parser: run the main loop,
/// push the remaining values, collapse everything that is left, and demand
/// exactly one tree.
pub open spec fn spec_parse_to_ast(vars: Seq<ExpV>, ops: Seq<Seq<char>>) -> Result<
    ExpV,
    YamlErrorV,
> {
    spec_parse_to_ast_from(Seq::empty(), Seq::empty(), vars, ops)
}

/// The parser's working state: a value stack and an operator stack, each
/// with its front as the top.
pub struct Parser {
    pub var_stack: VecDeque<Exp>,
    pub op_stack: VecDeque<String>,
}

impl Parser {
    /// A parser with empty stacks.
    pub fn new() -> (r: Parser)
        ensures
            r.var_stack@ =~= Seq::<Exp>::empty(),
            r.op_stack@ =~= Seq::<String>::empty(),
    {
        Parser { var_stack: VecDeque::new(), op_stack: VecDeque::new() }
    }

    /// The shape of the value stack.
    pub open spec fn vars_view(&self) -> Seq<ExpV> {
        self.var_stack@.map_values(|e: Exp| e@)
    }

    /// The shape of the operator stack.
    pub open spec fn ops_view(&self) -> Seq<Seq<char>> {
        self.op_stack@.map_values(|s: String| s@)
    }

    /// Folds the stacks down to the threshold; see [`spec_collapse`].
    pub fn collapse_stacks(&mut self, add_op_precedence: i32) -> (r: Result<(), YamlError>)
        requires
            stack_wf(old(self).vars_view()),
        ensures
            match spec_collapse(old(self).vars_view(), old(self).ops_view(), add_op_precedence, 0) {
                Ok(s2) => r is Ok && final(self).vars_view() == s2.0 && final(self).ops_view()
                    == s2.1 && stack_wf(final(self).vars_view()),
                Err(e) => r matches Err(er) && er@ == e,
            },
    {
        let ghost gv = self.vars_view();
        let ghost go = self.ops_view();
        let n0 = self.op_stack.len();
        proof {
            assert(go.len() == n0);
        }
        let mut paren_count: i128 = 0;
        loop
            invariant
                gv == old(self).vars_view(),
                go == old(self).ops_view(),
                stack_wf(self.vars_view()),
                self.op_stack@.len() <= go.len(),
                vstd::math::abs(paren_count as int) <= go.len() - self.op_stack@.len(),
                go.len() <= usize::MAX,
                spec_collapse(gv, go, add_op_precedence, 0) == spec_collapse(
                    self.vars_view(),
                    self.ops_view(),
                    add_op_precedence,
                    paren_count as int,
                ),
            decreases self.op_stack@.len(),
        {
            let ghost vb = self.vars_view();
            let ghost ob = self.ops_view();
            let ghost pcb = paren_count as int;
            let proceed = if self.op_stack.len() == 0 {
                false
            } else {
                proof {
                    assert(ob[0] == self.op_stack@[0]@);
                }
                let front_prec = operator_precedence(self.op_stack[0].as_str());
                add_op_precedence < front_prec || paren_count > 0
            };
            if !proceed {
                if paren_count != 0 {
                    return Err(YamlError::LexError(LexError::ParenthesisNotMatch));
                } else {
                    return Ok(());
                }
            }
            let operator = match self.op_stack.pop_front() {
                Some(op) => op,
                None => {
                    return Err(YamlError::LexError(LexError::OperatorStackError));
                },
            };
            proof {
                assert(self.ops_view() =~= ob.drop_first());
                assert(operator@ == ob[0]);
            }
            if crate::helpers::str_eqs(operator.as_str(), ")") {
                paren_count = paren_count + 1;
            } else if crate::helpers::str_eqs(operator.as_str(), "(") {
                paren_count = paren_count - 1;
            } else if crate::helpers::str_eqs(operator.as_str(), "!") {
                let var = match self.var_stack.pop_front() {
                    Some(var) => var,
                    None => {
                        return Err(YamlError::LexError(LexError::VariableStackError));
                    },
                };
                self.var_stack.push_front(Exp::UnaryOp(crate::ast::Op::Not, Box::new(var)));
                proof {
                    assert(self.vars_view() =~= seq![
                        ExpV::UnaryOp(crate::ast::Op::Not, Box::new(vb[0])),
                    ] + vb.drop_first());
                }
            } else {
                let var1 = match self.var_stack.pop_front() {
                    Some(var) => var,
                    None => {
                        return Err(YamlError::LexError(LexError::VariableStackError));
                    },
                };
                let var2 = match self.var_stack.pop_front() {
                    Some(var) => var,
                    None => {
                        proof {
                            assert(vb.len() == 1);
                        }
                        return Err(YamlError::LexError(LexError::VariableStackError));
                    },
                };
                proof {
                    assert(var1@ == vb[0]);
                    assert(var2@ == vb[1]);
                }
                let ast_node = match operator_to_exp(operator.as_str(), var2, var1) {
                    Ok(node) => node,
                    Err(e) => {
                        return Err(e);
                    },
                };
                self.var_stack.push_front(ast_node);
                proof {
                    assert(self.vars_view() =~= seq![ast_node@] + vb.skip(2));
                }
            }
        }
    }

    /// The main loop's collapse pass; see [`spec_collapse_q`]. A collapse
    /// reaching inside a parenthesis group may draw the group's waiting
    /// right operand from the value queue.
    fn collapse_stacks_queued(
        &mut self,
        add_op_precedence: i32,
        variables: &mut VecDeque<Exp>,
    ) -> (r: Result<(), YamlError>)
        requires
            stack_wf(old(self).vars_view()),
            forall|i: int|
                0 <= i < old(variables)@.len() ==> (#[trigger] old(variables)@[i]@).wf(),
        ensures
            match spec_collapse_q(
                old(self).vars_view(),
                old(self).ops_view(),
                old(variables)@.map_values(|e: Exp| e@),
                add_op_precedence,
                0,
            ) {
                Ok(s2) => r is Ok && final(self).vars_view() == s2.0 && final(self).ops_view()
                    == s2.1 && final(variables)@.map_values(|e: Exp| e@) == s2.2 && stack_wf(
                    final(self).vars_view(),
                ) && (forall|i: int|
                    0 <= i < final(variables)@.len() ==> (#[trigger] final(variables)@[i]@).wf()),
                Err(e) => r matches Err(er) && er@ == e,
            },
    {
        let ghost gv = self.vars_view();
        let ghost go = self.ops_view();
        let ghost gq = variables@.map_values(|e: Exp| e@);
        let n0 = self.op_stack.len();
        proof {
            assert(go.len() == n0);
        }
        let mut paren_count: i128 = 0;
        loop
            invariant
                gv == old(self).vars_view(),
                go == old(self).ops_view(),
                gq == old(variables)@.map_values(|e: Exp| e@),
                stack_wf(self.vars_view()),
                forall|i: int|
                    0 <= i < variables@.len() ==> (#[trigger] variables@[i]@).wf(),
                self.op_stack@.len() <= go.len(),
                vstd::math::abs(paren_count as int) <= go.len() - self.op_stack@.len(),
                go.len() <= usize::MAX,
                spec_collapse_q(gv, go, gq, add_op_precedence, 0) == spec_collapse_q(
                    self.vars_view(),
                    self.ops_view(),
                    variables@.map_values(|e: Exp| e@),
                    add_op_precedence,
                    paren_count as int,
                ),
            decreases self.op_stack@.len(),
        {
            let ghost vb = self.vars_view();
            let ghost ob = self.ops_view();
            let ghost qb = variables@.map_values(|e: Exp| e@);
            let ghost pcb = paren_count as int;
            let proceed = if self.op_stack.len() == 0 {
                false
            } else {
                proof {
                    assert(ob[0] == self.op_stack@[0]@);
                }
                let front_prec = operator_precedence(self.op_stack[0].as_str());
                add_op_precedence < front_prec || paren_count > 0
            };
            if !proceed {
                if paren_count != 0 {
                    return Err(YamlError::LexError(LexError::ParenthesisNotMatch));
                } else {
                    return Ok(());
                }
            }
            let operator = match self.op_stack.pop_front() {
                Some(op) => op,
                None => {
                    return Err(YamlError::LexError(LexError::OperatorStackError));
                },
            };
            proof {
                assert(self.ops_view() =~= ob.drop_first());
                assert(operator@ == ob[0]);
            }
            if crate::helpers::str_eqs(operator.as_str(), ")") {
                paren_count = paren_count + 1;
            } else if crate::helpers::str_eqs(operator.as_str(), "(") {
                paren_count = paren_count - 1;
            } else if crate::helpers::str_eqs(operator.as_str(), "!") {
                match self.var_stack.pop_front() {
                    Some(var) => {
                        self.var_stack.push_front(
                            Exp::UnaryOp(crate::ast::Op::Not, Box::new(var)),
                        );
                        proof {
                            assert(self.vars_view() =~= seq![
                                ExpV::UnaryOp(crate::ast::Op::Not, Box::new(vb[0])),
                            ] + vb.drop_first());
                        }
                    },
                    None => {
                        match variables.pop_back() {
                            Some(var) => {
                                self.var_stack.push_front(
                                    Exp::UnaryOp(crate::ast::Op::Not, Box::new(var)),
                                );
                                proof {
                                    assert(variables@.map_values(|e: Exp| e@)
                                        =~= qb.drop_last());
                                    assert(self.vars_view() =~= seq![
                                        ExpV::UnaryOp(
                                            crate::ast::Op::Not,
                                            Box::new(qb.last()),
                                        ),
                                    ]);
                                }
                            },
                            None => {
                                return Err(YamlError::LexError(LexError::VariableStackError));
                            },
                        }
                    },
                }
            } else {
                let var1 = match self.var_stack.pop_front() {
                    Some(var) => var,
                    None => {
                        return Err(YamlError::LexError(LexError::VariableStackError));
                    },
                };
                match self.var_stack.pop_front() {
                    Some(var2) => {
                        let ast_node = match operator_to_exp(operator.as_str(), var2, var1) {
                            Ok(node) => node,
                            Err(e) => {
                                return Err(e);
                            },
                        };
                        self.var_stack.push_front(ast_node);
                        proof {
                            assert(self.vars_view() =~= seq![self.vars_view()[0]] + vb.skip(2));
                        }
                    },
                    None => {
                        proof {
                            assert(vb.len() == 1);
                        }
                        match variables.pop_back() {
                            Some(q) => {
                                let ast_node = match operator_to_exp(operator.as_str(), var1, q) {
                                    Ok(node) => node,
                                    Err(e) => {
                                        return Err(e);
                                    },
                                };
                                self.var_stack.push_front(ast_node);
                                proof {
                                    assert(variables@.map_values(|e: Exp| e@)
                                        =~= qb.drop_last());
                                    assert(self.vars_view() =~= seq![self.vars_view()[0]]);
                                }
                            },
                            None => {
                                return Err(YamlError::LexError(LexError::VariableStackError));
                            },
                        }
                    },
                }
            }
        }
    }

    /// Parses the two token queues into a single expression tree; see
    /// [`spec_parse_to_ast`]. The queues are drained as far as the parse
    /// gets.
    pub fn parse_to_ast(
        &mut self,
        variables: &mut VecDeque<Exp>,
        operators: &mut VecDeque<String>,
    ) -> (r: Result<Exp, YamlError>)
        requires
            stack_wf(old(self).vars_view()),
            forall|i: int|
                0 <= i < old(variables)@.len() ==> (#[trigger] old(variables)@[i]@).wf(),
        ensures
            match spec_parse_to_ast_from(
                old(self).vars_view(),
                old(self).ops_view(),
                old(variables)@.map_values(|e: Exp| e@),
                old(operators)@.map_values(|s: String| s@),
            ) {
                Ok(e) => r matches Ok(x) && x@ == e && x.wf(),
                Err(er) => r matches Err(x) && x@ == er,
            },
    {
        let ghost v0 = variables@.map_values(|e: Exp| e@);
        let ghost o0 = operators@.map_values(|s: String| s@);
        while operators.len() > 0
            invariant
                v0 == old(variables)@.map_values(|e: Exp| e@),
                o0 == old(operators)@.map_values(|s: String| s@),
                stack_wf(self.vars_view()),
                forall|i: int|
                    0 <= i < variables@.len() ==> (#[trigger] variables@[i]@).wf(),
                spec_parse_loop(old(self).vars_view(), old(self).ops_view(), v0, o0)
                    == spec_parse_loop(
                    self.vars_view(),
                    self.ops_view(),
                    variables@.map_values(|e: Exp| e@),
                    operators@.map_values(|s: String| s@),
                ),
            decreases operators@.len(),
        {
            let ghost sv0 = self.vars_view();
            let ghost so0 = self.ops_view();
            let ghost vars0 = variables@.map_values(|e: Exp| e@);
            let ghost ops0 = operators@.map_values(|s: String| s@);
            let operator = operators.pop_back().unwrap();
            proof {
                assert(operators@.map_values(|s: String| s@) =~= ops0.drop_last());
                assert(operator@ == ops0.last());
            }
            let mut lower_precedence = false;
            let mut op_precedence: i32 = -2;
            if self.op_stack.len() > 0 {
                proof {
                    assert(so0[0] == self.op_stack@[0]@);
                }
                let fp = operator_precedence(self.op_stack[0].as_str());
                let p = operator_precedence(operator.as_str());
                if (p < fp || (p == fp && 1 <= p && p <= 5)) && p != -1 {
                    lower_precedence = true;
                    op_precedence = if p < fp {
                        p
                    } else {
                        p - 1
                    };
                }
            }
            if lower_precedence {
                match self.collapse_stacks_queued(op_precedence, variables) {
                    Ok(()) => {},
                    Err(e) => {
                        return Err(e);
                    },
                }
            }
            let ghost sv_mid = self.vars_view();
            let ghost so_mid = self.ops_view();
            let ghost q_mid = variables@.map_values(|e: Exp| e@);
            if variables.len() > 0 && !crate::helpers::str_eqs(operator.as_str(), "(")
                && !crate::helpers::str_eqs(operator.as_str(), ")") {
                let v = variables.pop_back().unwrap();
                self.var_stack.push_front(v);
                proof {
                    assert(variables@.map_values(|e: Exp| e@) =~= q_mid.drop_last());
                    assert(self.vars_view() =~= seq![q_mid.last()] + sv_mid);
                }
            }
            let ghost sv_mid2 = self.vars_view();
            self.op_stack.push_front(operator);
            proof {
                assert(self.ops_view() =~= seq![operator@] + so_mid);
                assert(self.vars_view() == sv_mid2);
            }
        }
        // push the remaining values at the end
        while variables.len() > 0
            invariant
                v0 == old(variables)@.map_values(|e: Exp| e@),
                o0 == old(operators)@.map_values(|s: String| s@),
                stack_wf(self.vars_view()),
                forall|i: int|
                    0 <= i < variables@.len() ==> (#[trigger] variables@[i]@).wf(),
                spec_parse_loop(old(self).vars_view(), old(self).ops_view(), v0, o0) matches Ok(
                    st,
                ) && st.2 + st.0 == variables@.map_values(|e: Exp| e@) + self.vars_view() && st.1
                    == self.ops_view(),
            decreases variables@.len(),
        {
            let ghost vars_before = variables@.map_values(|e: Exp| e@);
            let ghost sv_before = self.vars_view();
            let v = variables.pop_back().unwrap();
            self.var_stack.push_front(v);
            proof {
                assert(variables@.map_values(|e: Exp| e@) =~= vars_before.drop_last());
                assert(self.vars_view() =~= seq![vars_before.last()] + sv_before);
                assert(vars_before.drop_last() + (seq![vars_before.last()] + sv_before)
                    =~= vars_before + sv_before);
            }
        }
        proof {
            assert(variables@.map_values(|e: Exp| e@) =~= Seq::<ExpV>::empty());
            assert(Seq::<ExpV>::empty() + self.vars_view() =~= self.vars_view());
        }
        if self.op_stack.len() > 0 {
            proof {
                assert(variables@.map_values(|e: Exp| e@) =~= Seq::<ExpV>::empty());
            }
            match self.collapse_stacks_queued(-2, variables) {
                Ok(()) => {},
                Err(e) => {
                    return Err(e);
                },
            }
        }
        if self.var_stack.len() > 1 {
            Err(YamlError::LexError(LexError::Incomplete))
        } else if self.var_stack.len() == 1 {
            let ghost svf = self.vars_view();
            let ghost dq = self.var_stack@;
            let e = self.var_stack.pop_front().unwrap();
            proof {
                assert(svf[0] == dq[0]@);
                assert(e@ == svf[0]);
            }
            Ok(e)
        } else {
            Err(YamlError::LexError(LexError::ResultNotLiteral))
        }
    }
}

/// Parsing from a parser whose stacks may already hold entries.
pub open spec fn spec_parse_to_ast_from(
    sv: Seq<ExpV>,
    so: Seq<Seq<char>>,
    vars: Seq<ExpV>,
    ops: Seq<Seq<char>>,
) -> Result<ExpV, YamlErrorV> {
    match spec_parse_loop(sv, so, vars, ops) {
        Err(e) => Err(e),
        Ok(st) => {
            let sv2 = st.2 + st.0;
            let folded = if st.1.len() > 0 {
                spec_collapse_q(sv2, st.1, Seq::empty(), -2i32, 0)
            } else {
                Ok((sv2, st.1, Seq::<ExpV>::empty()))
            };
            match folded {
                Err(e) => Err(e),
                Ok(fin) => if fin.0.len() > 1 {
                    Err(YamlErrorV::LexError(LexError::Incomplete))
                } else if fin.0.len() == 1 {
                    Ok(fin.0[0])
                } else {
                    Err(YamlErrorV::LexError(LexError::ResultNotLiteral))
                },
            }
        },
    }
}

} // verus!
