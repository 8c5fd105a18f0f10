//! The library's stated laws: facts that relate several operations,
//! proved once and for all over the mathematical models.
use crate::ast::lit::{
    spec_dec_from_int, spec_lit_add, spec_lit_div, spec_lit_mul, spec_lit_rem, spec_lit_sub,
    Decimal, LitV,
};
use crate::ast::exp::ExpV;
use crate::ast::Op;
use crate::environment::{spec_env_get, spec_env_set, EnvV};
use crate::errors::{EvalErrorV, LexError, YamlErrorV};
use crate::helpers::spec_is_split_character;
use crate::lexer::{spec_lex, spec_lex_run, spec_lexer_init, WordState};
use crate::lexer::token_builder::{spec_append_ch, spec_is_quote_char, LexStateV};
use crate::parser::spec_parse_to_ast;
use crate::yaml::{spec_env_pop, spec_eval_expr};
use vstd::prelude::*;

verus! {

/// Opening `k` nested frames.
pub open spec fn spec_env_push_n(env: EnvV, k: nat) -> EnvV
    decreases k,
{
    if k == 0 {
        env
    } else {
        spec_env_push_n(env.push(Map::empty()), (k - 1) as nat)
    }
}

/// Closing `k` nested frames.
pub open spec fn spec_env_pop_n(env: EnvV, k: nat) -> EnvV
    decreases k,
{
    if k == 0 {
        env
    } else {
        spec_env_pop(spec_env_pop_n(env, (k - 1) as nat))
    }
}

/// After any number of matched push/pop pairs the environment — and with
/// it the frame count — returns to exactly its original value.
pub proof fn lemma_matched_push_pop(env: EnvV, k: nat)
    ensures
        spec_env_pop_n(spec_env_push_n(env, k), k) == env,
        spec_env_push_n(env, k).len() == env.len() + k,
    decreases k,
{
    if k > 0 {
        lemma_matched_push_pop(env.push(Map::empty()), (k - 1) as nat);
        assert(spec_env_pop(env.push(Map::empty())) =~= env);
    }
}

/// A declaration that succeeds is immediately visible: binding `n` in a
/// non-empty environment makes `n` look up to exactly the bound value.
pub proof fn lemma_declare_then_get(env: EnvV, n: Seq<char>, v: LitV)
    requires
        env.len() > 0,
    ensures
        spec_env_get(spec_env_set(env, n, v), n) == Some(v),
{
    let env2 = spec_env_set(env, n, v);
    assert(env2.last() == env.last().insert(n, v));
    assert(env2.last().contains_key(n));
}

/// A declaration of a different name leaves the binding alone: only
/// closing the frame or shadowing the same name can change what `n`
/// looks up to.
pub proof fn lemma_declare_other_keeps_get(env: EnvV, n: Seq<char>, m: Seq<char>, w: LitV)
    requires
        m != n,
    ensures
        spec_env_get(spec_env_set(env, m, w), n) == spec_env_get(env, n),
{
    if env.len() > 0 {
        let env2 = spec_env_set(env, m, w);
        assert(env2.last() == env.last().insert(m, w));
        assert(env2.drop_last() =~= env.drop_last());
        assert(env2.last().contains_key(n) == env.last().contains_key(n));
        if env.last().contains_key(n) {
            assert(env2.last()[n] == env.last()[n]);
        }
    }
}

/// Closing the innermost frame removes exactly its bindings: a fresh
/// frame opened and closed leaves every lookup as it was.
pub proof fn lemma_pop_restores_get(env: EnvV, n: Seq<char>)
    ensures
        spec_env_get(spec_env_pop(env.push(Map::empty())), n) == spec_env_get(env, n),
{
    assert(spec_env_pop(env.push(Map::empty())) =~= env);
}

/// Integer arithmetic is closed: `+`, `-` and `*` always yield a number
/// (wrapping at the 32-bit boundary), and `/` and `%` yield one for every
/// non-zero divisor short of the single overflowing pair.
pub proof fn lemma_integer_arithmetic_closed(a: i32, b: i32)
    ensures
        spec_lit_add(LitV::Number(a), LitV::Number(b)) matches Ok(v) && v is Number,
        spec_lit_sub(LitV::Number(a), LitV::Number(b)) matches Ok(v) && v is Number,
        spec_lit_mul(LitV::Number(a), LitV::Number(b)) matches Ok(v) && v is Number,
        b != 0 && !(a == i32::MIN && b == -1) ==> (spec_lit_div(LitV::Number(a), LitV::Number(b))
            matches Ok(v) && v is Number),
        b != 0 && !(a == i32::MIN && b == -1) ==> (spec_lit_rem(LitV::Number(a), LitV::Number(b))
            matches Ok(v) && v is Number),
{
    if b != 0 && !(a == i32::MIN && b == -1) {
        let x = a as int;
        let d = b as int;
        if x == 0 {
        } else if x > 0 && d > 0 {
            vstd::arithmetic::div_mod::lemma_div_pos_is_pos(x, d);
            vstd::arithmetic::div_mod::lemma_div_nonincreasing(x, d);
        } else if x < 0 && d < 0 {
            vstd::arithmetic::div_mod::lemma_div_pos_is_pos(-x, -d);
            if x == i32::MIN as int {
                vstd::arithmetic::div_mod::lemma_div_is_ordered_by_denominator(-x, 2, -d);
                assert((-x) == 2147483648int);
                assert(2147483648int / 2 == 1073741824int);
            } else {
                vstd::arithmetic::div_mod::lemma_div_nonincreasing(-x, -d);
            }
        } else if x < 0 {
            vstd::arithmetic::div_mod::lemma_div_pos_is_pos(-x, d);
            vstd::arithmetic::div_mod::lemma_div_nonincreasing(-x, d);
        } else {
            vstd::arithmetic::div_mod::lemma_div_pos_is_pos(x, -d);
            vstd::arithmetic::div_mod::lemma_div_nonincreasing(x, -d);
        }
    }
}

/// Mixed-type promotion commutes for the commutative operators: a number
/// plus (or times) a decimal succeeds exactly when the decimal plus (or
/// times) the number does, with the same value.
pub proof fn lemma_promotion_commutes(n: i32, d: Decimal)
    requires
        d.wf(),
    ensures
        spec_lit_add(LitV::Number(n), LitV::Decimal(d)) is Ok <==> spec_lit_add(
            LitV::Decimal(d),
            LitV::Number(n),
        ) is Ok,
        spec_lit_add(LitV::Number(n), LitV::Decimal(d)) is Ok ==> spec_lit_add(
            LitV::Number(n),
            LitV::Decimal(d),
        ) == spec_lit_add(LitV::Decimal(d), LitV::Number(n)),
        spec_lit_mul(LitV::Number(n), LitV::Decimal(d)) is Ok <==> spec_lit_mul(
            LitV::Decimal(d),
            LitV::Number(n),
        ) is Ok,
        spec_lit_mul(LitV::Number(n), LitV::Decimal(d)) is Ok ==> spec_lit_mul(
            LitV::Number(n),
            LitV::Decimal(d),
        ) == spec_lit_mul(LitV::Decimal(d), LitV::Number(n)),
{
    let i = spec_dec_from_int(n as int);
    assert(crate::ast::lit::spec_dec_add(i, d) == crate::ast::lit::spec_dec_add(d, i));
    assert(i.units * d.units == d.units * i.units) by (nonlinear_arith);
    assert(crate::ast::lit::spec_dec_mul(i, d) == crate::ast::lit::spec_dec_mul(d, i));
}

/// Integer division and remainder by zero raise the dedicated error.
pub proof fn lemma_division_by_zero(a: i32)
    ensures
        spec_lit_div(LitV::Number(a), LitV::Number(0)) == Err::<LitV, YamlErrorV>(
            YamlErrorV::EvalError(
                EvalErrorV::DivisionByZero(Op::Divide, LitV::Number(a), LitV::Number(0)),
            ),
        ),
        spec_lit_rem(LitV::Number(a), LitV::Number(0)) == Err::<LitV, YamlErrorV>(
            YamlErrorV::EvalError(
                EvalErrorV::DivisionByZero(Op::Modulo, LitV::Number(a), LitV::Number(0)),
            ),
        ),
{
}

/// An empty expression after the sigil fails: there is no literal to
/// return.
pub proof fn lemma_empty_expression_fails(env: EnvV)
    ensures
        spec_eval_expr(Seq::empty(), env).0 == Err::<crate::yaml::YamlV, YamlErrorV>(
            YamlErrorV::LexError(LexError::ResultNotLiteral),
        ),
        spec_eval_expr(Seq::empty(), env).1 == env,
{
    let st0 = spec_lexer_init();
    assert(spec_lex_run(st0, Seq::empty()) == Ok::<LexStateV, LexError>(st0));
    assert(spec_lex(st0, Seq::empty()) == Ok::<LexStateV, LexError>(st0));
    reveal_with_fuel(crate::parser::spec_parse_loop, 2);
    assert(st0.variables.len() == 0 && st0.operators.len() == 0);
    assert((Seq::<crate::ast::exp::ExpV>::empty() + Seq::<crate::ast::exp::ExpV>::empty()).len()
        == 0);
}

/// Running the lexer over whitespace alone leaves it in its idle starting
/// state.
proof fn lemma_lex_run_whitespace(s: Seq<char>)
    requires
        forall|j: int| 0 <= j < s.len() ==> spec_is_split_character(#[trigger] s[j]),
    ensures
        spec_lex_run(spec_lexer_init(), s) == Ok::<LexStateV, LexError>(spec_lexer_init()),
    decreases s.len(),
{
    if s.len() > 0 {
        assert(forall|j: int|
            0 <= j < s.drop_first().len() ==> spec_is_split_character(
                #[trigger] s.drop_first()[j],
            )) by {
            assert(forall|j: int|
                0 <= j < s.drop_first().len() ==> s.drop_first()[j] == s[j + 1]);
        }
        lemma_lex_run_whitespace(s.drop_first());
    }
}

/// An expression of whitespace alone fails like the empty one: lexing
/// yields no token, so nothing reduces to a literal.
pub proof fn lemma_whitespace_expression_fails(s: Seq<char>, env: EnvV)
    requires
        forall|j: int| 0 <= j < s.len() ==> spec_is_split_character(#[trigger] s[j]),
    ensures
        spec_eval_expr(s, env).0 == Err::<crate::yaml::YamlV, YamlErrorV>(
            YamlErrorV::LexError(LexError::ResultNotLiteral),
        ),
{
    lemma_lex_run_whitespace(s);
    let st0 = spec_lexer_init();
    assert(spec_lex(st0, s) == Ok::<LexStateV, LexError>(st0));
    reveal_with_fuel(crate::parser::spec_parse_loop, 2);
    assert((Seq::<crate::ast::exp::ExpV>::empty() + Seq::<crate::ast::exp::ExpV>::empty()).len()
        == 0);
}

/// The parenthesis balance of an operator token stream: closing tokens
/// count up, opening tokens down.
pub open spec fn spec_paren_balance(ops: Seq<Seq<char>>) -> int
    decreases ops.len(),
{
    if ops.len() == 0 {
        0
    } else {
        spec_paren_balance(ops.drop_first()) + (if ops[0] == ")"@ {
            1int
        } else if ops[0] == "("@ {
            -1int
        } else {
            0int
        })
    }
}

proof fn lemma_paren_balance_drop_last(ops: Seq<Seq<char>>)
    requires
        ops.len() > 0,
    ensures
        spec_paren_balance(ops) == spec_paren_balance(ops.drop_last()) + (if ops.last() == ")"@ {
            1int
        } else if ops.last() == "("@ {
            -1int
        } else {
            0int
        }),
    decreases ops.len(),
{
    let c0: int = if ops[0] == ")"@ {
        1
    } else if ops[0] == "("@ {
        -1
    } else {
        0
    };
    let cl: int = if ops.last() == ")"@ {
        1
    } else if ops.last() == "("@ {
        -1
    } else {
        0
    };
    assert(spec_paren_balance(ops) == spec_paren_balance(ops.drop_first()) + c0);
    if ops.len() > 1 {
        lemma_paren_balance_drop_last(ops.drop_first());
        assert(ops.drop_first().last() == ops.last());
        assert(spec_paren_balance(ops.drop_first()) == spec_paren_balance(
            ops.drop_first().drop_last(),
        ) + cl);
        assert(ops.drop_first().drop_last() =~= ops.drop_last().drop_first());
        assert(ops.drop_last()[0] == ops[0]);
        assert(ops.drop_last().len() > 0);
        assert(spec_paren_balance(ops.drop_last()) == spec_paren_balance(
            ops.drop_last().drop_first(),
        ) + c0);
    } else {
        assert(ops.drop_last() =~= Seq::<Seq<char>>::empty());
        assert(ops.last() == ops[0]);
        assert(ops.drop_first() =~= Seq::<Seq<char>>::empty());
        assert(spec_paren_balance(Seq::<Seq<char>>::empty()) == 0);
    }
}

proof fn lemma_paren_balance_prepend(op: Seq<char>, ops: Seq<Seq<char>>)
    ensures
        spec_paren_balance(seq![op] + ops) == spec_paren_balance(ops) + (if op == ")"@ {
            1int
        } else if op == "("@ {
            -1int
        } else {
            0int
        }),
{
    assert((seq![op] + ops).drop_first() =~= ops);
    assert((seq![op] + ops)[0] == op);
}

/// A collapse that completes consumed a chunk whose parenthesis balance
/// cancels the count it started from.
proof fn lemma_collapse_q_balance(
    vars: Seq<ExpV>,
    ops: Seq<Seq<char>>,
    queue: Seq<ExpV>,
    thr: i32,
    pc: int,
)
    ensures
        crate::parser::spec_collapse_q(vars, ops, queue, thr, pc) matches Ok(s2)
            ==> spec_paren_balance(ops) == spec_paren_balance(s2.1) - pc,
    decreases ops.len(),
{
    if !(ops.len() == 0 || !(thr < crate::helpers::spec_operator_precedence(ops[0]) || pc > 0)) {
        let op = ops[0];
        let rest = ops.drop_first();
        lemma_paren_balance_prepend(op, rest);
        assert(seq![op] + rest =~= ops);
        if op == ")"@ {
            lemma_collapse_q_balance(vars, rest, queue, thr, pc + 1);
        } else if op == "("@ {
            lemma_collapse_q_balance(vars, rest, queue, thr, pc - 1);
        } else if op == "!"@ {
            if vars.len() >= 1 {
                lemma_collapse_q_balance(
                    seq![ExpV::UnaryOp(crate::ast::Op::Not, Box::new(vars[0]))]
                        + vars.drop_first(),
                    rest,
                    queue,
                    thr,
                    pc,
                );
            } else if queue.len() >= 1 {
                lemma_collapse_q_balance(
                    seq![ExpV::UnaryOp(crate::ast::Op::Not, Box::new(queue.last()))],
                    rest,
                    queue.drop_last(),
                    thr,
                    pc,
                );
            }
        } else if vars.len() >= 2 {
            match crate::helpers::spec_operator_to_exp(op, vars[1], vars[0]) {
                Ok(node) => {
                    lemma_collapse_q_balance(seq![node] + vars.skip(2), rest, queue, thr, pc);
                },
                Err(_) => {},
            }
        } else if vars.len() == 1 && queue.len() >= 1 {
            match crate::helpers::spec_operator_to_exp(op, vars[0], queue.last()) {
                Ok(node) => {
                    lemma_collapse_q_balance(seq![node], rest, queue.drop_last(), thr, pc);
                },
                Err(_) => {},
            }
        }
    }
}

/// The main loop conserves the total parenthesis balance across the
/// operator stack and the remaining stream.
proof fn lemma_parse_loop_balance(
    sv: Seq<ExpV>,
    so: Seq<Seq<char>>,
    vars: Seq<ExpV>,
    ops: Seq<Seq<char>>,
)
    ensures
        crate::parser::spec_parse_loop(sv, so, vars, ops) matches Ok(st) ==> spec_paren_balance(
            st.1,
        ) == spec_paren_balance(so) + spec_paren_balance(ops),
    decreases ops.len(),
{
    if ops.len() > 0 {
        let op = ops.last();
        let rest = ops.drop_last();
        let p = crate::helpers::spec_operator_precedence(op);
        lemma_paren_balance_drop_last(ops);
        let fp = if so.len() > 0 {
            crate::helpers::spec_operator_precedence(so[0])
        } else {
            0
        };
        let collapsing = so.len() > 0 && p != -1 && (p < fp || (p == fp
            && crate::parser::spec_left_assoc(p)));
        let thr: i32 = if so.len() > 0 && p < fp {
            p
        } else {
            (p - 1) as i32
        };
        if collapsing {
            lemma_collapse_q_balance(sv, so, vars, thr, 0);
            match crate::parser::spec_collapse_q(sv, so, vars, thr, 0) {
                Ok(s1) => {
                    lemma_paren_balance_prepend(op, s1.1);
                    if s1.2.len() > 0 && op != "("@ && op != ")"@ {
                        lemma_parse_loop_balance(
                            seq![s1.2.last()] + s1.0,
                            seq![op] + s1.1,
                            s1.2.drop_last(),
                            rest,
                        );
                    } else {
                        lemma_parse_loop_balance(s1.0, seq![op] + s1.1, s1.2, rest);
                    }
                },
                Err(_) => {},
            }
        } else {
            lemma_paren_balance_prepend(op, so);
            if vars.len() > 0 && op != "("@ && op != ")"@ {
                lemma_parse_loop_balance(seq![vars.last()] + sv, seq![op] + so, vars.drop_last(), rest);
            } else {
                lemma_parse_loop_balance(sv, seq![op] + so, vars, rest);
            }
        }
    }
}

/// Parenthesis balance: a token stream whose `(` and `)` counts differ
/// never parses to a tree; some error (most directly the unmatched
/// parenthesis) comes back instead, and no partial tree.
pub proof fn lemma_unbalanced_parens_never_parse(vars: Seq<ExpV>, ops: Seq<Seq<char>>)
    requires
        spec_paren_balance(ops) != 0,
    ensures
        spec_parse_to_ast(vars, ops) is Err,
{
    lemma_parse_loop_balance(Seq::empty(), Seq::empty(), vars, ops);
    match crate::parser::spec_parse_loop(Seq::empty(), Seq::empty(), vars, ops) {
        Ok(st) => {
            assert(spec_paren_balance(st.1) == spec_paren_balance(ops));
            if st.1.len() > 0 {
                lemma_collapse_q_balance(st.2 + st.0, st.1, Seq::empty(), -2i32, 0);
                match crate::parser::spec_collapse_q(st.2 + st.0, st.1, Seq::empty(), -2i32, 0) {
                    Ok(fin) => {
                        lemma_collapse_q_exhausts(st.2 + st.0, st.1, Seq::empty(), -2i32, 0);
                        assert(spec_paren_balance(fin.1) == 0);
                        assert(false);
                    },
                    Err(_) => {},
                }
            }
        },
        Err(_) => {},
    }
}

/// A final collapse (threshold below every precedence) that completes
/// drains the whole operator stack.
proof fn lemma_collapse_q_exhausts(
    vars: Seq<ExpV>,
    ops: Seq<Seq<char>>,
    queue: Seq<ExpV>,
    thr: i32,
    pc: int,
)
    requires
        thr < -1,
    ensures
        crate::parser::spec_collapse_q(vars, ops, queue, thr, pc) matches Ok(s2) ==> s2.1.len()
            == 0,
    decreases ops.len(),
{
    if !(ops.len() == 0 || !(thr < crate::helpers::spec_operator_precedence(ops[0]) || pc > 0)) {
        let op = ops[0];
        let rest = ops.drop_first();
        if op == ")"@ {
            lemma_collapse_q_exhausts(vars, rest, queue, thr, pc + 1);
        } else if op == "("@ {
            lemma_collapse_q_exhausts(vars, rest, queue, thr, pc - 1);
        } else if op == "!"@ {
            if vars.len() >= 1 {
                lemma_collapse_q_exhausts(
                    seq![ExpV::UnaryOp(crate::ast::Op::Not, Box::new(vars[0]))]
                        + vars.drop_first(),
                    rest,
                    queue,
                    thr,
                    pc,
                );
            } else if queue.len() >= 1 {
                lemma_collapse_q_exhausts(
                    seq![ExpV::UnaryOp(crate::ast::Op::Not, Box::new(queue.last()))],
                    rest,
                    queue.drop_last(),
                    thr,
                    pc,
                );
            }
        } else if vars.len() >= 2 {
            match crate::helpers::spec_operator_to_exp(op, vars[1], vars[0]) {
                Ok(node) => {
                    lemma_collapse_q_exhausts(seq![node] + vars.skip(2), rest, queue, thr, pc);
                },
                Err(_) => {},
            }
        } else if vars.len() == 1 && queue.len() >= 1 {
            match crate::helpers::spec_operator_to_exp(op, vars[0], queue.last()) {
                Ok(node) => {
                    lemma_collapse_q_exhausts(seq![node], rest, queue.drop_last(), thr, pc);
                },
                Err(_) => {},
            }
        }
    }
}

/// Operator precedence at the values: with operands comfortably in
/// range, the tree grouped as `a + (b * c)` reduces to the sum with the
/// product, the tree grouped as `(a + b) * c` to the product with the
/// sum, and for `a` other than zero and `c` other than one the two
/// results differ.
pub proof fn lemma_operator_precedence_values(a: i32, b: i32, c: i32, env: EnvV)
    requires
        -30000 <= a <= 30000,
        -30000 <= b <= 30000,
        -30000 <= c <= 30000,
    ensures
        crate::ast::exp::spec_eval(
            ExpV::BinaryOp(
                Op::Plus,
                Box::new(ExpV::Lit(LitV::Number(a))),
                Box::new(
                    ExpV::BinaryOp(
                        Op::Times,
                        Box::new(ExpV::Lit(LitV::Number(b))),
                        Box::new(ExpV::Lit(LitV::Number(c))),
                    ),
                ),
            ),
            env,
        ).0 == Ok::<ExpV, YamlErrorV>(ExpV::Lit(LitV::Number((a + b * c) as i32))),
        crate::ast::exp::spec_eval(
            ExpV::BinaryOp(
                Op::Times,
                Box::new(
                    ExpV::BinaryOp(
                        Op::Plus,
                        Box::new(ExpV::Lit(LitV::Number(a))),
                        Box::new(ExpV::Lit(LitV::Number(b))),
                    ),
                ),
                Box::new(ExpV::Lit(LitV::Number(c))),
            ),
            env,
        ).0 == Ok::<ExpV, YamlErrorV>(ExpV::Lit(LitV::Number(((a + b) * c) as i32))),
        a != 0 && c != 1 ==> (a + b * c) != (a + b) * c,
{
    reveal_with_fuel(crate::ast::exp::spec_eval, 4);
    assert(-900000000 <= b * c <= 900000000) by (nonlinear_arith)
        requires
            -30000 <= b <= 30000,
            -30000 <= c <= 30000,
    ;
    assert(-1800030000 <= (a + b) * c <= 1800030000) by (nonlinear_arith)
        requires
            -60000 <= a + b <= 60000,
            -30000 <= c <= 30000,
    ;
    lemma_signed_crop_small(b * c);
    lemma_signed_crop_small((a + b) * c);
    if a != 0 && c != 1 {
        assert((a + b * c) != (a + b) * c) by (nonlinear_arith)
            requires
                a != 0,
                c != 1,
        ;
    }
}

/// Cropping to 32 bits keeps an in-range value.
proof fn lemma_signed_crop_small(p: int)
    requires
        i32::MIN <= p <= i32::MAX,
    ensures
        vstd::wrapping::i32_specs::signed_crop(p as i32 as int) == p,
        vstd::wrapping::i32_specs::signed_crop(p) == p,
{
    if p >= 0 {
        vstd::arithmetic::div_mod::lemma_small_mod(p as nat, 4294967296nat);
    } else {
        vstd::arithmetic::div_mod::lemma_fundamental_div_mod_converse(
            p,
            4294967296,
            -1,
            p + 4294967296,
        );
    }
}

/// How many double quotes `s` holds.
pub open spec fn spec_quote_count(s: Seq<char>) -> nat
    decreases s.len(),
{
    if s.len() == 0 {
        0
    } else {
        spec_quote_count(s.drop_first()) + if spec_is_quote_char(s[0]) {
            1nat
        } else {
            0nat
        }
    }
}

/// One accepted step toggles the in-string state exactly on a quote.
proof fn lemma_append_ch_string_parity(st: LexStateV, c: char)
    ensures
        spec_append_ch(st, c) matches Ok(st2) ==> ((st2.curr_state == WordState::String) == ((
        st.curr_state == WordState::String) != spec_is_quote_char(c))),
{
}

/// The in-string state after a run reflects the parity of the quotes
/// read so far.
proof fn lemma_lex_run_quote_parity(st: LexStateV, s: Seq<char>)
    ensures
        spec_lex_run(st, s) matches Ok(st2) ==> ((st2.curr_state == WordState::String) == ((
        st.curr_state == WordState::String) != (spec_quote_count(s) % 2 == 1))),
    decreases s.len(),
{
    if s.len() > 0 {
        let c = s[0];
        if spec_is_split_character(c) {
            let stm = if st.curr_state == WordState::String {
                LexStateV { curr_chars: st.curr_chars.push(c), ..st }
            } else {
                st
            };
            lemma_lex_run_quote_parity(stm, s.drop_first());
        } else {
            lemma_append_ch_string_parity(st, c);
            match spec_append_ch(st, c) {
                Ok(stm) => {
                    lemma_lex_run_quote_parity(stm, s.drop_first());
                },
                Err(_) => {},
            }
        }
    }
}

/// An input with an odd number of double quotes never lexes: its final
/// string never closes.
pub proof fn lemma_unmatched_quote_fails(s: Seq<char>)
    requires
        spec_quote_count(s) % 2 == 1,
    ensures
        spec_lex(spec_lexer_init(), s) is Err,
{
    lemma_lex_run_quote_parity(spec_lexer_init(), s);
}

} // verus!
