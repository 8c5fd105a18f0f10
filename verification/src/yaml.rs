//! The YAML-level interpreter: walks a YAML value, evaluates every string
//! carrying the `~>` sigil as an expression, and dispatches the control
//! keywords `return`, `if` and `while`.
use crate::ast::exp::{Exp, ExpV};
use crate::ast::lit::{spec_dec_to_text, Lit, LitV};
use crate::environment::{spec_env_get, ASTEnvironment, EnvV};
use crate::errors::{EvalError, LexError, YamlError, YamlErrorV};
use crate::helpers::str_eqs;
use vstd::string::StringExecFns;
use crate::lexer::{spec_lex, spec_lexer_init, Lexer};
use crate::parser::{spec_parse_to_ast, Parser};
use vstd::prelude::*;

verus! {

/// A YAML value, as the interpreter sees it: scalars, sequences, and
/// mappings held as ordered key/value pair lists.
#[derive(Debug, PartialEq)]
pub enum YamlVal {
    /// A real scalar, kept as its textual form.
    Real(String),
    /// An integer scalar.
    Integer(i64),
    /// A string scalar.
    Str(String),
    /// A boolean scalar.
    Boolean(bool),
    /// A sequence of values.
    Array(Vec<YamlVal>),
    /// A mapping, in insertion order.
    Hash(Vec<(YamlVal, YamlVal)>),
    /// An alias node (carried through unchanged).
    Alias(usize),
    /// The null scalar.
    Null,
    /// A placeholder for an invalid access.
    BadValue,
}

/// The mathematical shape of a [`YamlVal`].
pub enum YamlV {
    Real(Seq<char>),
    Integer(i64),
    Str(Seq<char>),
    Boolean(bool),
    Array(Seq<YamlV>),
    Hash(Seq<(YamlV, YamlV)>),
    Alias(usize),
    Null,
    BadValue,
}

/// The shape of a sequence of YAML values.
pub open spec fn shape_seq_arr(s: Seq<YamlVal>) -> Seq<YamlV>
    decreases s,
{
    if s.len() == 0 {
        Seq::empty()
    } else {
        shape_seq_arr(s.drop_last()).push(s.last().shape())
    }
}

/// The shape of a sequence of YAML key/value pairs.
pub open spec fn shape_seq_hash(s: Seq<(YamlVal, YamlVal)>) -> Seq<(YamlV, YamlV)>
    decreases s,
{
    if s.len() == 0 {
        Seq::empty()
    } else {
        shape_seq_hash(s.drop_last()).push((s.last().0.shape(), s.last().1.shape()))
    }
}

/// Element-wise reading of [`shape_seq_arr`].
pub proof fn lemma_shape_seq_arr(s: Seq<YamlVal>)
    ensures
        shape_seq_arr(s).len() == s.len(),
        forall|i: int| 0 <= i < s.len() ==> shape_seq_arr(s)[i] == (#[trigger] s[i]).shape(),
    decreases s.len(),
{
    if s.len() > 0 {
        lemma_shape_seq_arr(s.drop_last());
        assert forall|i: int| 0 <= i < s.len() implies shape_seq_arr(s)[i] == (
        #[trigger] s[i]).shape() by {
            if i < s.len() - 1 {
                assert(s.drop_last()[i] == s[i]);
            }
        }
    }
}

/// Element-wise reading of [`shape_seq_hash`].
pub proof fn lemma_shape_seq_hash(s: Seq<(YamlVal, YamlVal)>)
    ensures
        shape_seq_hash(s).len() == s.len(),
        forall|i: int|
            0 <= i < s.len() ==> shape_seq_hash(s)[i] == ((#[trigger] s[i]).0.shape(),
            s[i].1.shape()),
    decreases s.len(),
{
    if s.len() > 0 {
        lemma_shape_seq_hash(s.drop_last());
        assert forall|i: int| 0 <= i < s.len() implies shape_seq_hash(s)[i] == ((
        #[trigger] s[i]).0.shape(), s[i].1.shape()) by {
            if i < s.len() - 1 {
                assert(s.drop_last()[i] == s[i]);
            }
        }
    }
}

impl YamlVal {
    /// The mathematical shape of the tree.
    pub open spec fn shape(&self) -> YamlV
        decreases self,
    {
        match self {
            YamlVal::Real(s) => YamlV::Real(s@),
            YamlVal::Integer(n) => YamlV::Integer(*n),
            YamlVal::Str(s) => YamlV::Str(s@),
            YamlVal::Boolean(b) => YamlV::Boolean(*b),
            YamlVal::Array(a) => YamlV::Array(shape_seq_arr(a@)),
            YamlVal::Hash(h) => YamlV::Hash(shape_seq_hash(h@)),
            YamlVal::Alias(u) => YamlV::Alias(*u),
            YamlVal::Null => YamlV::Null,
            YamlVal::BadValue => YamlV::BadValue,
        }
    }

    /// An exact copy.
    pub fn duplicate(&self) -> (r: YamlVal)
        ensures
            r@ == self@,
        decreases self,
    {
        match self {
            YamlVal::Real(s) => YamlVal::Real(s.clone()),
            YamlVal::Integer(n) => YamlVal::Integer(*n),
            YamlVal::Str(s) => YamlVal::Str(s.clone()),
            YamlVal::Boolean(b) => YamlVal::Boolean(*b),
            YamlVal::Array(a) => {
                let mut out: Vec<YamlVal> = Vec::new();
                let mut i: usize = 0;
                while i < a.len()
                    invariant
                        i <= a@.len(),
                        out@.len() == i,
                        *self == YamlVal::Array(*a),
                        forall|j: int| 0 <= j < i ==> out@[j]@ == a@[j]@,
                    decreases a@.len() - i,
                {
                    proof {
                        assert(decreases_to!(*self => self->Array_0));
                        assert(self->Array_0 == *a);
                        assert(decreases_to!(*a => a@));
                        assert(decreases_to!(a@ => a@[i as int]));
                    }
                    out.push(a[i].duplicate());
                    i += 1;
                }
                let r = YamlVal::Array(out);
                proof {
                    lemma_shape_seq_arr(out@);
                    lemma_shape_seq_arr(a@);
                    assert forall|j: int| 0 <= j < out@.len() implies shape_seq_arr(out@)[j]
                        == shape_seq_arr(a@)[j] by {
                        assert(out@[j]@ == a@[j]@);
                    }
                    assert(shape_seq_arr(out@) =~= shape_seq_arr(a@));
                }
                r
            },
            YamlVal::Hash(h) => {
                let mut out: Vec<(YamlVal, YamlVal)> = Vec::new();
                let mut i: usize = 0;
                while i < h.len()
                    invariant
                        i <= h@.len(),
                        out@.len() == i,
                        *self == YamlVal::Hash(*h),
                        forall|j: int|
                            0 <= j < i ==> (#[trigger] out@[j]).0@ == h@[j].0@ && out@[j].1@
                                == h@[j].1@,
                    decreases h@.len() - i,
                {
                    let e = &h[i];
                    proof {
                        assert(decreases_to!(*self => self->Hash_0));
                        assert(self->Hash_0 == *h);
                        assert(decreases_to!(*h => h@));
                        assert(decreases_to!(h@ => h@[i as int]));
                        assert(decreases_to!(h@[i as int] => h@[i as int].0));
                        assert(decreases_to!(h@[i as int] => h@[i as int].1));
                    }
                    out.push((e.0.duplicate(), e.1.duplicate()));
                    i += 1;
                }
                let r = YamlVal::Hash(out);
                proof {
                    lemma_shape_seq_hash(out@);
                    lemma_shape_seq_hash(h@);
                    assert forall|j: int| 0 <= j < out@.len() implies shape_seq_hash(out@)[j]
                        == shape_seq_hash(h@)[j] by {
                        assert(out@[j].0@ == h@[j].0@ && out@[j].1@ == h@[j].1@);
                    }
                    assert(shape_seq_hash(out@) =~= shape_seq_hash(h@));
                }
                r
            },
            YamlVal::Alias(u) => YamlVal::Alias(*u),
            YamlVal::Null => YamlVal::Null,
            YamlVal::BadValue => YamlVal::BadValue,
        }
    }
}

impl View for YamlVal {
    type V = YamlV;

    open spec fn view(&self) -> YamlV {
        self.shape()
    }
}

/// A normal value, or a short-circuiting `return` value that collapses the
/// enclosing sequences.
#[derive(Debug, PartialEq)]
pub enum YamlType {
    Value(YamlVal),
    Return(YamlVal),
}

/// The mathematical shape of a [`YamlType`].
pub enum YamlTypeV {
    Value(YamlV),
    Return(YamlV),
}

impl View for YamlType {
    type V = YamlTypeV;

    open spec fn view(&self) -> YamlTypeV {
        match self {
            YamlType::Value(v) => YamlTypeV::Value(v@),
            YamlType::Return(v) => YamlTypeV::Return(v@),
        }
    }
}

/// The index of the first `~>` in `s`, or -1 when there is none.
pub open spec fn spec_find_sigil(s: Seq<char>) -> int
    decreases s.len(),
{
    if s.len() < 2 {
        -1
    } else if s[0] == '~' && s[1] == '>' {
        0
    } else {
        let r = spec_find_sigil(s.drop_first());
        if r < 0 {
            -1
        } else {
            1 + r
        }
    }
}

/// Whether `s` contains the `~>` sigil.
pub open spec fn spec_has_sigil(s: Seq<char>) -> bool {
    spec_find_sigil(s) >= 0
}

/// Everything after the first sigil: the expression text.
pub open spec fn spec_sigil_rest(s: Seq<char>) -> Seq<char> {
    s.skip(spec_find_sigil(s) + 2)
}

proof fn lemma_find_sigil_in_range(s: Seq<char>)
    ensures
        spec_find_sigil(s) >= 0 ==> spec_find_sigil(s) + 2 <= s.len(),
        spec_find_sigil(s) >= -1,
    decreases s.len(),
{
    if s.len() >= 2 && !(s[0] == '~' && s[1] == '>') {
        lemma_find_sigil_in_range(s.drop_first());
    }
}

/// Finds the first `~>`, scanning left to right.
fn find_sigil(s: &str) -> (r: Option<usize>)
    ensures
        match r {
            Some(i) => spec_find_sigil(s@) == i && i + 2 <= s@.len(),
            None => spec_find_sigil(s@) == -1,
        },
{
    let len = s.unicode_len();
    let mut i: usize = 0;
    proof {
        lemma_find_sigil_in_range(s@);
        assert(s@.skip(0) =~= s@);
    }
    while i + 1 < len
        invariant
            len == s@.len(),
            i + 1 <= len || len == 0,
            i <= len,
            spec_find_sigil(s@) == if spec_find_sigil(s@.skip(i as int)) < 0 {
                -1int
            } else {
                i + spec_find_sigil(s@.skip(i as int))
            },
        decreases len - i,
    {
        let c0 = s.get_char(i);
        let c1 = s.get_char(i + 1);
        proof {
            assert(s@.skip(i as int)[0] == s@[i as int]);
            assert(s@.skip(i as int)[1] == s@[i + 1]);
            assert(s@.skip(i as int).drop_first() =~= s@.skip(i + 1));
        }
        if c0 == '~' && c1 == '>' {
            proof {
                assert(spec_find_sigil(s@.skip(i as int)) == 0);
                lemma_find_sigil_in_range(s@);
            }
            return Some(i);
        }
        i += 1;
    }
    proof {
        assert(s@.skip(i as int).len() < 2);
    }
    None
}

/// The YAML value a reduced literal converts back to. A `Nil` result (or
/// anything that is not a literal) falls back to the raw expression text.
pub open spec fn spec_lit_to_yaml(e: ExpV, text: Seq<char>) -> YamlV {
    match e {
        ExpV::Lit(LitV::Number(n)) => YamlV::Integer(n as i64),
        ExpV::Lit(LitV::Decimal(d)) => YamlV::Real(spec_dec_to_text(d)),
        ExpV::Lit(LitV::Bool(b)) => YamlV::Boolean(b),
        ExpV::Lit(LitV::Str(s)) => YamlV::Str(s),
        _ => YamlV::Str(text),
    }
}

/// Evaluating one expression text: lex, parse, reduce against the
/// environment, and convert the resulting literal back to YAML.
pub open spec fn spec_eval_expr(text: Seq<char>, env: EnvV) -> (Result<YamlV, YamlErrorV>, EnvV) {
    match spec_lex(spec_lexer_init(), text) {
        Err(e) => (Err(YamlErrorV::LexError(e)), env),
        Ok(st) => match spec_parse_to_ast(st.variables, st.operators) {
            Err(e) => (Err(e), env),
            Ok(ast) => {
                let er = crate::ast::exp::spec_eval(ast, env);
                match er.0 {
                    Err(e) => (Err(e), er.1),
                    Ok(res) => (Ok(spec_lit_to_yaml(res, text)), er.1),
                }
            },
        },
    }
}

/// Whether a predicate result counts as true: `true` itself, or a
/// positive integer (the historical predicate form).
pub open spec fn spec_truthy(y: YamlV) -> bool {
    match y {
        YamlV::Boolean(b) => b,
        YamlV::Integer(n) => n > 0,
        _ => false,
    }
}

/// The first pair whose key is one of the recognized control keywords,
/// or -1 when no key is.
pub open spec fn spec_find_keyword(pairs: Seq<(YamlV, YamlV)>) -> int
    decreases pairs.len(),
{
    if pairs.len() == 0 {
        -1
    } else if pairs[0].0 matches YamlV::Str(s) && (s == "return"@ || s == "if"@ || s
        == "while"@) {
        0
    } else {
        let r = spec_find_keyword(pairs.drop_first());
        if r < 0 {
            -1
        } else {
            1 + r
        }
    }
}

/// The first pair whose key is the string `name`, or -1.
pub open spec fn spec_find_key(pairs: Seq<(YamlV, YamlV)>, name: Seq<char>) -> int
    decreases pairs.len(),
{
    if pairs.len() == 0 {
        -1
    } else if pairs[0].0 == YamlV::Str(name) {
        0
    } else {
        let r = spec_find_key(pairs.drop_first(), name);
        if r < 0 {
            -1
        } else {
            1 + r
        }
    }
}

/// Walks the body of an `if`/`while` keyword: the predicate fragments are
/// the expression texts of the leading sigil strings; the first mapping
/// element carries the branches. Returns the fragments and the mapping's
/// index (-1 when there is none).
pub open spec fn spec_scan_control(arr: Seq<YamlV>, i: int) -> (Seq<Seq<char>>, int)
    decreases arr.len() - i,
{
    if i < 0 || i >= arr.len() {
        (Seq::empty(), -1)
    } else {
        match arr[i] {
            YamlV::Hash(_) => (Seq::empty(), i),
            YamlV::Str(s) => {
                let rest = spec_scan_control(arr, i + 1);
                if spec_has_sigil(s) {
                    (seq![spec_sigil_rest(s)] + rest.0, rest.1)
                } else {
                    rest
                }
            },
            _ => spec_scan_control(arr, i + 1),
        }
    }
}

/// A fragment wrapped in parentheses.
pub open spec fn spec_paren(f: Seq<char>) -> Seq<char> {
    "("@ + f + ")"@
}

/// The glue and wrap for every fragment after the first.
pub open spec fn spec_join_rest(frags: Seq<Seq<char>>) -> Seq<char>
    decreases frags.len(),
{
    if frags.len() == 0 {
        Seq::empty()
    } else {
        " && ("@ + frags[0] + ")"@ + spec_join_rest(frags.drop_first())
    }
}

/// The predicate text: the fragments parenthesized and joined with `&&`.
pub open spec fn spec_join_prop(frags: Seq<Seq<char>>) -> Seq<char> {
    if frags.len() == 0 {
        Seq::empty()
    } else {
        spec_paren(frags[0]) + spec_join_rest(frags.drop_first())
    }
}

/// Closing the innermost frame at the model level.
pub open spec fn spec_env_pop(env: EnvV) -> EnvV {
    if env.len() > 0 {
        env.drop_last()
    } else {
        env
    }
}

/// One evaluation step outcome: the result and the environment after it.
pub type YStep = (Result<YamlTypeV, YamlErrorV>, EnvV);

/// The meaning of evaluating a YAML value, indexed by a fuel that bounds
/// the depth of the run; `None` means the budget ran out, and a larger
/// budget never changes a settled answer. A string with the sigil
/// evaluates as an expression; a sequence evaluates its elements in order
/// until a `return` short-circuits, its value being the last element's;
/// a mapping dispatches on its first recognized keyword.
pub open spec fn yeval(y: YamlV, env: EnvV, fuel: nat) -> Option<YStep>
    decreases fuel,
{
    if fuel == 0 {
        None
    } else {
        let f = (fuel - 1) as nat;
        match y {
            YamlV::Str(s) => Some(
                if spec_has_sigil(s) {
                    let er = spec_eval_expr(spec_sigil_rest(s), env);
                    match er.0 {
                        Ok(v) => (Ok(YamlTypeV::Value(v)), er.1),
                        Err(e) => (Err(e), er.1),
                    }
                } else {
                    (Ok(YamlTypeV::Value(YamlV::Str(s))), env)
                },
            ),
            YamlV::Array(a) => yeval_seq(a, a, env, f, Option::<YamlV>::None),
            YamlV::Hash(pairs) => {
                let ki = spec_find_keyword(pairs);
                if ki < 0 {
                    Some((Ok(YamlTypeV::Value(YamlV::Hash(pairs))), env))
                } else {
                    let kname = pairs[ki].0->Str_0;
                    let v = pairs[ki].1;
                    if kname == "return"@ {
                        match yeval(v, env, f) {
                            None => None,
                            Some(rr) => match rr.0 {
                                Ok(YamlTypeV::Value(val)) => Some(
                                    (Ok(YamlTypeV::Return(val)), rr.1),
                                ),
                                _ => Some(rr),
                            },
                        }
                    } else {
                        match v {
                            YamlV::Array(arr) => {
                                let sc = spec_scan_control(arr, 0);
                                if sc.1 < 0 {
                                    Some((Ok(YamlTypeV::Value(v)), env))
                                } else {
                                    let h2 = arr[sc.1]->Hash_0;
                                    let prop = spec_join_prop(sc.0);
                                    if kname == "if"@ {
                                        yif(prop, h2, env, f)
                                    } else {
                                        let di = spec_find_key(h2, "do"@);
                                        if di < 0 || prop.len() == 0 {
                                            Some((Ok(YamlTypeV::Value(YamlV::Hash(h2))), env))
                                        } else {
                                            ywhile(prop, h2[di].1, h2, env, f)
                                        }
                                    }
                                }
                            },
                            _ => Some((Ok(YamlTypeV::Value(v)), env)),
                        }
                    }
                }
            },
            _ => Some((Ok(YamlTypeV::Value(y)), env)),
        }
    }
}

/// Evaluating the elements of a sequence left to right. An error or a
/// `return` stops and propagates; otherwise the last element's value (or
/// the whole sequence, when no element produced one) is the result.
pub open spec fn yeval_seq(
    elems: Seq<YamlV>,
    arr0: Seq<YamlV>,
    env: EnvV,
    fuel: nat,
    last: Option<YamlV>,
) -> Option<YStep>
    decreases fuel,
{
    if fuel == 0 {
        None
    } else {
        let f = (fuel - 1) as nat;
        if elems.len() == 0 {
            Some(
                (
                    Ok(
                        YamlTypeV::Value(
                            match last {
                                Some(v) => v,
                                None => YamlV::Array(arr0),
                            },
                        ),
                    ),
                    env,
                ),
            )
        } else {
            match yeval(elems[0], env, f) {
                None => None,
                Some(rr) => match rr.0 {
                    Err(e) => Some((Err(e), rr.1)),
                    Ok(YamlTypeV::Return(v)) => Some((Ok(YamlTypeV::Return(v)), rr.1)),
                    Ok(YamlTypeV::Value(v)) => yeval_seq(
                        elems.drop_first(),
                        arr0,
                        rr.1,
                        f,
                        Some(v),
                    ),
                },
            }
        }
    }
}

/// Evaluating one branch body inside a fresh frame, which closes again
/// afterwards (also on an error).
pub open spec fn ybranch(body: YamlV, env: EnvV, fuel: nat) -> Option<YStep>
    decreases fuel,
{
    if fuel == 0 {
        None
    } else {
        let f = (fuel - 1) as nat;
        match yeval(body, env.push(Map::empty()), f) {
            None => None,
            Some(rr) => Some((rr.0, spec_env_pop(rr.1))),
        }
    }
}

/// The `if` keyword: evaluate the predicate once; when it is truthy run
/// the `do` branch, otherwise the `else` branch; with no branch to run
/// (or no predicate at all) the nested mapping itself is the value.
pub open spec fn yif(prop: Seq<char>, h2: Seq<(YamlV, YamlV)>, env: EnvV, fuel: nat) -> Option<
    YStep,
>
    decreases fuel,
{
    if fuel == 0 {
        None
    } else {
        let f = (fuel - 1) as nat;
        if prop.len() == 0 {
            Some((Ok(YamlTypeV::Value(YamlV::Hash(h2))), env))
        } else {
            let pr = spec_eval_expr(prop, env);
            match pr.0 {
                Err(e) => Some((Err(e), pr.1)),
                Ok(val) => if spec_truthy(val) {
                    let di = spec_find_key(h2, "do"@);
                    if di < 0 {
                        Some((Ok(YamlTypeV::Value(YamlV::Hash(h2))), pr.1))
                    } else {
                        ybranch(h2[di].1, pr.1, f)
                    }
                } else {
                    let ei = spec_find_key(h2, "else"@);
                    if ei < 0 {
                        Some((Ok(YamlTypeV::Value(YamlV::Hash(h2))), pr.1))
                    } else {
                        ybranch(h2[ei].1, pr.1, f)
                    }
                },
            }
        }
    }
}

/// The `while` keyword: evaluate the predicate; while it is truthy run
/// the body inside a fresh frame and repeat. The loop's own value is the
/// nested mapping; an error or a `return` from the body stops the loop
/// and propagates.
pub open spec fn ywhile(
    prop: Seq<char>,
    body: YamlV,
    h2: Seq<(YamlV, YamlV)>,
    env: EnvV,
    fuel: nat,
) -> Option<YStep>
    decreases fuel,
{
    if fuel == 0 {
        None
    } else {
        let f = (fuel - 1) as nat;
        let pr = spec_eval_expr(prop, env);
        match pr.0 {
            Err(e) => Some((Err(e), pr.1)),
            Ok(val) => if !spec_truthy(val) {
                Some((Ok(YamlTypeV::Value(YamlV::Hash(h2))), pr.1))
            } else {
                match yeval(body, pr.1.push(Map::empty()), f) {
                    None => None,
                    Some(rr) => {
                        let env3 = spec_env_pop(rr.1);
                        match rr.0 {
                            Err(e) => Some((Err(e), env3)),
                            Ok(YamlTypeV::Return(v)) => Some((Ok(YamlTypeV::Return(v)), env3)),
                            Ok(YamlTypeV::Value(_)) => ywhile(prop, body, h2, env3, f),
                        }
                    },
                }
            },
        }
    }
}

/// A settled evaluation never changes under a larger budget.
pub proof fn lemma_yeval_mono(y: YamlV, env: EnvV, f1: nat, f2: nat)
    requires
        f1 <= f2,
        yeval(y, env, f1) is Some,
    ensures
        yeval(y, env, f2) == yeval(y, env, f1),
    decreases f1,
{
    if f1 == f2 {
    } else {
        let g1 = (f1 - 1) as nat;
        let g2 = (f2 - 1) as nat;
        match y {
            YamlV::Array(a) => {
                lemma_yeval_seq_mono(a, a, env, g1, g2, Option::<YamlV>::None);
            },
            YamlV::Hash(pairs) => {
                let ki = spec_find_keyword(pairs);
                if ki >= 0 {
                    let kname = pairs[ki].0->Str_0;
                    let v = pairs[ki].1;
                    if kname == "return"@ {
                        lemma_yeval_mono(v, env, g1, g2);
                    } else {
                        match v {
                            YamlV::Array(arr) => {
                                let sc = spec_scan_control(arr, 0);
                                if sc.1 >= 0 {
                                    let h2 = arr[sc.1]->Hash_0;
                                    let prop = spec_join_prop(sc.0);
                                    if kname == "if"@ {
                                        lemma_yif_mono(prop, h2, env, g1, g2);
                                    } else {
                                        let di = spec_find_key(h2, "do"@);
                                        if di >= 0 && prop.len() > 0 {
                                            lemma_ywhile_mono(prop, h2[di].1, h2, env, g1, g2);
                                        }
                                    }
                                }
                            },
                            _ => {},
                        }
                    }
                }
            },
            _ => {},
        }
    }
}

proof fn lemma_yeval_seq_mono(
    elems: Seq<YamlV>,
    arr0: Seq<YamlV>,
    env: EnvV,
    f1: nat,
    f2: nat,
    last: Option<YamlV>,
)
    requires
        f1 <= f2,
        yeval_seq(elems, arr0, env, f1, last) is Some,
    ensures
        yeval_seq(elems, arr0, env, f2, last) == yeval_seq(elems, arr0, env, f1, last),
    decreases f1,
{
    if f1 == f2 || elems.len() == 0 {
    } else {
        let g1 = (f1 - 1) as nat;
        let g2 = (f2 - 1) as nat;
        lemma_yeval_mono(elems[0], env, g1, g2);
        let rr = yeval(elems[0], env, g1).unwrap();
        match rr.0 {
            Ok(YamlTypeV::Value(v)) => {
                lemma_yeval_seq_mono(elems.drop_first(), arr0, rr.1, g1, g2, Some(v));
            },
            _ => {},
        }
    }
}

proof fn lemma_ybranch_mono(body: YamlV, env: EnvV, f1: nat, f2: nat)
    requires
        f1 <= f2,
        ybranch(body, env, f1) is Some,
    ensures
        ybranch(body, env, f2) == ybranch(body, env, f1),
    decreases f1,
{
    if f1 != f2 {
        lemma_yeval_mono(body, env.push(Map::empty()), (f1 - 1) as nat, (f2 - 1) as nat);
    }
}

proof fn lemma_yif_mono(prop: Seq<char>, h2: Seq<(YamlV, YamlV)>, env: EnvV, f1: nat, f2: nat)
    requires
        f1 <= f2,
        yif(prop, h2, env, f1) is Some,
    ensures
        yif(prop, h2, env, f2) == yif(prop, h2, env, f1),
    decreases f1,
{
    if f1 != f2 && prop.len() > 0 {
        let g1 = (f1 - 1) as nat;
        let g2 = (f2 - 1) as nat;
        let pr = spec_eval_expr(prop, env);
        match pr.0 {
            Ok(val) => if spec_truthy(val) {
                let di = spec_find_key(h2, "do"@);
                if di >= 0 {
                    lemma_ybranch_mono(h2[di].1, pr.1, g1, g2);
                }
            } else {
                let ei = spec_find_key(h2, "else"@);
                if ei >= 0 {
                    lemma_ybranch_mono(h2[ei].1, pr.1, g1, g2);
                }
            },
            _ => {},
        }
    }
}

proof fn lemma_ywhile_mono(
    prop: Seq<char>,
    body: YamlV,
    h2: Seq<(YamlV, YamlV)>,
    env: EnvV,
    f1: nat,
    f2: nat,
)
    requires
        f1 <= f2,
        ywhile(prop, body, h2, env, f1) is Some,
    ensures
        ywhile(prop, body, h2, env, f2) == ywhile(prop, body, h2, env, f1),
    decreases f1,
{
    if f1 != f2 {
        let g1 = (f1 - 1) as nat;
        let g2 = (f2 - 1) as nat;
        let pr = spec_eval_expr(prop, env);
        match pr.0 {
            Ok(val) => if spec_truthy(val) {
                lemma_yeval_mono(body, pr.1.push(Map::empty()), g1, g2);
                let rr = yeval(body, pr.1.push(Map::empty()), g1).unwrap();
                let env3 = spec_env_pop(rr.1);
                match rr.0 {
                    Ok(YamlTypeV::Value(_)) => {
                        lemma_ywhile_mono(prop, body, h2, env3, g1, g2);
                    },
                    _ => {},
                }
            },
            _ => {},
        }
    }
}

/// Evaluates one expression text against the environment; see
/// [`spec_eval_expr`].
pub fn eval_expr(text: &str, env: &mut ASTEnvironment) -> (r: Result<YamlVal, YamlError>)
    requires
        old(env).inv(),
    ensures
        final(env).inv(),
        match r {
            Ok(v) => spec_eval_expr(text@, old(env)@) == (
                Ok::<YamlV, YamlErrorV>(v@),
                final(env)@,
            ),
            Err(e) => spec_eval_expr(text@, old(env)@) == (
                Err::<YamlV, YamlErrorV>(e@),
                final(env)@,
            ),
        },
{
    let mut lexer = Lexer::new();
    match lexer.parse_string(text) {
        Ok(()) => {},
        Err(e) => {
            return Err(e);
        },
    }
    let mut parser = Parser::new();
    proof {
        assert(parser.vars_view() =~= Seq::<ExpV>::empty());
        assert(parser.ops_view() =~= Seq::<Seq<char>>::empty());
        assert forall|i: int|
            0 <= i < lexer.state.variables@.len() implies ((
        #[trigger] lexer.state.variables@[i])@).wf() by {
            assert(lexer.state@.variables[i] == lexer.state.variables@[i]@);
            assert(lexer.state@.variables[i].wf());
        }
    }
    let ast = match parser.parse_to_ast(&mut lexer.state.variables, &mut lexer.state.operators) {
        Ok(ast) => ast,
        Err(e) => {
            return Err(e);
        },
    };
    let result = match ast.eval(env) {
        Ok(res) => res,
        Err(e) => {
            return Err(e);
        },
    };
    match result {
        Exp::Lit(Lit::Number(n)) => Ok(YamlVal::Integer(n as i64)),
        Exp::Lit(Lit::Decimal(d)) => Ok(YamlVal::Real(d.to_text())),
        Exp::Lit(Lit::Bool(b)) => Ok(YamlVal::Boolean(b)),
        Exp::Lit(Lit::Str(s)) => Ok(YamlVal::Str(s)),
        _ => Ok(YamlVal::Str(text.to_owned())),
    }
}

/// Whether a predicate result counts as true; see [`spec_truthy`].
pub fn truthy(v: &YamlVal) -> (r: bool)
    ensures
        r == spec_truthy(v@),
{
    match v {
        YamlVal::Boolean(b) => *b,
        YamlVal::Integer(n) => *n > 0,
        _ => false,
    }
}

/// Finds the first pair keyed by a recognized control keyword.
fn find_keyword_idx(h: &Vec<(YamlVal, YamlVal)>) -> (r: Option<usize>)
    ensures
        match r {
            Some(i) => i < h@.len() && spec_find_keyword(shape_seq_hash(h@)) == i,
            None => spec_find_keyword(shape_seq_hash(h@)) == -1,
        },
{
    let ghost hs = shape_seq_hash(h@);
    proof {
        lemma_shape_seq_hash(h@);
        assert(hs.skip(0) =~= hs);
    }
    let mut i: usize = 0;
    while i < h.len()
        invariant
            i <= h@.len(),
            hs == shape_seq_hash(h@),
            hs.len() == h@.len(),
            forall|j: int| 0 <= j < h@.len() ==> hs[j] == ((#[trigger] h@[j]).0@, h@[j].1@),
            spec_find_keyword(hs) == if spec_find_keyword(hs.skip(i as int)) < 0 {
                -1int
            } else {
                i + spec_find_keyword(hs.skip(i as int))
            },
        decreases h@.len() - i,
    {
        proof {
            assert(hs.skip(i as int)[0] == hs[i as int]);
            assert(hs.skip(i as int).drop_first() =~= hs.skip(i + 1));
        }
        let hit = match &h[i].0 {
            YamlVal::Str(s) => str_eqs(s.as_str(), "return") || str_eqs(s.as_str(), "if")
                || str_eqs(s.as_str(), "while"),
            _ => false,
        };
        if hit {
            proof {
                assert(spec_find_keyword(hs.skip(i as int)) == 0);
            }
            return Some(i);
        }
        i += 1;
    }
    proof {
        assert(hs.skip(i as int).len() == 0);
    }
    None
}

/// Finds the first pair keyed by the string `name`.
fn find_key_idx(h: &Vec<(YamlVal, YamlVal)>, name: &str) -> (r: Option<usize>)
    ensures
        match r {
            Some(i) => i < h@.len() && spec_find_key(shape_seq_hash(h@), name@) == i,
            None => spec_find_key(shape_seq_hash(h@), name@) == -1,
        },
{
    let ghost hs = shape_seq_hash(h@);
    proof {
        lemma_shape_seq_hash(h@);
        assert(hs.skip(0) =~= hs);
    }
    let mut i: usize = 0;
    while i < h.len()
        invariant
            i <= h@.len(),
            hs == shape_seq_hash(h@),
            hs.len() == h@.len(),
            forall|j: int| 0 <= j < h@.len() ==> hs[j] == ((#[trigger] h@[j]).0@, h@[j].1@),
            spec_find_key(hs, name@) == if spec_find_key(hs.skip(i as int), name@) < 0 {
                -1int
            } else {
                i + spec_find_key(hs.skip(i as int), name@)
            },
        decreases h@.len() - i,
    {
        proof {
            assert(hs.skip(i as int)[0] == hs[i as int]);
            assert(hs.skip(i as int).drop_first() =~= hs.skip(i + 1));
        }
        let hit = match &h[i].0 {
            YamlVal::Str(s) => str_eqs(s.as_str(), name),
            _ => false,
        };
        if hit {
            proof {
                assert(spec_find_key(hs.skip(i as int), name@) == 0);
            }
            return Some(i);
        }
        i += 1;
    }
    proof {
        assert(hs.skip(i as int).len() == 0);
    }
    None
}

/// The view of an interpreter result, component by component.
pub open spec fn ytype_result_view(r: Result<YamlType, YamlError>) -> Result<
    YamlTypeV,
    YamlErrorV,
> {
    match r {
        Ok(t) => Ok(t@),
        Err(e) => Err(e@),
    }
}

proof fn lemma_join_rest_snoc(frags: Seq<Seq<char>>, f: Seq<char>)
    ensures
        spec_join_rest(frags.push(f)) == spec_join_rest(frags) + (" && ("@ + f + ")"@),
    decreases frags.len(),
{
    if frags.len() == 0 {
        assert(frags.push(f).drop_first() =~= Seq::<Seq<char>>::empty());
        assert(frags.push(f)[0] == f);
        assert(spec_join_rest(Seq::<Seq<char>>::empty()) == Seq::<char>::empty());
        assert(spec_join_rest(frags.push(f)) =~= spec_join_rest(frags) + (" && ("@ + f + ")"@));
    } else {
        assert(frags.push(f).drop_first() =~= frags.drop_first().push(f));
        assert(frags.push(f)[0] == frags[0]);
        lemma_join_rest_snoc(frags.drop_first(), f);
        assert(spec_join_rest(frags.push(f)) =~= spec_join_rest(frags) + (" && ("@ + f + ")"@));
    }
}

proof fn lemma_join_prop_snoc(frags: Seq<Seq<char>>, f: Seq<char>)
    ensures
        spec_join_prop(frags.push(f)) == if frags.len() == 0 {
            spec_paren(f)
        } else {
            spec_join_prop(frags) + (" && ("@ + f + ")"@)
        },
    decreases frags.len(),
{
    if frags.len() == 0 {
        assert(frags.push(f)[0] == f);
        assert(frags.push(f).drop_first() =~= Seq::<Seq<char>>::empty());
        assert(spec_join_prop(frags.push(f)) =~= spec_paren(f));
    } else {
        assert(frags.push(f)[0] == frags[0]);
        assert(frags.push(f).drop_first() =~= frags.drop_first().push(f));
        lemma_join_rest_snoc(frags.drop_first(), f);
        assert(spec_join_prop(frags.push(f)) =~= spec_join_prop(frags) + (" && ("@ + f + ")"@));
    }
}

/// Scans an `if`/`while` body: gathers the predicate text from the leading
/// sigil strings and finds the first nested mapping.
fn scan_control(arr: &Vec<YamlVal>) -> (r: (String, Option<usize>))
    ensures
        ({
            let sc = spec_scan_control(shape_seq_arr(arr@), 0);
            r.0@ == spec_join_prop(sc.0) && (match r.1 {
                Some(j) => j < arr@.len() && sc.1 == j && arr@[j as int]@ matches YamlV::Hash(_),
                None => sc.1 == -1,
            })
        }),
{
    let ghost ash = shape_seq_arr(arr@);
    proof {
        lemma_shape_seq_arr(arr@);
    }
    let mut prop = String::new();
    let mut nfrags: usize = 0;
    let ghost mut frags: Seq<Seq<char>> = Seq::empty();
    let mut i: usize = 0;
    while i < arr.len()
        invariant
            i <= arr@.len(),
            ash == shape_seq_arr(arr@),
            ash.len() == arr@.len(),
            forall|j: int| 0 <= j < arr@.len() ==> ash[j] == (#[trigger] arr@[j])@,
            prop@ == spec_join_prop(frags),
            nfrags as int == frags.len(),
            nfrags <= i,
            spec_scan_control(ash, 0) == ({
                let sc = spec_scan_control(ash, i as int);
                (frags + sc.0, sc.1)
            }),
        decreases arr@.len() - i,
    {
        match &arr[i] {
            YamlVal::Hash(_) => {
                proof {
                    assert(spec_scan_control(ash, i as int) == (
                        Seq::<Seq<char>>::empty(),
                        i as int,
                    ));
                    assert(frags + Seq::<Seq<char>>::empty() =~= frags);
                }
                return (prop, Some(i));
            },
            YamlVal::Str(s) => {
                match find_sigil(s.as_str()) {
                    Some(k) => {
                        let len = s.as_str().unicode_len();
                        let frag = s.as_str().substring_char(k + 2, len);
                        proof {
                            assert(frag@ =~= spec_sigil_rest(s@));
                            lemma_join_prop_snoc(frags, frag@);
                        }
                        if nfrags == 0 {
                            prop.append("(");
                            prop.append(frag);
                            prop.append(")");
                            proof {
                                assert(prop@ =~= spec_paren(frag@));
                            }
                        } else {
                            prop.append(" && (");
                            prop.append(frag);
                            prop.append(")");
                            proof {
                                assert(prop@ =~= spec_join_prop(frags) + (" && ("@ + frag@
                                    + ")"@));
                            }
                        }
                        proof {
                            frags = frags.push(frag@);
                            let sc1 = spec_scan_control(ash, i + 1);
                            assert(seq![spec_sigil_rest(s@)] + sc1.0 =~= spec_scan_control(
                                ash,
                                i as int,
                            ).0);
                            assert(frags + sc1.0 =~= frags.drop_last() + (seq![
                                spec_sigil_rest(s@),
                            ] + sc1.0));
                        }
                        nfrags += 1;
                    },
                    None => {
                    },
                }
            },
            _ => {},
        }
        i += 1;
    }
    proof {
        assert(spec_scan_control(ash, i as int) == (Seq::<Seq<char>>::empty(), -1int));
        assert(frags + Seq::<Seq<char>>::empty() =~= frags);
    }
    (prop, None)
}

/// The budget the interpreter grants one evaluation: every nesting level
/// and every loop iteration spends one unit, and no physical run spends
/// them all.
pub const EVAL_BUDGET: u64 = 18446744073709551615;

/// Evaluates one YAML node against the environment within `fuel`:
/// the executable twin of [`yeval`].
#[verifier::rlimit(100)]
fn evaluate_helper(yaml: &YamlVal, env: &mut ASTEnvironment, fuel: u64) -> (r: Result<
    YamlType,
    YamlError,
>)
    requires
        old(env).inv(),
    ensures
        final(env).inv(),
        match yeval(yaml@, old(env)@, fuel as nat) {
            Some(step) => ytype_result_view(r) == step.0 && final(env)@ == step.1,
            None => r == Err::<YamlType, YamlError>(YamlError::EvalError(EvalError::Exhausted)),
        },
    decreases fuel,
{
    if fuel == 0 {
        return Err(YamlError::EvalError(EvalError::Exhausted));
    }
    let f = fuel - 1;
    match yaml {
        YamlVal::Str(s) => {
            match find_sigil(s.as_str()) {
                Some(k) => {
                    let len = s.as_str().unicode_len();
                    let text = s.as_str().substring_char(k + 2, len);
                    proof {
                        assert(text@ =~= spec_sigil_rest(s@));
                    }
                    match eval_expr(text, env) {
                        Ok(v) => Ok(YamlType::Value(v)),
                        Err(e) => Err(e),
                    }
                },
                None => Ok(YamlType::Value(YamlVal::Str(s.clone()))),
            }
        },
        YamlVal::Array(a) => {
            let ghost ash = shape_seq_arr(a@);
            proof {
                lemma_shape_seq_arr(a@);
                assert(ash.skip(0) =~= ash);
            }
            let mut last: Option<YamlVal> = None;
            let mut i: usize = 0;
            let mut sf = f;
            while i < a.len()
                invariant
                    i <= a@.len(),
                    env.inv(),
                    sf <= f,
                    fuel >= 1,
                    f == fuel - 1,
                    ash == shape_seq_arr(a@),
                    ash.len() == a@.len(),
                    *yaml == YamlVal::Array(*a),
                    forall|j: int| 0 <= j < a@.len() ==> ash[j] == (#[trigger] a@[j])@,
                    yeval_seq(ash, ash, old(env)@, f as nat, Option::<YamlV>::None) == yeval_seq(
                        ash.skip(i as int),
                        ash,
                        env@,
                        sf as nat,
                        match last {
                            Some(v) => Some(v@),
                            None => None,
                        },
                    ),
                decreases a@.len() - i,
            {
                proof {
                    assert(ash.skip(i as int)[0] == ash[i as int]);
                    assert(ash.skip(i as int).drop_first() =~= ash.skip(i + 1));
                }
                if sf == 0 {
                    return Err(YamlError::EvalError(EvalError::Exhausted));
                }
                let result = evaluate_helper(&a[i], env, sf - 1);
                match result {
                    Err(e) => {
                        return Err(e);
                    },
                    Ok(YamlType::Return(v)) => {
                        return Ok(YamlType::Return(v));
                    },
                    Ok(YamlType::Value(v)) => {
                        last = Some(v);
                    },
                }
                sf = sf - 1;
                i += 1;
            }
            proof {
                assert(ash.skip(i as int).len() == 0);
            }
            if sf == 0 {
                return Err(YamlError::EvalError(EvalError::Exhausted));
            }
            match last {
                Some(v) => Ok(YamlType::Value(v)),
                None => Ok(YamlType::Value(yaml.duplicate())),
            }
        },
        YamlVal::Hash(h) => {
            let ghost hs = shape_seq_hash(h@);
            proof {
                lemma_shape_seq_hash(h@);
            }
            match find_keyword_idx(h) {
                None => Ok(YamlType::Value(yaml.duplicate())),
                Some(ki) => {
                    proof {
                        lemma_find_keyword_is_str(hs);
                        assert(hs[ki as int] == (h@[ki as int].0@, h@[ki as int].1@));
                    }
                    let kname = match &h[ki].0 {
                        YamlVal::Str(s) => s,
                        _ => {
                            proof {
                                assert(false);
                            }
                            return Err(YamlError::EvalError(EvalError::Exhausted));
                        },
                    };
                    if str_eqs(kname.as_str(), "return") {
                        let result = evaluate_helper(&h[ki].1, env, f);
                        match result {
                            Ok(YamlType::Value(val)) => Ok(YamlType::Return(val)),
                            other => other,
                        }
                    } else {
                        let is_if = str_eqs(kname.as_str(), "if");
                        match &h[ki].1 {
                            YamlVal::Array(arr) => {
                                let (prop, hidx) = scan_control(arr);
                                match hidx {
                                    None => Ok(YamlType::Value(h[ki].1.duplicate())),
                                    Some(j) => {
                                        proof {
                                            lemma_shape_seq_arr(arr@);
                                        }
                                        match &arr[j] {
                                            YamlVal::Hash(h2) => {
                                                proof {
                                                    assert(arr@[j as int]@ == YamlV::Hash(
                                                        shape_seq_hash(h2@),
                                                    ));
                                                }
                                                if is_if {
                                                    run_if(prop.as_str(), h2, &arr[j], env, f)
                                                } else {
                                                    run_while(prop.as_str(), h2, &arr[j], env, f)
                                                }
                                            },
                                            _ => {
                                                proof {
                                                    assert(false);
                                                }
                                                Err(YamlError::EvalError(EvalError::Exhausted))
                                            },
                                        }
                                    },
                                }
                            },
                            _ => Ok(YamlType::Value(h[ki].1.duplicate())),
                        }
                    }
                },
            }
        },
        _ => Ok(YamlType::Value(yaml.duplicate())),
    }
}

/// Runs the `if` keyword against the nested mapping `h2` (whose whole
/// node is `hval`); the executable twin of [`yif`].
#[verifier::rlimit(100)]
fn run_if(
    prop: &str,
    h2: &Vec<(YamlVal, YamlVal)>,
    hval: &YamlVal,
    env: &mut ASTEnvironment,
    fuel: u64,
) -> (r: Result<YamlType, YamlError>)
    requires
        old(env).inv(),
        hval@ == YamlV::Hash(shape_seq_hash(h2@)),
    ensures
        final(env).inv(),
        match yif(prop@, shape_seq_hash(h2@), old(env)@, fuel as nat) {
            Some(step) => ytype_result_view(r) == step.0 && final(env)@ == step.1,
            None => r == Err::<YamlType, YamlError>(YamlError::EvalError(EvalError::Exhausted)),
        },
    decreases fuel,
{
    let ghost h2s = shape_seq_hash(h2@);
    proof {
        lemma_shape_seq_hash(h2@);
    }
    if fuel == 0 {
        return Err(YamlError::EvalError(EvalError::Exhausted));
    }
    let g = fuel - 1;
    if prop.is_empty() {
        return Ok(YamlType::Value(hval.duplicate()));
    }
    let pval = match eval_expr(prop, env) {
        Err(e) => {
            return Err(e);
        },
        Ok(val) => val,
    };
    let branch: Option<usize> = if truthy(&pval) {
        find_key_idx(h2, "do")
    } else {
        find_key_idx(h2, "else")
    };
    match branch {
        None => Ok(YamlType::Value(hval.duplicate())),
        Some(di) => {
            proof {
                assert(h2s[di as int] == (h2@[di as int].0@, h2@[di as int].1@));
            }
            if g == 0 {
                return Err(YamlError::EvalError(EvalError::Exhausted));
            }
            env.push();
            let rr = evaluate_helper(&h2[di].1, env, g - 1);
            env.pop();
            rr
        },
    }
}

/// Runs the `while` keyword against the nested mapping `h2` (whose whole
/// node is `hval`); with a `do` branch and a predicate, the executable
/// twin of [`ywhile`].
#[verifier::rlimit(100)]
fn run_while(
    prop: &str,
    h2: &Vec<(YamlVal, YamlVal)>,
    hval: &YamlVal,
    env: &mut ASTEnvironment,
    fuel: u64,
) -> (r: Result<YamlType, YamlError>)
    requires
        old(env).inv(),
        hval@ == YamlV::Hash(shape_seq_hash(h2@)),
    ensures
        final(env).inv(),
        ({
            let h2s = shape_seq_hash(h2@);
            let di = spec_find_key(h2s, "do"@);
            if di < 0 || prop@.len() == 0 {
                r matches Ok(t) && t@ == YamlTypeV::Value(YamlV::Hash(h2s)) && final(env)@ == old(
                    env,
                )@
            } else {
                match ywhile(prop@, h2s[di].1, h2s, old(env)@, fuel as nat) {
                    Some(step) => ytype_result_view(r) == step.0 && final(env)@ == step.1,
                    None => r == Err::<YamlType, YamlError>(
                        YamlError::EvalError(EvalError::Exhausted),
                    ),
                }
            }
        }),
    decreases fuel,
{
    let ghost h2s = shape_seq_hash(h2@);
    proof {
        lemma_shape_seq_hash(h2@);
    }
    let di = match find_key_idx(h2, "do") {
        None => {
            return Ok(YamlType::Value(hval.duplicate()));
        },
        Some(di) => di,
    };
    proof {
        assert(h2s[di as int] == (h2@[di as int].0@, h2@[di as int].1@));
    }
    if prop.is_empty() {
        return Ok(YamlType::Value(hval.duplicate()));
    }
    let ghost env_w0 = env@;
    let mut wf = fuel;
    loop
        invariant
            env.inv(),
            wf <= fuel,
            di < h2@.len(),
            h2s == shape_seq_hash(h2@),
            h2s.len() == h2@.len(),
            h2s[di as int] == (h2@[di as int].0@, h2@[di as int].1@),
            spec_find_key(h2s, "do"@) == di,
            prop@.len() > 0,
            env_w0 == old(env)@,
            hval@ == YamlV::Hash(h2s),
            ywhile(prop@, h2s[di as int].1, h2s, env_w0, fuel as nat) == ywhile(
                prop@,
                h2s[di as int].1,
                h2s,
                env@,
                wf as nat,
            ),
        decreases wf,
    {
        if wf == 0 {
            return Err(YamlError::EvalError(EvalError::Exhausted));
        }
        let pval = match eval_expr(prop, env) {
            Err(e) => {
                return Err(e);
            },
            Ok(val) => val,
        };
        if !truthy(&pval) {
            return Ok(YamlType::Value(hval.duplicate()));
        }
        env.push();
        let rr = evaluate_helper(&h2[di].1, env, wf - 1);
        env.pop();
        match rr {
            Err(e) => {
                return Err(e);
            },
            Ok(YamlType::Return(v)) => {
                return Ok(YamlType::Return(v));
            },
            Ok(YamlType::Value(_)) => {},
        }
        wf = wf - 1;
    }
}

/// A found keyword pair's key really is one of the keyword strings.
proof fn lemma_find_keyword_is_str(pairs: Seq<(YamlV, YamlV)>)
    ensures
        spec_find_keyword(pairs) >= 0 ==> {
            let i = spec_find_keyword(pairs);
            i < pairs.len() && (pairs[i].0 matches YamlV::Str(s) && (s == "return"@ || s == "if"@
                || s == "while"@))
        },
    decreases pairs.len(),
{
    if pairs.len() > 0 {
        lemma_find_keyword_is_str(pairs.drop_first());
    }
}


/// The meaning of a whole evaluation: either kind of result unwraps to
/// its YAML value.
pub open spec fn spec_evaluate(y: YamlV, env: EnvV, fuel: nat) -> Option<
    (Result<YamlV, YamlErrorV>, EnvV),
> {
    match yeval(y, env, fuel) {
        None => None,
        Some(step) => Some(
            (
                match step.0 {
                    Ok(YamlTypeV::Value(v)) => Ok(v),
                    Ok(YamlTypeV::Return(v)) => Ok(v),
                    Err(e) => Err(e),
                },
                step.1,
            ),
        ),
    }
}

/// Evaluates a YAML value against the environment: the main entry point.
/// Every string with the `~>` sigil is evaluated as an expression and the
/// control keywords drive the walk; a `return` value unwraps like a plain
/// one. The whole run carries the budget of [`EVAL_BUDGET`] units.
pub fn evaluate(yaml: &YamlVal, env: &mut ASTEnvironment) -> (r: Result<YamlVal, YamlError>)
    requires
        old(env).inv(),
    ensures
        final(env).inv(),
        match spec_evaluate(yaml@, old(env)@, EVAL_BUDGET as nat) {
            Some(step) => (match r {
                Ok(v) => step.0 == Ok::<YamlV, YamlErrorV>(v@),
                Err(e) => step.0 == Err::<YamlV, YamlErrorV>(e@),
            }) && final(env)@ == step.1,
            None => r == Err::<YamlVal, YamlError>(YamlError::EvalError(EvalError::Exhausted)),
        },
{
    match evaluate_helper(yaml, env, EVAL_BUDGET) {
        Ok(YamlType::Value(v)) => Ok(v),
        Ok(YamlType::Return(v)) => Ok(v),
        Err(e) => Err(e),
    }
}

} // verus!
