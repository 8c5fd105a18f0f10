//! One builder per character class; each builder advances the lexer state
//! machine by a single character of its class.
use crate::ast::exp::{Exp, ExpV};
use crate::ast::lit::{
    spec_decimal_token_val, spec_is_decimal_token, spec_is_digit_char, spec_number_token_val,
    spec_find_dot, Lit, LitV,
};
use crate::errors::{LexError, YamlError};
use crate::helpers::is_operator;
use crate::lexer::{LexerState, WordState};
use vstd::prelude::*;

verus! {

/// The mathematical shape of a lexer state.
#[verifier::ext_equal]
pub struct LexStateV {
    pub variables: Seq<ExpV>,
    pub operators: Seq<Seq<char>>,
    pub curr_state: WordState,
    pub curr_chars: Seq<char>,
}

/// Whether `c` is a letter for lexing: an ASCII letter or an underscore.
pub open spec fn spec_is_letter_char(c: char) -> bool {
    (97 <= c as u32 <= 122) || (65 <= c as u32 <= 90) || c as u32 == 95
}

/// Whether `c` is the double quote.
pub open spec fn spec_is_quote_char(c: char) -> bool {
    c as u32 == 34
}

pub use crate::ast::lit::spec_is_dot_char;

/// The state machine's internal consistency: a numeric run is made of
/// digits, a decimal run has exactly one dot, a run is empty exactly in
/// the idle state, and every value token emitted so far is well formed.
pub open spec fn lex_wf(st: LexStateV) -> bool {
    &&& (st.curr_state == WordState::Number ==> st.curr_chars.len() > 0 && (forall|j: int|
        0 <= j < st.curr_chars.len() ==> spec_is_digit_char(#[trigger] st.curr_chars[j])))
    &&& (st.curr_state == WordState::Decimal ==> spec_is_decimal_token(st.curr_chars))
    &&& (st.curr_state == WordState::Variable ==> st.curr_chars.len() > 0)
    &&& (st.curr_state == WordState::Operator ==> st.curr_chars.len() > 0)
    &&& (st.curr_state == WordState::Idle ==> st.curr_chars.len() == 0)
    &&& (forall|i: int| 0 <= i < st.variables.len() ==> (#[trigger] st.variables[i]).wf())
}

/// The value token the current run denotes, by the kind of the run.
pub open spec fn spec_curr_value_token(st: LexStateV) -> ExpV {
    match st.curr_state {
        WordState::Variable => ExpV::Variable(st.curr_chars),
        WordState::Number => ExpV::Lit(LitV::Number(spec_number_token_val(st.curr_chars))),
        WordState::Decimal => ExpV::Lit(LitV::Decimal(spec_decimal_token_val(st.curr_chars))),
        WordState::String => ExpV::Lit(LitV::Str(st.curr_chars)),
        _ => ExpV::Lit(LitV::Nil),
    }
}

/// A letter: appended to a word or string run; after an operator run or
/// from idle it opens a variable run; after a numeric run it is an error.
pub open spec fn spec_letter_append(st: LexStateV, c: char) -> Result<LexStateV, LexError> {
    match st.curr_state {
        WordState::Variable | WordState::String => Ok(
            LexStateV { curr_chars: st.curr_chars.push(c), ..st },
        ),
        WordState::Number | WordState::Decimal => Err(LexError::LetterAfterNumber),
        WordState::Operator => Ok(
            LexStateV {
                operators: seq![st.curr_chars] + st.operators,
                curr_chars: seq![c],
                curr_state: WordState::Variable,
                ..st
            },
        ),
        WordState::Idle => Ok(
            LexStateV {
                curr_chars: st.curr_chars.push(c),
                curr_state: WordState::Variable,
                ..st
            },
        ),
    }
}

/// A digit: appended to any value run; after an operator run or from idle
/// it opens a number run.
pub open spec fn spec_digit_append(st: LexStateV, c: char) -> Result<LexStateV, LexError> {
    match st.curr_state {
        WordState::Variable | WordState::Number | WordState::Decimal | WordState::String => Ok(
            LexStateV { curr_chars: st.curr_chars.push(c), ..st },
        ),
        WordState::Operator => Ok(
            LexStateV {
                operators: seq![st.curr_chars] + st.operators,
                curr_chars: seq![c],
                curr_state: WordState::Number,
                ..st
            },
        ),
        WordState::Idle => Ok(
            LexStateV {
                curr_chars: st.curr_chars.push(c),
                curr_state: WordState::Number,
                ..st
            },
        ),
    }
}

/// An operator character: flushes a value run into the value queue and
/// opens an operator run; within an operator run it extends the run while
/// the extension is still a recognized operator, else flushes and starts
/// anew; inside a string it is kept verbatim.
pub open spec fn spec_operator_append(st: LexStateV, c: char) -> Result<LexStateV, LexError> {
    match st.curr_state {
        WordState::Variable | WordState::Number | WordState::Decimal => Ok(
            LexStateV {
                variables: seq![spec_curr_value_token(st)] + st.variables,
                curr_chars: seq![c],
                curr_state: WordState::Operator,
                ..st
            },
        ),
        WordState::String => Ok(LexStateV { curr_chars: st.curr_chars.push(c), ..st }),
        WordState::Operator => if crate::helpers::spec_is_operator(st.curr_chars.push(c)) {
            Ok(LexStateV { curr_chars: st.curr_chars.push(c), ..st })
        } else {
            Ok(
                LexStateV {
                    operators: seq![st.curr_chars] + st.operators,
                    curr_chars: seq![c],
                    ..st
                },
            )
        },
        WordState::Idle => Ok(
            LexStateV {
                curr_chars: st.curr_chars.push(c),
                curr_state: WordState::Operator,
                ..st
            },
        ),
    }
}

/// A quote: closes a string run into a string literal, opens a string run
/// after an operator run or from idle, and is an error inside a value run.
pub open spec fn spec_quote_append(st: LexStateV) -> Result<LexStateV, LexError> {
    match st.curr_state {
        WordState::String => Ok(
            LexStateV {
                variables: seq![ExpV::Lit(LitV::Str(st.curr_chars))] + st.variables,
                curr_chars: Seq::empty(),
                curr_state: WordState::Idle,
                ..st
            },
        ),
        WordState::Number | WordState::Decimal | WordState::Variable => Err(
            LexError::InvalidQuoteAppend,
        ),
        WordState::Operator => Ok(
            LexStateV {
                operators: seq![st.curr_chars] + st.operators,
                curr_chars: Seq::empty(),
                curr_state: WordState::String,
                ..st
            },
        ),
        WordState::Idle => Ok(LexStateV { curr_state: WordState::String, ..st }),
    }
}

/// A dot: turns a number run into a decimal run, is kept verbatim inside a
/// string, and is an error anywhere else.
pub open spec fn spec_dot_append(st: LexStateV, c: char) -> Result<LexStateV, LexError> {
    match st.curr_state {
        WordState::String => Ok(LexStateV { curr_chars: st.curr_chars.push(c), ..st }),
        WordState::Number => Ok(
            LexStateV {
                curr_chars: st.curr_chars.push(c),
                curr_state: WordState::Decimal,
                ..st
            },
        ),
        _ => Err(LexError::InvalidDotAppend),
    }
}

/// One step of the state machine: classify the character, then apply the
/// transition of its class.
pub open spec fn spec_append_ch(st: LexStateV, c: char) -> Result<LexStateV, LexError> {
    if spec_is_letter_char(c) {
        spec_letter_append(st, c)
    } else if spec_is_digit_char(c) {
        spec_digit_append(st, c)
    } else if spec_is_quote_char(c) {
        spec_quote_append(st)
    } else if spec_is_dot_char(c) {
        spec_dot_append(st, c)
    } else {
        spec_operator_append(st, c)
    }
}

/// Emits the value token of the current (value-kind) run and clears it.
pub fn value_token(state: &mut LexerState) -> (r: Exp)
    requires
        lex_wf(old(state)@),
        old(state).curr_state == WordState::Variable || old(state).curr_state == WordState::Number
            || old(state).curr_state == WordState::Decimal || old(state).curr_state
            == WordState::String,
    ensures
        r@ == spec_curr_value_token(old(state)@),
        r.wf(),
        final(state).curr_chars@ == Seq::<char>::empty(),
        final(state).variables == old(state).variables,
        final(state).operators == old(state).operators,
        final(state).curr_state == old(state).curr_state,
{
    match state.curr_state {
        WordState::Variable => {
            let curr_str = state.emit_string();
            Exp::Variable(curr_str)
        },
        WordState::Number => {
            let n = crate::ast::lit::number_from_chars(&state.curr_chars);
            state.curr_chars.clear();
            Exp::Lit(Lit::Number(n))
        },
        WordState::Decimal => {
            let d = crate::ast::lit::decimal_from_chars(&state.curr_chars);
            state.curr_chars.clear();
            Exp::Lit(Lit::Decimal(d))
        },
        _ => {
            let curr_str = state.emit_string();
            Exp::Lit(Lit::Str(curr_str))
        },
    }
}

/// The letter transition; see [`spec_letter_append`].
pub struct LetterBuilder;

/// The digit transition; see [`spec_digit_append`].
pub struct DigitBuilder;

/// The operator-character transition; see [`spec_operator_append`].
pub struct OperatorBuilder;

/// The quote transition; see [`spec_quote_append`].
pub struct QuoteBuilder;

/// The dot transition; see [`spec_dot_append`].
pub struct DotBuilder;

impl LetterBuilder {
    /// Applies the letter transition to `state`.
    pub fn append(&self, ch: char, state: &mut LexerState) -> (r: Result<(), YamlError>)
        requires
            lex_wf(old(state)@),
            spec_is_letter_char(ch),
        ensures
            match spec_letter_append(old(state)@, ch) {
                Ok(st2) => r is Ok && final(state)@ == st2 && lex_wf(st2),
                Err(e) => r == Err::<(), YamlError>(YamlError::LexError(e)) && final(state)@
                    == old(state)@,
            },
    {
        match state.curr_state {
            WordState::Variable | WordState::String => {
                state.curr_chars.push(ch);
                Ok(())
            },
            WordState::Number | WordState::Decimal => Err(
                YamlError::LexError(LexError::LetterAfterNumber),
            ),
            WordState::Operator => {
                let curr_str = state.emit_string();
                state.operators.push_front(curr_str);
                state.curr_chars.push(ch);
                state.curr_state = WordState::Variable;
                proof {
                    assert(final(state)@.operators =~= seq![old(state)@.curr_chars]
                        + old(state)@.operators);
                    assert(final(state)@.curr_chars =~= seq![ch]);
                }
                Ok(())
            },
            WordState::Idle => {
                state.curr_chars.push(ch);
                state.curr_state = WordState::Variable;
                Ok(())
            },
        }
    }
}

impl DigitBuilder {
    /// Applies the digit transition to `state`.
    pub fn append(&self, ch: char, state: &mut LexerState) -> (r: Result<(), YamlError>)
        requires
            lex_wf(old(state)@),
            spec_is_digit_char(ch),
        ensures
            match spec_digit_append(old(state)@, ch) {
                Ok(st2) => r is Ok && final(state)@ == st2 && lex_wf(st2),
                Err(e) => r == Err::<(), YamlError>(YamlError::LexError(e)) && final(state)@
                    == old(state)@,
            },
    {
        match state.curr_state {
            WordState::Variable | WordState::Number | WordState::Decimal | WordState::String => {
                proof {
                    if state.curr_state == WordState::Decimal {
                        lemma_decimal_token_extend(state.curr_chars@, ch);
                    }
                }
                state.curr_chars.push(ch);
                Ok(())
            },
            WordState::Operator => {
                let curr_str = state.emit_string();
                state.operators.push_front(curr_str);
                state.curr_chars.push(ch);
                state.curr_state = WordState::Number;
                proof {
                    assert(final(state)@.operators =~= seq![old(state)@.curr_chars]
                        + old(state)@.operators);
                    assert(final(state)@.curr_chars =~= seq![ch]);
                }
                Ok(())
            },
            WordState::Idle => {
                state.curr_chars.push(ch);
                state.curr_state = WordState::Number;
                Ok(())
            },
        }
    }
}

impl OperatorBuilder {
    /// Applies the operator-character transition to `state`.
    pub fn append(&self, ch: char, state: &mut LexerState) -> (r: Result<(), YamlError>)
        requires
            lex_wf(old(state)@),
        ensures
            match spec_operator_append(old(state)@, ch) {
                Ok(st2) => r is Ok && final(state)@ == st2 && lex_wf(st2),
                Err(e) => r == Err::<(), YamlError>(YamlError::LexError(e)) && final(state)@
                    == old(state)@,
            },
    {
        match state.curr_state {
            WordState::Variable | WordState::Number | WordState::Decimal => {
                let node = value_token(state);
                state.variables.push_front(node);
                state.curr_chars.push(ch);
                state.curr_state = WordState::Operator;
                proof {
                    assert(final(state)@.variables =~= seq![spec_curr_value_token(old(state)@)]
                        + old(state)@.variables);
                    assert(final(state)@.curr_chars =~= seq![ch]);
                }
                Ok(())
            },
            WordState::String => {
                state.curr_chars.push(ch);
                Ok(())
            },
            WordState::Operator => {
                state.curr_chars.push(ch);
                let op_str = crate::helpers::chars_to_string(&state.curr_chars);
                if !is_operator(op_str.as_str()) {
                    let _ = state.curr_chars.pop();
                    proof {
                        assert(state.curr_chars@ =~= old(state).curr_chars@);
                    }
                    let curr_str = state.emit_string();
                    state.operators.push_front(curr_str);
                    state.curr_chars.push(ch);
                    proof {
                        assert(final(state)@.operators =~= seq![old(state)@.curr_chars]
                            + old(state)@.operators);
                        assert(final(state)@.curr_chars =~= seq![ch]);
                    }
                }
                Ok(())
            },
            WordState::Idle => {
                state.curr_chars.push(ch);
                state.curr_state = WordState::Operator;
                Ok(())
            },
        }
    }
}

impl QuoteBuilder {
    /// Applies the quote transition to `state`.
    pub fn append(&self, _ch: char, state: &mut LexerState) -> (r: Result<(), YamlError>)
        requires
            lex_wf(old(state)@),
        ensures
            match spec_quote_append(old(state)@) {
                Ok(st2) => r is Ok && final(state)@ == st2 && lex_wf(st2),
                Err(e) => r == Err::<(), YamlError>(YamlError::LexError(e)) && final(state)@
                    == old(state)@,
            },
    {
        match state.curr_state {
            WordState::String => {
                let curr_str = state.emit_string();
                state.variables.push_front(Exp::Lit(Lit::Str(curr_str)));
                state.curr_state = WordState::Idle;
                proof {
                    assert(final(state)@.variables =~= seq![
                        ExpV::Lit(LitV::Str(old(state)@.curr_chars)),
                    ] + old(state)@.variables);
                }
                Ok(())
            },
            WordState::Number | WordState::Decimal | WordState::Variable => Err(
                YamlError::LexError(LexError::InvalidQuoteAppend),
            ),
            WordState::Operator => {
                let curr_str = state.emit_string();
                state.operators.push_front(curr_str);
                state.curr_state = WordState::String;
                proof {
                    assert(final(state)@.operators =~= seq![old(state)@.curr_chars]
                        + old(state)@.operators);
                }
                Ok(())
            },
            WordState::Idle => {
                state.curr_state = WordState::String;
                Ok(())
            },
        }
    }
}

impl DotBuilder {
    /// Applies the dot transition to `state`.
    pub fn append(&self, ch: char, state: &mut LexerState) -> (r: Result<(), YamlError>)
        requires
            lex_wf(old(state)@),
            spec_is_dot_char(ch),
        ensures
            match spec_dot_append(old(state)@, ch) {
                Ok(st2) => r is Ok && final(state)@ == st2 && lex_wf(st2),
                Err(e) => r == Err::<(), YamlError>(YamlError::LexError(e)) && final(state)@
                    == old(state)@,
            },
    {
        match state.curr_state {
            WordState::String => {
                state.curr_chars.push(ch);
                Ok(())
            },
            WordState::Number => {
                proof {
                    lemma_decimal_token_open(state.curr_chars@, ch);
                }
                state.curr_chars.push(ch);
                state.curr_state = WordState::Decimal;
                Ok(())
            },
            _ => Err(YamlError::LexError(LexError::InvalidDotAppend)),
        }
    }
}

/// Classifies `ch` and applies the transition of its class.
pub fn append_ch(ch: char, state: &mut LexerState) -> (r: Result<(), YamlError>)
    requires
        lex_wf(old(state)@),
    ensures
        match spec_append_ch(old(state)@, ch) {
            Ok(st2) => r is Ok && final(state)@ == st2 && lex_wf(st2),
            Err(e) => r == Err::<(), YamlError>(YamlError::LexError(e)) && final(state)@ == old(
                state,
            )@,
        },
{
    let c = ch as u32;
    if (97 <= c && c <= 122) || (65 <= c && c <= 90) || c == 95 {
        LetterBuilder.append(ch, state)
    } else if 48 <= c && c <= 57 {
        DigitBuilder.append(ch, state)
    } else if c == 34 {
        QuoteBuilder.append(ch, state)
    } else if c == 46 {
        DotBuilder.append(ch, state)
    } else {
        OperatorBuilder.append(ch, state)
    }
}

/// Extending a decimal run with a digit keeps the decimal-token shape.
proof fn lemma_decimal_token_extend(s: Seq<char>, c: char)
    requires
        spec_is_decimal_token(s),
        spec_is_digit_char(c),
    ensures
        spec_is_decimal_token(s.push(c)),
{
    let i = spec_find_dot(s);
    assert(forall|j: int| 0 <= j < i ==> !spec_is_dot_char(s.push(c)[j]));
    assert(spec_is_dot_char(s.push(c)[i]));
    crate::ast::lit::lemma_find_dot_found(s.push(c), i);
}

/// Opening a decimal run: digits followed by one final dot.
proof fn lemma_decimal_token_open(s: Seq<char>, c: char)
    requires
        s.len() > 0,
        forall|j: int| 0 <= j < s.len() ==> spec_is_digit_char(#[trigger] s[j]),
        spec_is_dot_char(c),
    ensures
        spec_is_decimal_token(s.push(c)),
{
    assert(forall|j: int| 0 <= j < s.len() ==> !spec_is_dot_char(s.push(c)[j]));
    assert(spec_is_dot_char(s.push(c)[s.len() as int]));
    crate::ast::lit::lemma_find_dot_found(s.push(c), s.len() as int);
}

} // verus!
