//! The lexer: a deterministic state machine turning a character string into
//! two queues, one of value tokens (literals and variables) and one of
//! operator strings.
pub mod token_builder;

use crate::ast::exp::{Exp, ExpV};
use crate::errors::{LexError, YamlError};
use crate::helpers::spec_is_split_character;
use crate::lexer::token_builder::{
    append_ch, lex_wf, spec_append_ch, spec_curr_value_token, LexStateV,
};
use std::collections::VecDeque;
use vstd::prelude::*;

verus! {

/// What kind of token the current character run is building.
#[derive(Debug, PartialEq, Eq, Structural, Clone, Copy)]
pub enum WordState {
    Variable,
    Number,
    Decimal,
    String,
    Operator,
    /// No token run in progress.
    Idle,
}

/// The lexer's working state: the two token queues (front = most recent),
/// the kind of the run being built, and its characters.
pub struct LexerState {
    pub variables: VecDeque<Exp>,
    pub operators: VecDeque<String>,
    pub curr_state: WordState,
    pub curr_chars: Vec<char>,
}

impl View for LexerState {
    type V = LexStateV;

    open spec fn view(&self) -> LexStateV {
        LexStateV {
            variables: self.variables@.map_values(|e: Exp| e@),
            operators: self.operators@.map_values(|s: String| s@),
            curr_state: self.curr_state,
            curr_chars: self.curr_chars@,
        }
    }
}

impl LexerState {
    /// A fresh state: empty queues, no run in progress.
    pub fn new() -> (r: LexerState)
        ensures
            r@ =~= spec_lexer_init(),
            lex_wf(r@),
    {
        LexerState {
            variables: VecDeque::new(),
            operators: VecDeque::new(),
            curr_state: WordState::Idle,
            curr_chars: Vec::new(),
        }
    }

    /// Clears the current character run and returns it as a string.
    pub fn emit_string(&mut self) -> (r: String)
        ensures
            r@ == old(self).curr_chars@,
            final(self).curr_chars@ == Seq::<char>::empty(),
            final(self).variables == old(self).variables,
            final(self).operators == old(self).operators,
            final(self).curr_state == old(self).curr_state,
    {
        let r = crate::helpers::chars_to_string(&self.curr_chars);
        self.curr_chars.clear();
        r
    }
}

/// The state the lexer starts from.
pub open spec fn spec_lexer_init() -> LexStateV {
    LexStateV {
        variables: Seq::empty(),
        operators: Seq::empty(),
        curr_state: WordState::Idle,
        curr_chars: Seq::empty(),
    }
}

/// Runs the state machine over the characters of `s`: whitespace outside a
/// string is skipped (inside a string it is kept verbatim), every other
/// character steps the machine.
pub open spec fn spec_lex_run(st: LexStateV, s: Seq<char>) -> Result<LexStateV, LexError>
    decreases s.len(),
{
    if s.len() == 0 {
        Ok(st)
    } else {
        let c = s[0];
        if spec_is_split_character(c) {
            let st2 = if st.curr_state == WordState::String {
                LexStateV { curr_chars: st.curr_chars.push(c), ..st }
            } else {
                st
            };
            spec_lex_run(st2, s.drop_first())
        } else {
            match spec_append_ch(st, c) {
                Ok(st2) => spec_lex_run(st2, s.drop_first()),
                Err(e) => Err(e),
            }
        }
    }
}

/// Flushes the final partial token. A string that never closed is an
/// error; a leftover operator run joins the operator queue; a leftover
/// value run joins the value queue.
pub open spec fn spec_lex_finish(st: LexStateV) -> Result<LexStateV, LexError> {
    if st.curr_state == WordState::String {
        Err(LexError::Incomplete)
    } else if st.curr_chars.len() == 0 {
        Ok(st)
    } else if st.curr_state == WordState::Operator {
        Ok(
            LexStateV {
                operators: seq![st.curr_chars] + st.operators,
                curr_chars: Seq::empty(),
                ..st
            },
        )
    } else if st.curr_state == WordState::Idle {
        Err(LexError::ResultNotLiteral)
    } else {
        Ok(
            LexStateV {
                variables: seq![spec_curr_value_token(st)] + st.variables,
                curr_chars: Seq::empty(),
                ..st
            },
        )
    }
}

/// Lexing a whole input: run the machine, then flush.
pub open spec fn spec_lex(st: LexStateV, s: Seq<char>) -> Result<LexStateV, LexError> {
    match spec_lex_run(st, s) {
        Ok(st2) => spec_lex_finish(st2),
        Err(e) => Err(e),
    }
}

/// The lexer: wraps a [`LexerState`] and feeds it an input string.
pub struct Lexer {
    pub state: LexerState,
}

impl Lexer {
    /// A lexer in the starting state.
    pub fn new() -> (r: Lexer)
        ensures
            r.state@ =~= spec_lexer_init(),
            lex_wf(r.state@),
    {
        Lexer { state: LexerState::new() }
    }

    /// Tokenizes `s` on top of the current state. On success the
    /// operator tokens sit in `self.state.operators` and the value tokens
    /// in `self.state.variables`, each front-first from most recent to
    /// oldest.
    pub fn parse_string(&mut self, s: &str) -> (r: Result<(), YamlError>)
        requires
            lex_wf(old(self).state@),
        ensures
            match spec_lex(old(self).state@, s@) {
                Ok(st2) => r is Ok && final(self).state@ == st2 && (forall|k: int|
                    0 <= k < st2.variables.len() ==> (#[trigger] st2.variables[k]).wf()),
                Err(e) => r == Err::<(), YamlError>(YamlError::LexError(e)),
            },
    {
        let len = s.unicode_len();
        let mut i: usize = 0;
        proof {
            assert(s@.skip(0) =~= s@);
        }
        while i < len
            invariant
                i <= len,
                len == s@.len(),
                lex_wf(self.state@),
                spec_lex_run(old(self).state@, s@) == spec_lex_run(self.state@, s@.skip(i as int)),
            decreases len - i,
        {
            let ch = s.get_char(i);
            proof {
                assert(s@.skip(i as int)[0] == s@[i as int]);
                assert(s@.skip(i as int).drop_first() =~= s@.skip(i + 1));
            }
            if crate::helpers::is_split_character(ch) {
                if self.state.curr_state == WordState::String {
                    self.state.curr_chars.push(ch);
                }
            } else {
                match append_ch(ch, &mut self.state) {
                    Ok(()) => {},
                    Err(e) => {
                        return Err(e);
                    },
                }
            }
            i += 1;
        }
        proof {
            assert(s@.skip(len as int) =~= Seq::<char>::empty());
        }
        let ghost run_state = self.state@;
        // flush the final partial token
        if self.state.curr_state == WordState::String {
            return Err(YamlError::LexError(LexError::Incomplete));
        }
        if !self.state.curr_chars.is_empty() {
            if self.state.curr_state == WordState::Operator {
                let curr_str = self.state.emit_string();
                self.state.operators.push_front(curr_str);
                proof {
                    assert(self.state@.operators =~= seq![run_state.curr_chars]
                        + run_state.operators);
                    assert(self.state@ =~= spec_lex_finish(run_state).unwrap());
                }
            } else if self.state.curr_state == WordState::Idle {
                return Err(YamlError::LexError(LexError::ResultNotLiteral));
            } else {
                let ast_node = token_builder::value_token(&mut self.state);
                self.state.variables.push_front(ast_node);
                proof {
                    assert(self.state@.variables =~= seq![spec_curr_value_token(run_state)]
                        + run_state.variables);
                    assert(self.state@ =~= spec_lex_finish(run_state).unwrap());
                }
            }
        }
        Ok(())
    }
}

} // verus!
