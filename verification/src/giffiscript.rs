//! The embeddable front end: source text in, execution against a
//! persistent machine.
//!
//! Each call runs tokenizer, statement parser and interpreter in sequence
//! and discards the intermediate forms; the machine's state (functions,
//! variables, stack, imports) persists across calls, which is what makes
//! a line-at-a-time session work.
use vstd::prelude::*;

use crate::interpreter::Host;
use crate::interpreter::Interpreter;
use crate::interpreter::RuntimeError;
use crate::interpreter::init_state;
use crate::interpreter::obeys_run;
use crate::interpreter::run_seq;
use crate::interpreter::st_inv;
use crate::interpreter::st_of;
use crate::lexer::Lexer;
use crate::lexer::LexerE;
use crate::parser::ParseError;
use crate::parser::Parser;
use crate::parser::spec_parse;
use crate::lexer::spec_lex;

verus! {

/// Any failure of the three pipeline stages.
#[derive(Debug, PartialEq)]
pub enum ScriptError {
    Lexer(LexerE),
    Parser(ParseError),
    Runtime(RuntimeError),
}

/// A machine together with the pipeline that feeds it.
#[derive(Debug)]
pub struct GiffiScript {
    pub interpreter: Interpreter,
}

impl GiffiScript {
    /// A fresh machine.
    pub fn new() -> (g: GiffiScript)
        ensures
            st_of(g.interpreter) == init_state(),
            st_inv(st_of(g.interpreter)),
    {
        GiffiScript { interpreter: Interpreter::new() }
    }

    /// Tokenizes, parses and executes one piece of source text.  The
    /// outcome is exactly what the three stage models prescribe, unless
    /// execution reaches the host.
    pub fn execute<H: Host>(&mut self, code: String, host: &mut H) -> (r: Result<
        (),
        ScriptError,
    >)
        requires
            st_inv(st_of(old(self).interpreter)),
        ensures
            st_inv(st_of(final(self).interpreter)),
            match spec_lex(code@) {
                Err(le) => r == Err::<(), ScriptError>(ScriptError::Lexer(le)) && *final(self)
                    == *old(self),
                Ok(toks) => match spec_parse(toks) {
                    Err(pe) => (r matches Err(se) && se matches ScriptError::Parser(p) && p@ == pe)
                        && *final(self) == *old(self),
                    Ok((prog, cursor)) => obeys_run(
                        match r {
                            Ok(_) => Ok(()),
                            Err(ScriptError::Runtime(re)) => Err(re),
                            _ => Ok(()),
                        },
                        st_of(final(self).interpreter),
                        run_seq(u64::MAX as nat, st_of(old(self).interpreter), prog),
                    ) && (r is Err ==> (r matches Err(se) && se is Runtime)),
                },
            },
    {
        let ltokens = match Lexer::lex(code) {
            Ok(t) => t,
            Err(e) => {
                return Err(ScriptError::Lexer(e));
            },
        };
        let ptokens = match Parser::parse(ltokens, false) {
            Ok(t) => t,
            Err(e) => {
                return Err(ScriptError::Parser(e));
            },
        };
        match self.interpreter.execute_tokens(&ptokens, host) {
            Ok(_) => Ok(()),
            Err(e) => Err(ScriptError::Runtime(e)),
        }
    }
}

} // verus!
