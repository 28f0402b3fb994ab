//! The statement parser: a token sequence in, one linear instruction
//! sequence out.
//!
//! The parser consumes tokens until the end of input (or, for a nested
//! block, the matching close brace), recognising declarations, assignments,
//! control flow, function definitions and calls, and imports.  Expressions
//! inside statements are isolated by their terminator and handed to the
//! expression compiler.  Every statement form and its compiled shape is
//! given by the recursive specification functions in this module;
//! `Parser::parse` returns exactly what they say.
use vstd::prelude::*;

use crate::expr::AstExpr;
use crate::expr::ExprE;
use crate::expr::spec_evaluate;
use crate::lexer::LexTokV;
use crate::lexer::LexerToken;
use crate::lexer::LexerTokenType;
use crate::lexer::TokV;
use crate::lexer::lemma_tok_views;
use crate::lexer::lemma_tok_views_push;
use crate::lexer::tok_views;
use crate::lexer::token_type_eq;
use crate::value::Value;
use crate::value::ValueV;

verus! {

broadcast use vstd::std_specs::vec::group_vec_axioms;

/// One primitive operation of the flattened program representation.
/// Nested bodies (blocks, branches, argument runs) are owned
/// sub-sequences.  `CallNative` carries the opaque handle of a native
/// entry registered by the host.
#[derive(Debug, PartialEq)]
pub enum ParserToken {
    Nop,
    DeclareVariable(String),
    StoreVariable(String),
    MakeArray(u32),
    GetArrayElement(Vec<ParserToken>),
    GetVariableArrayElement(String, Vec<ParserToken>),
    StoreVariableArrayElement(String),
    DeclareFunction(String, Vec<ParserToken>),
    GetVariable(String),
    Operation(String),
    Push(Value),
    Pop,
    If(Vec<ParserToken>, Vec<ParserToken>),
    While(Vec<ParserToken>, Vec<ParserToken>),
    Call(String, Vec<ParserToken>),
    CallNative(u64),
    Return,
    Import(String),
}

/// Mathematical model of an instruction.
pub enum InstrV {
    Nop,
    DeclareVariable(Seq<char>),
    StoreVariable(Seq<char>),
    MakeArray(u32),
    GetArrayElement(Seq<InstrV>),
    GetVariableArrayElement(Seq<char>, Seq<InstrV>),
    StoreVariableArrayElement(Seq<char>),
    DeclareFunction(Seq<char>, Seq<InstrV>),
    GetVariable(Seq<char>),
    Operation(Seq<char>),
    Push(ValueV),
    Pop,
    If(Seq<InstrV>, Seq<InstrV>),
    While(Seq<InstrV>, Seq<InstrV>),
    Call(Seq<char>, Seq<InstrV>),
    CallNative(u64),
    Return,
    Import(Seq<char>),
}

pub open spec fn instr_view(t: ParserToken) -> InstrV
    decreases t,
{
    match t {
        ParserToken::Nop => InstrV::Nop,
        ParserToken::DeclareVariable(n) => InstrV::DeclareVariable(n@),
        ParserToken::StoreVariable(n) => InstrV::StoreVariable(n@),
        ParserToken::MakeArray(n) => InstrV::MakeArray(n),
        ParserToken::GetArrayElement(e) => InstrV::GetArrayElement(instr_views(e@)),
        ParserToken::GetVariableArrayElement(n, e) => InstrV::GetVariableArrayElement(
            n@,
            instr_views(e@),
        ),
        ParserToken::StoreVariableArrayElement(n) => InstrV::StoreVariableArrayElement(n@),
        ParserToken::DeclareFunction(n, b) => InstrV::DeclareFunction(n@, instr_views(b@)),
        ParserToken::GetVariable(n) => InstrV::GetVariable(n@),
        ParserToken::Operation(o) => InstrV::Operation(o@),
        ParserToken::Push(v) => InstrV::Push(v@),
        ParserToken::Pop => InstrV::Pop,
        ParserToken::If(a, b) => InstrV::If(instr_views(a@), instr_views(b@)),
        ParserToken::While(c, b) => InstrV::While(instr_views(c@), instr_views(b@)),
        ParserToken::Call(n, a) => InstrV::Call(n@, instr_views(a@)),
        ParserToken::CallNative(h) => InstrV::CallNative(h),
        ParserToken::Return => InstrV::Return,
        ParserToken::Import(n) => InstrV::Import(n@),
    }
}

/// The model of an instruction sequence is the pointwise model.
pub open spec fn instr_views(s: Seq<ParserToken>) -> Seq<InstrV>
    decreases s,
{
    if s.len() == 0 {
        Seq::empty()
    } else {
        seq![instr_view(s[0])] + instr_views(s.subrange(1, s.len() as int))
    }
}

impl View for ParserToken {
    type V = InstrV;

    open spec fn view(&self) -> InstrV {
        instr_view(*self)
    }
}

pub proof fn lemma_instr_views(s: Seq<ParserToken>)
    ensures
        instr_views(s).len() == s.len(),
        forall|i: int| 0 <= i < s.len() ==> instr_views(s)[i] == instr_view(s[i]),
    decreases s.len(),
{
    if s.len() > 0 {
        lemma_instr_views(s.subrange(1, s.len() as int));
    }
}

pub proof fn lemma_instr_views_push(s: Seq<ParserToken>, t: ParserToken)
    ensures
        instr_views(s.push(t)) == instr_views(s).push(instr_view(t)),
    decreases s.len(),
{
    lemma_instr_views(s.push(t));
    lemma_instr_views(s);
    assert(instr_views(s.push(t)) =~= instr_views(s).push(instr_view(t)));
}

/// Concatenation of instruction sequences models to concatenation.
pub proof fn lemma_instr_views_concat(a: Seq<ParserToken>, b: Seq<ParserToken>)
    ensures
        instr_views(a + b) == instr_views(a) + instr_views(b),
    decreases a.len() + b.len(),
{
    lemma_instr_views(a + b);
    lemma_instr_views(a);
    lemma_instr_views(b);
    assert(instr_views(a + b) =~= instr_views(a) + instr_views(b));
}

/// Deep copy of an instruction sequence; the model is preserved exactly.
#[verifier::loop_isolation(false)]
pub fn clone_instr_vec(v: &Vec<ParserToken>) -> (res: Vec<ParserToken>)
    ensures
        instr_views(res@) == instr_views(v@),
    decreases v,
{
    proof {
        lemma_instr_views(v@);
    }
    let mut out: Vec<ParserToken> = Vec::new();
    let mut i: usize = 0;
    while i < v.len()
        invariant
            i <= v.len(),
            instr_views(out@).len() == i as int,
            forall|j: int| 0 <= j < i as int ==> instr_views(out@)[j] == instr_view(v@[j]),
        decreases v.len() - i,
    {
        proof {
            lemma_instr_views(out@);
            assert(decreases_to!(*v => v@[i as int]));
        }
        let c = v[i].clone();
        proof {
            lemma_instr_views_push(out@, c);
        }
        out.push(c);
        i = i + 1;
    }
    proof {
        lemma_instr_views(out@);
        assert(instr_views(out@) =~= instr_views(v@));
    }
    out
}

impl Clone for ParserToken {
    /// Deep copy; the model is preserved exactly.
    fn clone(&self) -> (res: Self)
        ensures
            res@ == self@,
        decreases self,
    {
        match self {
            ParserToken::Nop => ParserToken::Nop,
            ParserToken::DeclareVariable(n) => ParserToken::DeclareVariable(n.clone()),
            ParserToken::StoreVariable(n) => ParserToken::StoreVariable(n.clone()),
            ParserToken::MakeArray(n) => ParserToken::MakeArray(*n),
            ParserToken::GetArrayElement(e) => {
                proof {
                    assert(decreases_to!(*self => (*self)->GetArrayElement_0));
                }
                ParserToken::GetArrayElement(clone_instr_vec(e))
            },
            ParserToken::GetVariableArrayElement(n, e) => {
                proof {
                    assert(decreases_to!(*self => (*self)->GetVariableArrayElement_1));
                }
                ParserToken::GetVariableArrayElement(n.clone(), clone_instr_vec(e))
            },
            ParserToken::StoreVariableArrayElement(n) => ParserToken::StoreVariableArrayElement(
                n.clone(),
            ),
            ParserToken::DeclareFunction(n, b) => {
                proof {
                    assert(decreases_to!(*self => (*self)->DeclareFunction_1));
                }
                ParserToken::DeclareFunction(n.clone(), clone_instr_vec(b))
            },
            ParserToken::GetVariable(n) => ParserToken::GetVariable(n.clone()),
            ParserToken::Operation(o) => ParserToken::Operation(o.clone()),
            ParserToken::Push(v) => ParserToken::Push(v.clone()),
            ParserToken::Pop => ParserToken::Pop,
            ParserToken::If(a, b) => {
                proof {
                    assert(decreases_to!(*self => (*self)->If_0));
                    assert(decreases_to!(*self => (*self)->If_1));
                }
                ParserToken::If(clone_instr_vec(a), clone_instr_vec(b))
            },
            ParserToken::While(c, b) => {
                proof {
                    assert(decreases_to!(*self => (*self)->While_0));
                    assert(decreases_to!(*self => (*self)->While_1));
                }
                ParserToken::While(clone_instr_vec(c), clone_instr_vec(b))
            },
            ParserToken::Call(n, a) => {
                proof {
                    assert(decreases_to!(*self => (*self)->Call_1));
                }
                ParserToken::Call(n.clone(), clone_instr_vec(a))
            },
            ParserToken::CallNative(h) => ParserToken::CallNative(*h),
            ParserToken::Return => ParserToken::Return,
            ParserToken::Import(n) => ParserToken::Import(n.clone()),
        }
    }
}

// ---------------------------------------------------------------------------
// Parse errors
// ---------------------------------------------------------------------------
/// What went wrong, for the expected-versus-actual diagnostic.
#[derive(Debug, PartialEq)]
pub enum ParseErrorKind {
    UnexpectedEndOfInput,
    UnexpectedToken(LexerTokenType),
    MissingExpression,
    InvalidExpression,
}

/// A parse error with the source position of the last consumed token.
#[derive(Debug, PartialEq)]
pub struct ParseError {
    pub kind: ParseErrorKind,
    pub line: u16,
    pub column: u16,
}

/// Model of a parse error kind.
pub enum PErrKindV {
    UnexpectedEndOfInput,
    UnexpectedToken(TokV),
    MissingExpression,
    InvalidExpression,
}

/// Model of a parse error.
#[verifier::ext_equal]
pub struct PErrV {
    pub kind: PErrKindV,
    pub line: u16,
    pub column: u16,
}

impl View for ParseErrorKind {
    type V = PErrKindV;

    open spec fn view(&self) -> PErrKindV {
        match self {
            ParseErrorKind::UnexpectedEndOfInput => PErrKindV::UnexpectedEndOfInput,
            ParseErrorKind::UnexpectedToken(t) => PErrKindV::UnexpectedToken(t@),
            ParseErrorKind::MissingExpression => PErrKindV::MissingExpression,
            ParseErrorKind::InvalidExpression => PErrKindV::InvalidExpression,
        }
    }
}

impl View for ParseError {
    type V = PErrV;

    open spec fn view(&self) -> PErrV {
        PErrV { kind: self.kind@, line: self.line, column: self.column }
    }
}

// ---------------------------------------------------------------------------
// The parse model
// ---------------------------------------------------------------------------
/// The token cursor: the next unconsumed position and the source position
/// of the last consumed token (0 before anything was consumed).
#[verifier::ext_equal]
pub struct SpSt {
    pub pos: int,
    pub line: u16,
    pub column: u16,
}

pub open spec fn sp_err(st: SpSt, k: PErrKindV) -> PErrV {
    PErrV { kind: k, line: st.line, column: st.column }
}

/// Consuming one token advances the cursor and remembers its position.
pub open spec fn spec_eat(toks: Seq<LexTokV>, st: SpSt) -> Option<(LexTokV, SpSt)> {
    if 0 <= st.pos < toks.len() {
        Some(
            (
                toks[st.pos],
                SpSt { pos: st.pos + 1, line: toks[st.pos].line, column: toks[st.pos].column },
            ),
        )
    } else {
        None
    }
}

/// Consuming a token that must be exactly `expected`.
pub open spec fn spec_eat_expect(toks: Seq<LexTokV>, st: SpSt, expected: TokV) -> Result<
    SpSt,
    PErrV,
> {
    match spec_eat(toks, st) {
        None => Err(sp_err(st, PErrKindV::UnexpectedEndOfInput)),
        Some((t, st1)) => if t.token == expected {
            Ok(st1)
        } else {
            Err(sp_err(st1, PErrKindV::UnexpectedToken(t.token)))
        },
    }
}

/// Whether a terminator list holds this token kind.
pub open spec fn terms_contain(terms: Seq<TokV>, t: TokV) -> bool {
    exists|i: int| 0 <= i < terms.len() && terms[i] == t
}

/// Collecting the tokens of an expression run, up to (and excluding) the
/// first terminator at bracket depth zero.  Parentheses and square
/// brackets raise and lower the depth and must match.
pub open spec fn spec_eat_until(
    toks: Seq<LexTokV>,
    st: SpSt,
    terms: Seq<TokV>,
    stack: Seq<char>,
    acc: Seq<LexTokV>,
) -> Result<(Seq<LexTokV>, SpSt), PErrV>
    decreases toks.len() - st.pos, 0int,
{
    if !(0 <= st.pos <= toks.len()) {
        Err(sp_err(st, PErrKindV::UnexpectedEndOfInput))
    } else if st.pos == toks.len() {
        if terms_contain(terms, TokV::Eof) {
            Ok((acc, st))
        } else {
            Err(sp_err(st, PErrKindV::UnexpectedEndOfInput))
        }
    } else {
        let t = toks[st.pos];
        if stack.len() == 0 && terms_contain(terms, t.token) {
            Ok((acc, st))
        } else {
            let st1 = SpSt { pos: st.pos + 1, line: t.line, column: t.column };
            if t.token == TokV::Operator("("@) {
                spec_eat_until(toks, st1, terms, stack.push('('), acc.push(t))
            } else if t.token == TokV::Operator(")"@) {
                if stack.len() == 0 || stack.last() != '(' {
                    Err(sp_err(st1, PErrKindV::UnexpectedToken(t.token)))
                } else {
                    spec_eat_until(toks, st1, terms, stack.drop_last(), acc.push(t))
                }
            } else if t.token == TokV::Symbol('[') {
                spec_eat_until(toks, st1, terms, stack.push('['), acc.push(t))
            } else if t.token == TokV::Symbol(']') {
                if stack.len() == 0 || stack.last() != '[' {
                    Err(sp_err(st1, PErrKindV::UnexpectedToken(t.token)))
                } else {
                    spec_eat_until(toks, st1, terms, stack.drop_last(), acc.push(t))
                }
            } else {
                spec_eat_until(toks, st1, terms, stack, acc.push(t))
            }
        }
    }
}

/// Isolating an expression run and compiling it: the run is handed to a
/// fresh expression parse, and the parsed tokens to the precedence climb.
pub open spec fn spec_eat_expr(toks: Seq<LexTokV>, st: SpSt, terms: Seq<TokV>) -> Result<
    (Seq<InstrV>, SpSt),
    PErrV,
>
    decreases toks.len() - st.pos, 1int,
{
    match spec_eat_until(toks, st, terms, Seq::empty(), Seq::empty()) {
        Err(e) => Err(e),
        Ok((run, st1)) => {
            if run.len() < toks.len() - st.pos {
                match spec_parse_expression(run, SpSt { pos: 0, line: 0, column: 0 }) {
                    Err(e) => Err(e),
                    Ok((ptoks, sub)) => match spec_evaluate(ptoks) {
                        Ok(out) => Ok((out, st1)),
                        Err(ExprE::UnexpectedEnd) => Err(sp_err(sub, PErrKindV::MissingExpression)),
                        Err(ExprE::InvalidToken) => Err(sp_err(sub, PErrKindV::InvalidExpression)),
                    },
                }
            } else {
                // Never reached: the run excludes its terminator.
                Err(sp_err(st1, PErrKindV::UnexpectedEndOfInput))
            }
        },
    }
}

/// An expression run: either an array literal, or a sequence of operands
/// and operators handed to the precedence climb.
pub open spec fn spec_parse_expression(toks: Seq<LexTokV>, st: SpSt) -> Result<
    (Seq<InstrV>, SpSt),
    PErrV,
>
    decreases toks.len() - st.pos, 5int,
{
    if 0 <= st.pos < toks.len() && toks[st.pos].token == TokV::Symbol('[') {
        match spec_eat_expect(toks, st, TokV::Symbol('[')) {
            Err(e) => Err(e),
            Ok(st1) => if st1.pos > st.pos {
                match spec_array_elems(toks, st1, 0u32, Seq::empty()) {
                    Err(e) => Err(e),
                    Ok((items, commas, st2)) => {
                        let n = if items.len() > 0 {
                            vstd::wrapping::u32_specs::wrapping_add(commas, 1)
                        } else {
                            commas
                        };
                        Ok((items.push(InstrV::MakeArray(n)), st2))
                    },
                }
            } else {
                Err(sp_err(st1, PErrKindV::UnexpectedEndOfInput))
            },
        }
    } else {
        spec_expr_items(toks, st, Seq::empty())
    }
}

/// The elements of an array literal, separated by commas; the count of
/// separators is kept for the final element count.
pub open spec fn spec_array_elems(toks: Seq<LexTokV>, st: SpSt, commas: u32, acc: Seq<InstrV>)
    -> Result<(Seq<InstrV>, u32, SpSt), PErrV>
    decreases toks.len() - st.pos, 2int,
{
    match spec_eat_expr(toks, st, seq![TokV::Symbol(','), TokV::Symbol(']')]) {
        Err(e) => Err(e),
        Ok((elem, st1)) => {
            let acc1 = acc + elem;
            match spec_eat(toks, st1) {
                None => Err(sp_err(st1, PErrKindV::UnexpectedEndOfInput)),
                Some((t, st2)) => if t.token == TokV::Symbol(',') {
                    if st.pos < st2.pos {
                        spec_array_elems(
                            toks,
                            st2,
                            vstd::wrapping::u32_specs::wrapping_add(commas, 1),
                            acc1,
                        )
                    } else {
                        Err(sp_err(st2, PErrKindV::UnexpectedEndOfInput))
                    }
                } else if t.token == TokV::Symbol(']') {
                    Ok((acc1, commas, st2))
                } else {
                    Err(sp_err(st2, PErrKindV::UnexpectedToken(t.token)))
                },
            }
        },
    }
}

/// The items of a non-array expression run: values, variable reads, calls,
/// indexed reads and operators.
pub open spec fn spec_expr_items(toks: Seq<LexTokV>, st: SpSt, acc: Seq<InstrV>) -> Result<
    (Seq<InstrV>, SpSt),
    PErrV,
>
    decreases toks.len() - st.pos, 4int,
{
    if !(0 <= st.pos <= toks.len()) {
        Err(sp_err(st, PErrKindV::UnexpectedEndOfInput))
    } else if st.pos == toks.len() {
        Ok((acc, st))
    } else {
        let t = toks[st.pos];
        let st1 = SpSt { pos: st.pos + 1, line: t.line, column: t.column };
        match t.token {
            TokV::Identifier(ident) => match spec_eat(toks, st1) {
                None => Ok((acc.push(InstrV::GetVariable(ident)), st1)),
                Some((t2, st2)) => match t2.token {
                    TokV::Operator(op) => {
                        if op == "("@ {
                            match spec_function_call(toks, st2, ident, true) {
                                Err(e) => Err(e),
                                Ok((callv, st3)) => {
                                    if st.pos < st3.pos && st3.pos <= toks.len() {
                                        spec_expr_items(toks, st3, acc + callv)
                                    } else {
                                        Err(sp_err(st3, PErrKindV::UnexpectedEndOfInput))
                                    }
                                },
                            }
                        } else {
                            spec_expr_items(
                                toks,
                                st2,
                                acc.push(InstrV::GetVariable(ident)).push(InstrV::Operation(op)),
                            )
                        }
                    },
                    TokV::Symbol(sym) => {
                        if sym != '[' {
                            Err(sp_err(st2, PErrKindV::UnexpectedToken(t2.token)))
                        } else {
                            match spec_eat_expr(toks, st2, seq![TokV::Symbol(']')]) {
                                Err(e) => Err(e),
                                Ok((arg, st3)) => match spec_eat_expect(
                                    toks,
                                    st3,
                                    TokV::Symbol(']'),
                                ) {
                                    Err(e) => Err(e),
                                    Ok(st4) => {
                                        if st.pos < st4.pos {
                                            spec_expr_items(
                                                toks,
                                                st4,
                                                acc.push(
                                                    InstrV::GetVariableArrayElement(ident, arg),
                                                ),
                                            )
                                        } else {
                                            Err(sp_err(st4, PErrKindV::UnexpectedEndOfInput))
                                        }
                                    },
                                },
                            }
                        }
                    },
                    _ => Err(sp_err(st2, PErrKindV::UnexpectedToken(t2.token))),
                },
            },
            TokV::Operator(op) => spec_expr_items(toks, st1, acc.push(InstrV::Operation(op))),
            TokV::Value(v) => spec_expr_items(toks, st1, acc.push(InstrV::Push(v))),
            _ => Err(sp_err(st1, PErrKindV::UnexpectedToken(t.token))),
        }
    }
}

/// A call's argument runs, each compiled, up to the closing parenthesis.
pub open spec fn spec_call_args(toks: Seq<LexTokV>, st: SpSt, acc: Seq<InstrV>) -> Result<
    (Seq<InstrV>, SpSt),
    PErrV,
>
    decreases toks.len() - st.pos, 2int,
{
    if !(0 <= st.pos < toks.len()) {
        Err(sp_err(st, PErrKindV::UnexpectedEndOfInput))
    } else {
        let t = toks[st.pos];
        if t.token == TokV::Operator(")"@) {
            Ok((acc, SpSt { pos: st.pos + 1, line: t.line, column: t.column }))
        } else {
            match spec_eat_expr(toks, st, seq![TokV::Symbol(','), TokV::Operator(")"@)]) {
                Err(e) => Err(e),
                Ok((expr, st1)) => match spec_eat(toks, st1) {
                    None => Err(sp_err(st1, PErrKindV::UnexpectedEndOfInput)),
                    Some((t2, st2)) => if t2.token == TokV::Symbol(',') {
                        if st.pos < st2.pos {
                            spec_call_args(toks, st2, acc + expr)
                        } else {
                            Err(sp_err(st2, PErrKindV::UnexpectedEndOfInput))
                        }
                    } else if t2.token == TokV::Operator(")"@) {
                        Ok((acc + expr, st2))
                    } else {
                        Err(sp_err(st2, PErrKindV::UnexpectedToken(t2.token)))
                    },
                },
            }
        }
    }
}

/// A call: its arguments (pushed left to right), then the call itself; as
/// a statement it must be closed by a semicolon.
pub open spec fn spec_function_call(toks: Seq<LexTokV>, st: SpSt, name: Seq<char>, is_expr: bool)
    -> Result<(Seq<InstrV>, SpSt), PErrV>
    decreases toks.len() - st.pos, 3int,
{
    match spec_call_args(toks, st, Seq::empty()) {
        Err(e) => Err(e),
        Ok((args, st1)) => {
            if !is_expr {
                match spec_eat_expect(toks, st1, TokV::Symbol(';')) {
                    Err(e) => Err(e),
                    Ok(st2) => Ok((seq![InstrV::Call(name, args)], st2)),
                }
            } else {
                Ok((seq![InstrV::Call(name, args)], st1))
            }
        },
    }
}

/// `let x = <expr>;` compiles to the expression followed by the binding.
pub open spec fn spec_variable_decleration(toks: Seq<LexTokV>, st: SpSt) -> Result<
    (Seq<InstrV>, SpSt),
    PErrV,
>
    decreases toks.len() - st.pos, 6int,
{
    match spec_eat(toks, st) {
        None => Err(sp_err(st, PErrKindV::UnexpectedEndOfInput)),
        Some((_let_kw, st1)) => match spec_eat(toks, st1) {
            None => Err(sp_err(st1, PErrKindV::UnexpectedEndOfInput)),
            Some((t, st2)) => match t.token {
                TokV::Identifier(ident) => match spec_eat_expect(
                    toks,
                    st2,
                    TokV::Operator("="@),
                ) {
                    Err(e) => Err(e),
                    Ok(st3) => {
                        if st.pos < st3.pos {
                            match spec_eat_expr(toks, st3, seq![TokV::Symbol(';')]) {
                                Err(e) => Err(e),
                                Ok((expr, st4)) => match spec_eat_expect(
                                    toks,
                                    st4,
                                    TokV::Symbol(';'),
                                ) {
                                    Err(e) => Err(e),
                                    Ok(st5) => {
                                        if expr.len() == 0 {
                                            Err(sp_err(st5, PErrKindV::MissingExpression))
                                        } else {
                                            Ok(
                                                (
                                                    expr.push(InstrV::DeclareVariable(ident)),
                                                    st5,
                                                ),
                                            )
                                        }
                                    },
                                },
                            }
                        } else {
                            Err(sp_err(st3, PErrKindV::UnexpectedEndOfInput))
                        }
                    },
                },
                _ => Err(sp_err(st2, PErrKindV::UnexpectedToken(t.token))),
            },
        },
    }
}

/// `x = <expr>;` compiles to the expression followed by the store.
pub open spec fn spec_variable_assignment(
    toks: Seq<LexTokV>,
    st: SpSt,
    ident: Seq<char>,
) -> Result<(Seq<InstrV>, SpSt), PErrV>
    decreases toks.len() - st.pos, 6int,
{
    match spec_eat_expr(toks, st, seq![TokV::Symbol(';')]) {
        Err(e) => Err(e),
        Ok((expr, st1)) => match spec_eat_expect(toks, st1, TokV::Symbol(';')) {
            Err(e) => Err(e),
            Ok(st2) => Ok((expr.push(InstrV::StoreVariable(ident)), st2)),
        },
    }
}

/// `x[<idx>] = <expr>;` compiles to index, value, then the indexed store.
pub open spec fn spec_array_assignment(toks: Seq<LexTokV>, st: SpSt, ident: Seq<char>) -> Result<
    (Seq<InstrV>, SpSt),
    PErrV,
>
    decreases toks.len() - st.pos, 6int,
{
    match spec_eat_expr(toks, st, seq![TokV::Symbol(']')]) {
        Err(e) => Err(e),
        Ok((idx, st1)) => match spec_eat_expect(toks, st1, TokV::Symbol(']')) {
            Err(e) => Err(e),
            Ok(st2) => match spec_eat_expect(toks, st2, TokV::Operator("="@)) {
                Err(e) => Err(e),
                Ok(st3) => {
                    if st.pos < st3.pos {
                        match spec_eat_expr(toks, st3, seq![TokV::Symbol(';')]) {
                            Err(e) => Err(e),
                            Ok((assign, st4)) => match spec_eat_expect(
                                toks,
                                st4,
                                TokV::Symbol(';'),
                            ) {
                                Err(e) => Err(e),
                                Ok(st5) => Ok(
                                    (
                                        idx + assign + seq![
                                            InstrV::StoreVariableArrayElement(ident),
                                        ],
                                        st5,
                                    ),
                                ),
                            },
                        }
                    } else {
                        Err(sp_err(st3, PErrKindV::UnexpectedEndOfInput))
                    }
                },
            },
        },
    }
}

/// `return <expr>;` or `return;`: the expression (or an implicit null)
/// followed by the return.
pub open spec fn spec_function_return(toks: Seq<LexTokV>, st: SpSt) -> Result<
    (Seq<InstrV>, SpSt),
    PErrV,
>
    decreases toks.len() - st.pos, 6int,
{
    match spec_eat_expect(toks, st, TokV::Keyword("return"@)) {
        Err(e) => Err(e),
        Ok(st1) => {
            if st.pos < st1.pos {
                match spec_eat_expr(toks, st1, seq![TokV::Symbol(';')]) {
                    Err(e) => Err(e),
                    Ok((expr, st2)) => match spec_eat_expect(toks, st2, TokV::Symbol(';')) {
                        Err(e) => Err(e),
                        Ok(st3) => {
                            let body = if expr.len() > 0 {
                                expr
                            } else {
                                seq![InstrV::Push(ValueV::Null)]
                            };
                            Ok((body.push(InstrV::Return), st3))
                        },
                    },
                }
            } else {
                Err(sp_err(st1, PErrKindV::UnexpectedEndOfInput))
            }
        },
    }
}

/// `import "name";` compiles to the import instruction.
pub open spec fn spec_import_keyword(toks: Seq<LexTokV>, st: SpSt) -> Result<
    (Seq<InstrV>, SpSt),
    PErrV,
>
    decreases toks.len() - st.pos, 6int,
{
    match spec_eat_expect(toks, st, TokV::Keyword("import"@)) {
        Err(e) => Err(e),
        Ok(st1) => match spec_eat(toks, st1) {
            None => Err(sp_err(st1, PErrKindV::UnexpectedEndOfInput)),
            Some((t, st2)) => match t.token {
                TokV::Value(v) => match v {
                    ValueV::Literal(name) => match spec_eat_expect(
                        toks,
                        st2,
                        TokV::Symbol(';'),
                    ) {
                        Err(e) => Err(e),
                        Ok(st3) => Ok((seq![InstrV::Import(name)], st3)),
                    },
                    _ => Err(sp_err(st2, PErrKindV::UnexpectedToken(t.token))),
                },
                _ => Err(sp_err(st2, PErrKindV::UnexpectedToken(t.token))),
            },
        },
    }
}

/// The parameter names of a function declaration, up to the closing
/// parenthesis.
pub open spec fn spec_fn_args(toks: Seq<LexTokV>, st: SpSt, acc: Seq<Seq<char>>) -> Result<
    (Seq<Seq<char>>, SpSt),
    PErrV,
>
    decreases toks.len() - st.pos, 2int,
{
    match spec_eat(toks, st) {
        None => Err(sp_err(st, PErrKindV::UnexpectedEndOfInput)),
        Some((t, st1)) => match t.token {
            TokV::Identifier(arg) => match spec_eat(toks, st1) {
                None => Err(sp_err(st1, PErrKindV::UnexpectedEndOfInput)),
                Some((t2, st2)) => if t2.token == TokV::Symbol(',') {
                    if st.pos < st2.pos {
                        spec_fn_args(toks, st2, acc.push(arg))
                    } else {
                        Err(sp_err(st2, PErrKindV::UnexpectedEndOfInput))
                    }
                } else if t2.token == TokV::Operator(")"@) {
                    Ok((acc.push(arg), st2))
                } else {
                    Err(sp_err(st2, PErrKindV::UnexpectedToken(t2.token)))
                },
            },
            _ => if t.token == TokV::Operator(")"@) {
                Ok((acc, st1))
            } else {
                Err(sp_err(st1, PErrKindV::UnexpectedToken(t.token)))
            },
        },
    }
}

/// The parameter bindings of a function body, in reverse declared order:
/// call arguments are pushed left to right and popped last first.
pub open spec fn rev_bindings(names: Seq<Seq<char>>) -> Seq<InstrV> {
    Seq::new(names.len(), |i: int| InstrV::DeclareVariable(names[names.len() - 1 - i]))
}

/// `fn f(a,b){ body }` compiles to one function-definition instruction
/// whose body binds the parameters in reverse order and then runs the
/// declared body.
pub open spec fn spec_function_decleration(toks: Seq<LexTokV>, st: SpSt) -> Result<
    (Seq<InstrV>, SpSt),
    PErrV,
>
    decreases toks.len() - st.pos, 6int,
{
    match spec_eat(toks, st) {
        None => Err(sp_err(st, PErrKindV::UnexpectedEndOfInput)),
        Some((_fn_kw, st1)) => match spec_eat(toks, st1) {
            None => Err(sp_err(st1, PErrKindV::UnexpectedEndOfInput)),
            Some((t, st2)) => match t.token {
                TokV::Identifier(fn_name) => match spec_eat_expect(
                    toks,
                    st2,
                    TokV::Operator("("@),
                ) {
                    Err(e) => Err(e),
                    Ok(st3) => {
                        if st.pos < st3.pos {
                            match spec_fn_args(toks, st3, Seq::empty()) {
                                Err(e) => Err(e),
                                Ok((names, st4)) => match spec_eat_expect(
                                    toks,
                                    st4,
                                    TokV::Symbol('{'),
                                ) {
                                    Err(e) => Err(e),
                                    Ok(st5) => {
                                        if st.pos < st5.pos {
                                            match spec_parse_until(
                                                toks,
                                                st5,
                                                TokV::Symbol('}'),
                                            ) {
                                                Err(e) => Err(e),
                                                Ok((body, st6)) => match spec_eat_expect(
                                                    toks,
                                                    st6,
                                                    TokV::Symbol('}'),
                                                ) {
                                                    Err(e) => Err(e),
                                                    Ok(st7) => Ok(
                                                        (
                                                            seq![
                                                                InstrV::DeclareFunction(
                                                                    fn_name,
                                                                    rev_bindings(names) + body,
                                                                ),
                                                            ],
                                                            st7,
                                                        ),
                                                    ),
                                                },
                                            }
                                        } else {
                                            Err(sp_err(st5, PErrKindV::UnexpectedEndOfInput))
                                        }
                                    },
                                },
                            }
                        } else {
                            Err(sp_err(st3, PErrKindV::UnexpectedEndOfInput))
                        }
                    },
                },
                _ => Err(sp_err(st2, PErrKindV::UnexpectedToken(t.token))),
            },
        },
    }
}

/// `if <expr> { A }` with an optional `else { B }` or `else if ...`: the
/// condition's instructions, then one branch instruction.
pub open spec fn spec_if_statement(toks: Seq<LexTokV>, st: SpSt) -> Result<
    (Seq<InstrV>, SpSt),
    PErrV,
>
    decreases toks.len() - st.pos, 6int,
{
    match spec_eat_expect(toks, st, TokV::Keyword("if"@)) {
        Err(e) => Err(e),
        Ok(st1) => {
            if !(st.pos < st1.pos) {
                Err(sp_err(st1, PErrKindV::UnexpectedEndOfInput))
            } else {
                match spec_eat_expr(toks, st1, seq![TokV::Symbol('{')]) {
                    Err(e) => Err(e),
                    Ok((expr, st2)) => {
                        if expr.len() == 0 {
                            Err(sp_err(st2, PErrKindV::MissingExpression))
                        } else {
                            match spec_eat_expect(toks, st2, TokV::Symbol('{')) {
                                Err(e) => Err(e),
                                Ok(st3) => {
                                    if !(st.pos < st3.pos) {
                                        Err(sp_err(st3, PErrKindV::UnexpectedEndOfInput))
                                    } else {
                                        match spec_parse_until(toks, st3, TokV::Symbol('}')) {
                                            Err(e) => Err(e),
                                            Ok((body, st4)) => match spec_eat_expect(
                                                toks,
                                                st4,
                                                TokV::Symbol('}'),
                                            ) {
                                                Err(e) => Err(e),
                                                Ok(st5) => spec_else_branch(
                                                    toks,
                                                    st,
                                                    st5,
                                                    expr,
                                                    body,
                                                ),
                                            },
                                        }
                                    }
                                },
                            }
                        }
                    },
                }
            }
        },
    }
}

/// The `else` continuation of a branch: absent, a block, or a chained
/// `else if`.
pub open spec fn spec_else_branch(
    toks: Seq<LexTokV>,
    st0: SpSt,
    st: SpSt,
    expr: Seq<InstrV>,
    body: Seq<InstrV>,
) -> Result<(Seq<InstrV>, SpSt), PErrV>
    decreases toks.len() - st0.pos, 5int,
{
    if 0 <= st.pos < toks.len() && toks[st.pos].token == TokV::Keyword("else"@) {
        match spec_eat_expect(toks, st, TokV::Keyword("else"@)) {
            Err(e) => Err(e),
            Ok(st1) => {
                if !(0 <= st1.pos < toks.len()) {
                    Err(sp_err(st1, PErrKindV::UnexpectedEndOfInput))
                } else if toks[st1.pos].token == TokV::Keyword("if"@) {
                    if st0.pos < st1.pos {
                        match spec_if_statement(toks, st1) {
                            Err(e) => Err(e),
                            Ok((else_body, st2)) => Ok(
                                (expr + seq![InstrV::If(body, else_body)], st2),
                            ),
                        }
                    } else {
                        Err(sp_err(st1, PErrKindV::UnexpectedEndOfInput))
                    }
                } else {
                    match spec_eat_expect(toks, st1, TokV::Symbol('{')) {
                        Err(e) => Err(e),
                        Ok(st2) => {
                            if st0.pos < st2.pos {
                                match spec_parse_until(toks, st2, TokV::Symbol('}')) {
                                    Err(e) => Err(e),
                                    Ok((else_body, st3)) => match spec_eat_expect(
                                        toks,
                                        st3,
                                        TokV::Symbol('}'),
                                    ) {
                                        Err(e) => Err(e),
                                        Ok(st4) => Ok(
                                            (expr + seq![InstrV::If(body, else_body)], st4),
                                        ),
                                    },
                                }
                            } else {
                                Err(sp_err(st2, PErrKindV::UnexpectedEndOfInput))
                            }
                        },
                    }
                }
            },
        }
    } else {
        Ok((expr + seq![InstrV::If(body, Seq::empty())], st))
    }
}

/// `while <expr> { A }` compiles to one loop instruction holding the
/// condition and the body.
pub open spec fn spec_while_statement(toks: Seq<LexTokV>, st: SpSt) -> Result<
    (Seq<InstrV>, SpSt),
    PErrV,
>
    decreases toks.len() - st.pos, 6int,
{
    match spec_eat_expect(toks, st, TokV::Keyword("while"@)) {
        Err(e) => Err(e),
        Ok(st1) => {
            if !(st.pos < st1.pos) {
                Err(sp_err(st1, PErrKindV::UnexpectedEndOfInput))
            } else {
                match spec_eat_expr(toks, st1, seq![TokV::Symbol('{')]) {
                    Err(e) => Err(e),
                    Ok((expr, st2)) => {
                        if expr.len() == 0 {
                            Err(sp_err(st2, PErrKindV::MissingExpression))
                        } else {
                            match spec_eat_expect(toks, st2, TokV::Symbol('{')) {
                                Err(e) => Err(e),
                                Ok(st3) => {
                                    if !(st.pos < st3.pos) {
                                        Err(sp_err(st3, PErrKindV::UnexpectedEndOfInput))
                                    } else {
                                        match spec_parse_until(toks, st3, TokV::Symbol('}')) {
                                            Err(e) => Err(e),
                                            Ok((body, st4)) => match spec_eat_expect(
                                                toks,
                                                st4,
                                                TokV::Symbol('}'),
                                            ) {
                                                Err(e) => Err(e),
                                                Ok(st5) => Ok(
                                                    (seq![InstrV::While(expr, body)], st5),
                                                ),
                                            },
                                        }
                                    }
                                },
                            }
                        }
                    },
                }
            }
        },
    }
}

/// What follows a statement-level identifier: an indexed assignment, a
/// plain assignment, a call, or (for any other following token) nothing.
pub open spec fn spec_ident_statement(toks: Seq<LexTokV>, st: SpSt, ident: Seq<char>) -> Result<
    (Seq<InstrV>, SpSt),
    PErrV,
>
    decreases toks.len() - st.pos, 6int,
{
    match spec_eat(toks, st) {
        None => Err(sp_err(st, PErrKindV::UnexpectedEndOfInput)),
        Some((t2, st2)) => match t2.token {
            TokV::Symbol(sym) => {
                if sym == '[' {
                    if st.pos < st2.pos {
                        spec_array_assignment(toks, st2, ident)
                    } else {
                        Err(sp_err(st2, PErrKindV::UnexpectedEndOfInput))
                    }
                } else {
                    Ok((Seq::empty(), st2))
                }
            },
            TokV::Operator(op) => {
                if op == "="@ {
                    if st.pos < st2.pos {
                        spec_variable_assignment(toks, st2, ident)
                    } else {
                        Err(sp_err(st2, PErrKindV::UnexpectedEndOfInput))
                    }
                } else if op == "("@ {
                    if st.pos < st2.pos {
                        spec_function_call(toks, st2, ident, false)
                    } else {
                        Err(sp_err(st2, PErrKindV::UnexpectedEndOfInput))
                    }
                } else {
                    Err(sp_err(st2, PErrKindV::UnexpectedToken(t2.token)))
                }
            },
            _ => Ok((Seq::empty(), st2)),
        },
    }
}

/// Statements until the terminator (not consumed) or the end of the token
/// sequence.  Each recognised form contributes its compiled instructions
/// in order.
pub open spec fn spec_parse_until(toks: Seq<LexTokV>, st: SpSt, term: TokV) -> Result<
    (Seq<InstrV>, SpSt),
    PErrV,
>
    decreases toks.len() - st.pos, 7int,
{
    if !(0 <= st.pos <= toks.len()) {
        Err(sp_err(st, PErrKindV::UnexpectedEndOfInput))
    } else if st.pos == toks.len() {
        Ok((Seq::empty(), st))
    } else {
        let t = toks[st.pos];
        if t.token == term {
            Ok((Seq::empty(), st))
        } else {
            match t.token {
                TokV::Keyword(kw) => {
                    if kw == "let"@ {
                        spec_stmt_then_rest(toks, st, term, spec_variable_decleration(toks, st))
                    } else if kw == "fn"@ {
                        spec_stmt_then_rest(toks, st, term, spec_function_decleration(toks, st))
                    } else if kw == "return"@ {
                        spec_stmt_then_rest(toks, st, term, spec_function_return(toks, st))
                    } else if kw == "if"@ {
                        spec_stmt_then_rest(toks, st, term, spec_if_statement(toks, st))
                    } else if kw == "while"@ {
                        spec_stmt_then_rest(toks, st, term, spec_while_statement(toks, st))
                    } else if kw == "import"@ {
                        spec_stmt_then_rest(toks, st, term, spec_import_keyword(toks, st))
                    } else {
                        Err(sp_err(st, PErrKindV::UnexpectedToken(t.token)))
                    }
                },
                TokV::Identifier(ident) => {
                    let st1 = SpSt { pos: st.pos + 1, line: t.line, column: t.column };
                    spec_stmt_then_rest(toks, st, term, spec_ident_statement(toks, st1, ident))
                },
                TokV::NewLine => {
                    let st1 = SpSt { pos: st.pos + 1, line: t.line, column: t.column };
                    spec_stmt_then_rest(
                        toks,
                        st,
                        term,
                        Ok((Seq::empty(), st1)),
                    )
                },
                _ => Err(sp_err(st, PErrKindV::UnexpectedToken(t.token))),
            }
        }
    }
}

/// One statement's result, then the rest of the parse.
pub open spec fn spec_stmt_then_rest(
    toks: Seq<LexTokV>,
    st: SpSt,
    term: TokV,
    stmt: Result<(Seq<InstrV>, SpSt), PErrV>,
) -> Result<(Seq<InstrV>, SpSt), PErrV>
    decreases toks.len() - st.pos, 6int,
{
    match stmt {
        Err(e) => Err(e),
        Ok((out, st1)) => {
            if st.pos < st1.pos && st1.pos <= toks.len() {
                match spec_parse_until(toks, st1, term) {
                    Err(e) => Err(e),
                    Ok((rest, st2)) => Ok((out + rest, st2)),
                }
            } else {
                Err(sp_err(st1, PErrKindV::UnexpectedEndOfInput))
            }
        },
    }
}

/// The whole parse: statements until the end-of-input token.
pub open spec fn spec_parse(toks: Seq<LexTokV>) -> Result<(Seq<InstrV>, SpSt), PErrV> {
    spec_parse_until(toks, SpSt { pos: 0, line: 0, column: 0 }, TokV::Eof)
}


/// The model's constructor always mirrors the instruction's.
pub proof fn lemma_instr_variants(t: ParserToken)
    ensures
        t is Nop <==> t@ is Nop,
        t is DeclareVariable <==> t@ is DeclareVariable,
        t is StoreVariable <==> t@ is StoreVariable,
        t is MakeArray <==> t@ is MakeArray,
        t is GetArrayElement <==> t@ is GetArrayElement,
        t is GetVariableArrayElement <==> t@ is GetVariableArrayElement,
        t is StoreVariableArrayElement <==> t@ is StoreVariableArrayElement,
        t is DeclareFunction <==> t@ is DeclareFunction,
        t is GetVariable <==> t@ is GetVariable,
        t is Operation <==> t@ is Operation,
        t is Push <==> t@ is Push,
        t is Pop <==> t@ is Pop,
        t is If <==> t@ is If,
        t is While <==> t@ is While,
        t is Call <==> t@ is Call,
        t is CallNative <==> t@ is CallNative,
        t is Return <==> t@ is Return,
        t is Import <==> t@ is Import,
{
}


// ---------------------------------------------------------------------------
// Views of terminator lists and name lists
// ---------------------------------------------------------------------------
/// The model of a token-kind sequence is the pointwise model.
pub open spec fn ttype_views(s: Seq<LexerTokenType>) -> Seq<TokV>
    decreases s.len(),
{
    if s.len() == 0 {
        Seq::empty()
    } else {
        seq![s[0]@] + ttype_views(s.subrange(1, s.len() as int))
    }
}

pub proof fn lemma_ttype_views(s: Seq<LexerTokenType>)
    ensures
        ttype_views(s).len() == s.len(),
        forall|i: int| 0 <= i < s.len() ==> ttype_views(s)[i] == s[i]@,
    decreases s.len(),
{
    if s.len() > 0 {
        lemma_ttype_views(s.subrange(1, s.len() as int));
    }
}

/// The model of a name sequence is the pointwise model.
pub open spec fn str_views(s: Seq<String>) -> Seq<Seq<char>>
    decreases s.len(),
{
    if s.len() == 0 {
        Seq::empty()
    } else {
        seq![s[0]@] + str_views(s.subrange(1, s.len() as int))
    }
}

pub proof fn lemma_str_views(s: Seq<String>)
    ensures
        str_views(s).len() == s.len(),
        forall|i: int| 0 <= i < s.len() ==> str_views(s)[i] == s[i]@,
    decreases s.len(),
{
    if s.len() > 0 {
        lemma_str_views(s.subrange(1, s.len() as int));
    }
}

pub proof fn lemma_str_views_push(s: Seq<String>, t: String)
    ensures
        str_views(s.push(t)) == str_views(s).push(t@),
    decreases s.len(),
{
    lemma_str_views(s.push(t));
    lemma_str_views(s);
    assert(str_views(s.push(t)) =~= str_views(s).push(t@));
}

// ---------------------------------------------------------------------------
// The parser
// ---------------------------------------------------------------------------
/// The statement parser's working state: the token sequence, a cursor into
/// it, whether this parse is an isolated expression run, and the position
/// of the last consumed token.
pub struct Parser {
    input: Vec<LexerToken>,
    pos: usize,
    is_expr: bool,
    last_line: u16,
    last_column: u16,
}

/// The parser's tokens, as the model sees them.
spec fn toks_of(p: Parser) -> Seq<LexTokV> {
    tok_views(p.input@)
}

/// The parser's cursor, as the model sees it.
spec fn pst(p: Parser) -> SpSt {
    SpSt { pos: p.pos as int, line: p.last_line, column: p.last_column }
}

/// The cursor stays within the tokens.
spec fn pwf(p: Parser) -> bool {
    p.pos <= p.input@.len()
}

/// The parts of the parser that no parsing step changes.
spec fn same_parser(a: Parser, b: Parser) -> bool {
    a.input@ == b.input@ && a.is_expr == b.is_expr
}

/// Whether the terminator list holds this token kind.
#[verifier::loop_isolation(false)]
fn contains_tok(terms: &Vec<LexerTokenType>, t: &LexerTokenType) -> (r: bool)
    ensures
        r == terms_contain(ttype_views(terms@), t@),
{
    proof {
        lemma_ttype_views(terms@);
    }
    let mut i: usize = 0;
    while i < terms.len()
        invariant
            i <= terms@.len(),
            forall|j: int| 0 <= j < i as int ==> ttype_views(terms@)[j] != t@,
        decreases terms@.len() - i,
    {
        if token_type_eq(&terms[i], t) {
            proof {
                assert(ttype_views(terms@)[i as int] == t@);
            }
            return true;
        }
        i = i + 1;
    }
    false
}

impl Parser {
    fn new(tks: Vec<LexerToken>, is_expr: bool) -> (p: Parser)
        ensures
            p.input@ == tks@,
            p.is_expr == is_expr,
            pst(p) == (SpSt { pos: 0, line: 0, column: 0 }),
            pwf(p),
    {
        Parser { input: tks, is_expr, last_column: 0, last_line: 0, pos: 0 }
    }

    /// Consumes and returns the next token, remembering its position.
    fn eat(&mut self) -> (r: Option<LexerToken>)
        requires
            pwf(*old(self)),
        ensures
            same_parser(*old(self), *final(self)),
            pwf(*final(self)),
            old(self).pos <= final(self).pos,
            match r {
                Some(t) => spec_eat(toks_of(*old(self)), pst(*old(self))) == Some(
                    (t@, pst(*final(self))),
                ),
                None => spec_eat(toks_of(*old(self)), pst(*old(self))) is None && *final(self)
                    == *old(self),
            },
    {
        proof {
            lemma_tok_views(self.input@);
        }
        if self.pos < self.input.len() {
            let tk = self.input[self.pos].clone();
            self.pos = self.pos + 1;
            self.last_line = tk.line;
            self.last_column = tk.column;
            Some(tk)
        } else {
            None
        }
    }

    /// Consumes the next token, which must be exactly `expect`.
    fn eat_expect(&mut self, expect: &LexerTokenType) -> (r: Result<LexerToken, ParseError>)
        requires
            pwf(*old(self)),
        ensures
            same_parser(*old(self), *final(self)),
            pwf(*final(self)),
            old(self).pos <= final(self).pos,
            match r {
                Ok(_) => spec_eat_expect(toks_of(*old(self)), pst(*old(self)), expect@) == Ok::<
                    SpSt,
                    PErrV,
                >(pst(*final(self))) && old(self).pos < final(self).pos,
                Err(e) => spec_eat_expect(toks_of(*old(self)), pst(*old(self)), expect@) == Err::<
                    SpSt,
                    PErrV,
                >(e@),
            },
    {
        let popped = self.eat();
        match popped {
            None => Err(
                ParseError {
                    kind: ParseErrorKind::UnexpectedEndOfInput,
                    line: self.last_line,
                    column: self.last_column,
                },
            ),
            Some(tk) => {
                if token_type_eq(&tk.token, expect) {
                    Ok(tk)
                } else {
                    Err(
                        ParseError {
                            kind: ParseErrorKind::UnexpectedToken(tk.token),
                            line: self.last_line,
                            column: self.last_column,
                        },
                    )
                }
            },
        }
    }

    /// Collects the tokens of an expression run, up to the first terminator
    /// at bracket depth zero; the terminator is not consumed.
    #[verifier::loop_isolation(false)]
    fn eat_until(&mut self, terminator: &Vec<LexerTokenType>) -> (r: Result<
        Vec<LexerToken>,
        ParseError,
    >)
        requires
            pwf(*old(self)),
        ensures
            same_parser(*old(self), *final(self)),
            pwf(*final(self)),
            old(self).pos <= final(self).pos,
            match r {
                Ok(out) => spec_eat_until(
                    toks_of(*old(self)),
                    pst(*old(self)),
                    ttype_views(terminator@),
                    Seq::empty(),
                    Seq::empty(),
                ) == Ok::<(Seq<LexTokV>, SpSt), PErrV>((tok_views(out@), pst(*final(self))))
                    && out@.len() == final(self).pos - old(self).pos && (final(self).pos
                    < final(self).input@.len() || terms_contain(
                    ttype_views(terminator@),
                    TokV::Eof,
                )),
                Err(e) => spec_eat_until(
                    toks_of(*old(self)),
                    pst(*old(self)),
                    ttype_views(terminator@),
                    Seq::empty(),
                    Seq::empty(),
                ) == Err::<(Seq<LexTokV>, SpSt), PErrV>(e@),
            },
    {
        let ghost toks = toks_of(*old(self));
        let ghost terms = ttype_views(terminator@);
        let mut out_tks: Vec<LexerToken> = Vec::new();
        let mut scopes: Vec<char> = Vec::new();
        proof {
            lemma_tok_views(self.input@);
            assert(tok_views(out_tks@) =~= Seq::<LexTokV>::empty());
            assert(scopes@ =~= Seq::<char>::empty());
        }
        loop
            invariant
                same_parser(*old(self), *self),
                pwf(*self),
                old(self).pos <= self.pos,
                out_tks@.len() == self.pos - old(self).pos,
                spec_eat_until(toks, pst(*old(self)), terms, Seq::empty(), Seq::empty())
                    == spec_eat_until(toks, pst(*self), terms, scopes@, tok_views(out_tks@)),
            decreases self.input@.len() - self.pos,
        {
            if self.pos >= self.input.len() {
                if contains_tok(terminator, &LexerTokenType::Eof) {
                    return Ok(out_tks);
                }
                return Err(
                    ParseError {
                        kind: ParseErrorKind::UnexpectedEndOfInput,
                        line: self.last_line,
                        column: self.last_column,
                    },
                );
            }
            let is_term = scopes.len() == 0 && contains_tok(
                terminator,
                &self.input[self.pos].token,
            );
            if is_term {
                return Ok(out_tks);
            }
            let token = self.eat().unwrap();
            let ghost st1 = pst(*self);
            if let LexerTokenType::Operator(op) = &token.token {
                if crate::strings::str_eq(op.as_str(), "(") {
                    scopes.push('(');
                } else if crate::strings::str_eq(op.as_str(), ")") {
                    if scopes.len() == 0 {
                        return Err(
                            ParseError {
                                kind: ParseErrorKind::UnexpectedToken(token.token),
                                line: self.last_line,
                                column: self.last_column,
                            },
                        );
                    }
                    let popped = scopes.pop().unwrap();
                    if popped != '(' {
                        return Err(
                            ParseError {
                                kind: ParseErrorKind::UnexpectedToken(token.token),
                                line: self.last_line,
                                column: self.last_column,
                            },
                        );
                    }
                }
            }
            if let LexerTokenType::Symbol(sym) = &token.token {
                if *sym == '[' {
                    scopes.push('[');
                } else if *sym == ']' {
                    if scopes.len() == 0 {
                        return Err(
                            ParseError {
                                kind: ParseErrorKind::UnexpectedToken(token.token),
                                line: self.last_line,
                                column: self.last_column,
                            },
                        );
                    }
                    let popped = scopes.pop().unwrap();
                    if popped != '[' {
                        return Err(
                            ParseError {
                                kind: ParseErrorKind::UnexpectedToken(token.token),
                                line: self.last_line,
                                column: self.last_column,
                            },
                        );
                    }
                }
            }
            proof {
                lemma_tok_views_push(out_tks@, token);
            }
            out_tks.push(token);
        }
    }
}


impl Parser {
    /// Isolates an expression run and compiles it to instructions.
    fn eat_expr(&mut self, terminator: Vec<LexerTokenType>) -> (r: Result<
        Vec<ParserToken>,
        ParseError,
    >)
        requires
            pwf(*old(self)),
            !terms_contain(ttype_views(terminator@), TokV::Eof),
        ensures
            same_parser(*old(self), *final(self)),
            pwf(*final(self)),
            old(self).pos <= final(self).pos,
            match r {
                Ok(out) => spec_eat_expr(
                    toks_of(*old(self)),
                    pst(*old(self)),
                    ttype_views(terminator@),
                ) == Ok::<(Seq<InstrV>, SpSt), PErrV>((instr_views(out@), pst(*final(self)))),
                Err(e) => spec_eat_expr(
                    toks_of(*old(self)),
                    pst(*old(self)),
                    ttype_views(terminator@),
                ) == Err::<(Seq<InstrV>, SpSt), PErrV>(e@),
            },
        decreases self.input@.len() - self.pos, 1int,
    {
        let run = match self.eat_until(&terminator) {
            Ok(run) => run,
            Err(e) => {
                return Err(e);
            },
        };
        proof {
            lemma_tok_views(old(self).input@);
            lemma_tok_views(run@);
            assert(run@.len() < old(self).input@.len() - old(self).pos);
            assert(tok_views(run@).len() < toks_of(*old(self)).len() - pst(*old(self)).pos);
        }
        let mut sub = Parser::new(run, true);
        let parsed = match sub.parse_expression() {
            Ok(p) => p,
            Err(e) => {
                return Err(e);
            },
        };
        match AstExpr::evaluate(parsed) {
            Ok(out) => Ok(out),
            Err(ExprE::UnexpectedEnd) => Err(
                ParseError {
                    kind: ParseErrorKind::MissingExpression,
                    line: sub.last_line,
                    column: sub.last_column,
                },
            ),
            Err(ExprE::InvalidToken) => Err(
                ParseError {
                    kind: ParseErrorKind::InvalidExpression,
                    line: sub.last_line,
                    column: sub.last_column,
                },
            ),
        }
    }

    /// Compiles one expression run: an array literal or a climbable run.
    fn parse_expression(&mut self) -> (r: Result<Vec<ParserToken>, ParseError>)
        requires
            pwf(*old(self)),
            old(self).is_expr,
        ensures
            same_parser(*old(self), *final(self)),
            pwf(*final(self)),
            old(self).pos <= final(self).pos,
            match r {
                Ok(out) => spec_parse_expression(toks_of(*old(self)), pst(*old(self))) == Ok::<
                    (Seq<InstrV>, SpSt),
                    PErrV,
                >((instr_views(out@), pst(*final(self)))),
                Err(e) => spec_parse_expression(toks_of(*old(self)), pst(*old(self))) == Err::<
                    (Seq<InstrV>, SpSt),
                    PErrV,
                >(e@),
            },
        decreases self.input@.len() - self.pos, 5int,
    {
        proof {
            lemma_tok_views(self.input@);
        }
        let is_array = self.pos < self.input.len() && matches!(
            self.input[self.pos].token,
            LexerTokenType::Symbol('['),
        );
        proof {
            crate::lexer::lemma_tok_variants(self.input@[self.pos as int].token);
        }
        if is_array {
            match self.eat_expect(&LexerTokenType::Symbol('[')) {
                Ok(_) => {},
                Err(e) => {
                    return Err(e);
                },
            }
            let mut tokens: Vec<ParserToken> = Vec::new();
            proof {
                assert(instr_views(tokens@) =~= Seq::<InstrV>::empty());
            }
            let commas = match self.array_elems(&mut tokens, 0) {
                Ok(c) => c,
                Err(e) => {
                    return Err(e);
                },
            };
            proof {
                lemma_instr_views(tokens@);
            }
            let n: u32 = if tokens.len() > 0 {
                commas.wrapping_add(1)
            } else {
                commas
            };
            let mk = ParserToken::MakeArray(n);
            proof {
                lemma_instr_views_push(tokens@, mk);
            }
            tokens.push(mk);
            Ok(tokens)
        } else {
            let mut acc: Vec<ParserToken> = Vec::new();
            proof {
                assert(instr_views(acc@) =~= Seq::<InstrV>::empty());
            }
            match self.expr_items(&mut acc) {
                Ok(_) => Ok(acc),
                Err(e) => Err(e),
            }
        }
    }

    /// The comma-separated elements of an array literal.
    fn array_elems(&mut self, out: &mut Vec<ParserToken>, commas: u32) -> (r: Result<
        u32,
        ParseError,
    >)
        requires
            pwf(*old(self)),
            old(self).is_expr,
        ensures
            same_parser(*old(self), *final(self)),
            pwf(*final(self)),
            old(self).pos <= final(self).pos,
            match r {
                Ok(n) => spec_array_elems(
                    toks_of(*old(self)),
                    pst(*old(self)),
                    commas,
                    instr_views(old(out)@),
                ) == Ok::<(Seq<InstrV>, u32, SpSt), PErrV>(
                    (instr_views(final(out)@), n, pst(*final(self))),
                ),
                Err(e) => spec_array_elems(
                    toks_of(*old(self)),
                    pst(*old(self)),
                    commas,
                    instr_views(old(out)@),
                ) == Err::<(Seq<InstrV>, u32, SpSt), PErrV>(e@),
            },
        decreases self.input@.len() - self.pos, 2int,
    {
        let terms = terms_comma_bracket();
        let elem = match self.eat_expr(terms) {
            Ok(v) => v,
            Err(e) => {
                return Err(e);
            },
        };
        crate::expr::append_vec(out, elem);
        proof {
            lemma_tok_views(self.input@);
        }
        let next = match self.eat() {
            Some(t) => t,
            None => {
                return Err(
                    ParseError {
                        kind: ParseErrorKind::UnexpectedEndOfInput,
                        line: self.last_line,
                        column: self.last_column,
                    },
                );
            },
        };
        proof {
            crate::lexer::lemma_tok_variants(next.token);
        }
        match next.token {
            LexerTokenType::Symbol(',') => self.array_elems(out, commas.wrapping_add(1)),
            LexerTokenType::Symbol(']') => Ok(commas),
            other => Err(
                ParseError {
                    kind: ParseErrorKind::UnexpectedToken(other),
                    line: self.last_line,
                    column: self.last_column,
                },
            ),
        }
    }

    /// The items of a climbable expression run.
    fn expr_items(&mut self, out: &mut Vec<ParserToken>) -> (r: Result<(), ParseError>)
        requires
            pwf(*old(self)),
            old(self).is_expr,
        ensures
            same_parser(*old(self), *final(self)),
            pwf(*final(self)),
            old(self).pos <= final(self).pos,
            match r {
                Ok(_) => spec_expr_items(
                    toks_of(*old(self)),
                    pst(*old(self)),
                    instr_views(old(out)@),
                ) == Ok::<(Seq<InstrV>, SpSt), PErrV>(
                    (instr_views(final(out)@), pst(*final(self))),
                ),
                Err(e) => spec_expr_items(
                    toks_of(*old(self)),
                    pst(*old(self)),
                    instr_views(old(out)@),
                ) == Err::<(Seq<InstrV>, SpSt), PErrV>(e@),
            },
        decreases self.input@.len() - self.pos, 4int,
    {
        proof {
            lemma_tok_views(self.input@);
        }
        if self.pos >= self.input.len() {
            return Ok(());
        }
        let token = match self.eat() {
            Some(t) => t,
            None => {
                proof {
                    assert(false);
                }
                return Ok(());
            },
        };
        proof {
            crate::lexer::lemma_tok_variants(token.token);
        }
        match token.token {
            LexerTokenType::Identifier(ident) => {
                proof {
                    lemma_tok_views(self.input@);
                }
                let next = self.eat();
                match next {
                    None => {
                        let g = ParserToken::GetVariable(ident);
                        proof {
                            lemma_instr_views_push(out@, g);
                        }
                        out.push(g);
                        Ok(())
                    },
                    Some(t2) => {
                        proof {
                            crate::lexer::lemma_tok_variants(t2.token);
                        }
                        match t2.token {
                            LexerTokenType::Operator(op) => {
                                if crate::strings::str_eq(op.as_str(), "(") {
                                    let callv = match self.function_call(ident) {
                                        Ok(v) => v,
                                        Err(e) => {
                                            return Err(e);
                                        },
                                    };
                                    crate::expr::append_vec(out, callv);
                                    self.expr_items(out)
                                } else {
                                    let g = ParserToken::GetVariable(ident);
                                    proof {
                                        lemma_instr_views_push(out@, g);
                                    }
                                    out.push(g);
                                    let o = ParserToken::Operation(op);
                                    proof {
                                        lemma_instr_views_push(out@, o);
                                    }
                                    out.push(o);
                                    self.expr_items(out)
                                }
                            },
                            LexerTokenType::Symbol(sym) => {
                                if sym != '[' {
                                    Err(
                                        ParseError {
                                            kind: ParseErrorKind::UnexpectedToken(
                                                LexerTokenType::Symbol(sym),
                                            ),
                                            line: self.last_line,
                                            column: self.last_column,
                                        },
                                    )
                                } else {
                                    let terms = terms_bracket_close();
                                    let arg = match self.eat_expr(terms) {
                                        Ok(v) => v,
                                        Err(e) => {
                                            return Err(e);
                                        },
                                    };
                                    match self.eat_expect(&LexerTokenType::Symbol(']')) {
                                        Ok(_) => {},
                                        Err(e) => {
                                            return Err(e);
                                        },
                                    }
                                    let g = ParserToken::GetVariableArrayElement(ident, arg);
                                    proof {
                                        lemma_instr_views_push(out@, g);
                                    }
                                    out.push(g);
                                    self.expr_items(out)
                                }
                            },
                            other => Err(
                                ParseError {
                                    kind: ParseErrorKind::UnexpectedToken(other),
                                    line: self.last_line,
                                    column: self.last_column,
                                },
                            ),
                        }
                    },
                }
            },
            LexerTokenType::Operator(op) => {
                let o = ParserToken::Operation(op);
                proof {
                    lemma_instr_views_push(out@, o);
                }
                out.push(o);
                self.expr_items(out)
            },
            LexerTokenType::Value(val) => {
                let o = ParserToken::Push(val);
                proof {
                    lemma_instr_views_push(out@, o);
                }
                out.push(o);
                self.expr_items(out)
            },
            other => Err(
                ParseError {
                    kind: ParseErrorKind::UnexpectedToken(other),
                    line: self.last_line,
                    column: self.last_column,
                },
            ),
        }
    }

    /// A call's arguments, compiled in order, up to the closing parenthesis.
    fn call_args(&mut self, out: &mut Vec<ParserToken>) -> (r: Result<(), ParseError>)
        requires
            pwf(*old(self)),
        ensures
            same_parser(*old(self), *final(self)),
            pwf(*final(self)),
            old(self).pos <= final(self).pos,
            match r {
                Ok(_) => spec_call_args(
                    toks_of(*old(self)),
                    pst(*old(self)),
                    instr_views(old(out)@),
                ) == Ok::<(Seq<InstrV>, SpSt), PErrV>(
                    (instr_views(final(out)@), pst(*final(self))),
                ) && old(self).pos < final(self).pos,
                Err(e) => spec_call_args(
                    toks_of(*old(self)),
                    pst(*old(self)),
                    instr_views(old(out)@),
                ) == Err::<(Seq<InstrV>, SpSt), PErrV>(e@),
            },
        decreases self.input@.len() - self.pos, 2int,
    {
        proof {
            lemma_tok_views(self.input@);
        }
        if self.pos >= self.input.len() {
            return Err(
                ParseError {
                    kind: ParseErrorKind::UnexpectedEndOfInput,
                    line: self.last_line,
                    column: self.last_column,
                },
            );
        }
        let is_close = match &self.input[self.pos].token {
            LexerTokenType::Operator(op) => crate::strings::str_eq(op.as_str(), ")"),
            _ => false,
        };
        proof {
            crate::lexer::lemma_tok_variants(self.input@[self.pos as int].token);
        }
        if is_close {
            let _ = self.eat();
            return Ok(());
        }
        let terms = terms_comma_paren();
        let expr = match self.eat_expr(terms) {
            Ok(v) => v,
            Err(e) => {
                return Err(e);
            },
        };
        crate::expr::append_vec(out, expr);
        proof {
            lemma_tok_views(self.input@);
        }
        let next = match self.eat() {
            Some(t) => t,
            None => {
                return Err(
                    ParseError {
                        kind: ParseErrorKind::UnexpectedEndOfInput,
                        line: self.last_line,
                        column: self.last_column,
                    },
                );
            },
        };
        proof {
            crate::lexer::lemma_tok_variants(next.token);
        }
        match next.token {
            LexerTokenType::Symbol(',') => self.call_args(out),
            LexerTokenType::Operator(op) => {
                if crate::strings::str_eq(op.as_str(), ")") {
                    Ok(())
                } else {
                    Err(
                        ParseError {
                            kind: ParseErrorKind::UnexpectedToken(LexerTokenType::Operator(op)),
                            line: self.last_line,
                            column: self.last_column,
                        },
                    )
                }
            },
            other => Err(
                ParseError {
                    kind: ParseErrorKind::UnexpectedToken(other),
                    line: self.last_line,
                    column: self.last_column,
                },
            ),
        }
    }

    /// A call of `fn_name`: arguments first, then the call instruction; as
    /// a statement the call is closed by a semicolon.
    fn function_call(&mut self, fn_name: String) -> (r: Result<Vec<ParserToken>, ParseError>)
        requires
            pwf(*old(self)),
        ensures
            same_parser(*old(self), *final(self)),
            pwf(*final(self)),
            old(self).pos <= final(self).pos,
            match r {
                Ok(out) => spec_function_call(
                    toks_of(*old(self)),
                    pst(*old(self)),
                    fn_name@,
                    old(self).is_expr,
                ) == Ok::<(Seq<InstrV>, SpSt), PErrV>((instr_views(out@), pst(*final(self))))
                    && old(self).pos < final(self).pos,
                Err(e) => spec_function_call(
                    toks_of(*old(self)),
                    pst(*old(self)),
                    fn_name@,
                    old(self).is_expr,
                ) == Err::<(Seq<InstrV>, SpSt), PErrV>(e@),
            },
        decreases self.input@.len() - self.pos, 3int,
    {
        let mut arg_tokens: Vec<ParserToken> = Vec::new();
        proof {
            assert(instr_views(arg_tokens@) =~= Seq::<InstrV>::empty());
        }
        match self.call_args(&mut arg_tokens) {
            Ok(_) => {},
            Err(e) => {
                return Err(e);
            },
        }
        if !self.is_expr {
            match self.eat_expect(&LexerTokenType::Symbol(';')) {
                Ok(_) => {},
                Err(e) => {
                    return Err(e);
                },
            }
        }
        let call = ParserToken::Call(fn_name, arg_tokens);
        let mut tokens: Vec<ParserToken> = Vec::new();
        proof {
            lemma_instr_views_push(tokens@, call);
            assert(instr_views(tokens@) =~= Seq::<InstrV>::empty());
        }
        tokens.push(call);
        Ok(tokens)
    }
}

/// The terminators `, ]` of an array element.
fn terms_comma_bracket() -> (r: Vec<LexerTokenType>)
    ensures
        ttype_views(r@) == seq![TokV::Symbol(','), TokV::Symbol(']')],
        !terms_contain(ttype_views(r@), TokV::Eof),
{
    let mut v: Vec<LexerTokenType> = Vec::new();
    v.push(LexerTokenType::Symbol(','));
    v.push(LexerTokenType::Symbol(']'));
    proof {
        lemma_ttype_views(v@);
        assert(ttype_views(v@) =~= seq![TokV::Symbol(','), TokV::Symbol(']')]);
    }
    v
}

/// The terminator `]` of an index expression.
fn terms_bracket_close() -> (r: Vec<LexerTokenType>)
    ensures
        ttype_views(r@) == seq![TokV::Symbol(']')],
        !terms_contain(ttype_views(r@), TokV::Eof),
{
    let mut v: Vec<LexerTokenType> = Vec::new();
    v.push(LexerTokenType::Symbol(']'));
    proof {
        lemma_ttype_views(v@);
        assert(ttype_views(v@) =~= seq![TokV::Symbol(']')]);
    }
    v
}

/// The terminators `, )` of a call argument.
fn terms_comma_paren() -> (r: Vec<LexerTokenType>)
    ensures
        ttype_views(r@) == seq![TokV::Symbol(','), TokV::Operator(")"@)],
        !terms_contain(ttype_views(r@), TokV::Eof),
{
    let mut v: Vec<LexerTokenType> = Vec::new();
    v.push(LexerTokenType::Symbol(','));
    v.push(LexerTokenType::Operator(String::from_str(")")));
    proof {
        lemma_ttype_views(v@);
        assert(ttype_views(v@) =~= seq![TokV::Symbol(','), TokV::Operator(")"@)]);
    }
    v
}

/// The terminator `;` of a statement expression.
fn terms_semicolon() -> (r: Vec<LexerTokenType>)
    ensures
        ttype_views(r@) == seq![TokV::Symbol(';')],
        !terms_contain(ttype_views(r@), TokV::Eof),
{
    let mut v: Vec<LexerTokenType> = Vec::new();
    v.push(LexerTokenType::Symbol(';'));
    proof {
        lemma_ttype_views(v@);
        assert(ttype_views(v@) =~= seq![TokV::Symbol(';')]);
    }
    v
}

/// The terminator `{` of a control-flow condition.
fn terms_open_brace() -> (r: Vec<LexerTokenType>)
    ensures
        ttype_views(r@) == seq![TokV::Symbol('{')],
        !terms_contain(ttype_views(r@), TokV::Eof),
{
    let mut v: Vec<LexerTokenType> = Vec::new();
    v.push(LexerTokenType::Symbol('{'));
    proof {
        lemma_ttype_views(v@);
        assert(ttype_views(v@) =~= seq![TokV::Symbol('{')]);
    }
    v
}


impl Parser {
    /// `let x = <expr>;`
    fn variable_decleration(&mut self) -> (r: Result<Vec<ParserToken>, ParseError>)
        requires
            pwf(*old(self)),
        ensures
            same_parser(*old(self), *final(self)),
            pwf(*final(self)),
            old(self).pos <= final(self).pos,
            match r {
                Ok(out) => spec_variable_decleration(toks_of(*old(self)), pst(*old(self))) == Ok::<
                    (Seq<InstrV>, SpSt),
                    PErrV,
                >((instr_views(out@), pst(*final(self)))) && old(self).pos < final(self).pos,
                Err(e) => spec_variable_decleration(toks_of(*old(self)), pst(*old(self))) == Err::<
                    (Seq<InstrV>, SpSt),
                    PErrV,
                >(e@),
            },
        decreases self.input@.len() - self.pos, 6int,
    {
        let _ = self.eat();
        let tk = match self.eat() {
            Some(t) => t,
            None => {
                return Err(
                    ParseError {
                        kind: ParseErrorKind::UnexpectedEndOfInput,
                        line: self.last_line,
                        column: self.last_column,
                    },
                );
            },
        };
        proof {
            crate::lexer::lemma_tok_variants(tk.token);
        }
        match tk.token {
            LexerTokenType::Identifier(identifier) => {
                match self.eat_expect(&LexerTokenType::Operator(String::from_str("="))) {
                    Ok(_) => {},
                    Err(e) => {
                        return Err(e);
                    },
                }
                let terms = terms_semicolon();
                let mut expr = match self.eat_expr(terms) {
                    Ok(v) => v,
                    Err(e) => {
                        return Err(e);
                    },
                };
                match self.eat_expect(&LexerTokenType::Symbol(';')) {
                    Ok(_) => {},
                    Err(e) => {
                        return Err(e);
                    },
                }
                proof {
                    lemma_instr_views(expr@);
                }
                if expr.len() == 0 {
                    return Err(
                        ParseError {
                            kind: ParseErrorKind::MissingExpression,
                            line: self.last_line,
                            column: self.last_column,
                        },
                    );
                }
                let d = ParserToken::DeclareVariable(identifier);
                proof {
                    lemma_instr_views_push(expr@, d);
                }
                expr.push(d);
                Ok(expr)
            },
            other => Err(
                ParseError {
                    kind: ParseErrorKind::UnexpectedToken(other),
                    line: self.last_line,
                    column: self.last_column,
                },
            ),
        }
    }

    /// `x = <expr>;` with the identifier already consumed.
    fn variable_assignment(&mut self, var_name: String) -> (r: Result<Vec<ParserToken>, ParseError>)
        requires
            pwf(*old(self)),
        ensures
            same_parser(*old(self), *final(self)),
            pwf(*final(self)),
            old(self).pos <= final(self).pos,
            match r {
                Ok(out) => spec_variable_assignment(
                    toks_of(*old(self)),
                    pst(*old(self)),
                    var_name@,
                ) == Ok::<(Seq<InstrV>, SpSt), PErrV>((instr_views(out@), pst(*final(self))))
                    && old(self).pos < final(self).pos,
                Err(e) => spec_variable_assignment(
                    toks_of(*old(self)),
                    pst(*old(self)),
                    var_name@,
                ) == Err::<(Seq<InstrV>, SpSt), PErrV>(e@),
            },
        decreases self.input@.len() - self.pos, 6int,
    {
        let terms = terms_semicolon();
        let mut tokens = match self.eat_expr(terms) {
            Ok(v) => v,
            Err(e) => {
                return Err(e);
            },
        };
        match self.eat_expect(&LexerTokenType::Symbol(';')) {
            Ok(_) => {},
            Err(e) => {
                return Err(e);
            },
        }
        let d = ParserToken::StoreVariable(var_name);
        proof {
            lemma_instr_views_push(tokens@, d);
        }
        tokens.push(d);
        Ok(tokens)
    }

    /// `x[<idx>] = <expr>;` with the identifier and `[` already consumed.
    fn array_assignment(&mut self, var_name: String) -> (r: Result<Vec<ParserToken>, ParseError>)
        requires
            pwf(*old(self)),
        ensures
            same_parser(*old(self), *final(self)),
            pwf(*final(self)),
            old(self).pos <= final(self).pos,
            match r {
                Ok(out) => spec_array_assignment(toks_of(*old(self)), pst(*old(self)), var_name@)
                    == Ok::<(Seq<InstrV>, SpSt), PErrV>((instr_views(out@), pst(*final(self))))
                    && old(self).pos < final(self).pos,
                Err(e) => spec_array_assignment(toks_of(*old(self)), pst(*old(self)), var_name@)
                    == Err::<(Seq<InstrV>, SpSt), PErrV>(e@),
            },
        decreases self.input@.len() - self.pos, 6int,
    {
        let terms = terms_bracket_close();
        let mut idx_expr = match self.eat_expr(terms) {
            Ok(v) => v,
            Err(e) => {
                return Err(e);
            },
        };
        match self.eat_expect(&LexerTokenType::Symbol(']')) {
            Ok(_) => {},
            Err(e) => {
                return Err(e);
            },
        }
        match self.eat_expect(&LexerTokenType::Operator(String::from_str("="))) {
            Ok(_) => {},
            Err(e) => {
                return Err(e);
            },
        }
        let terms2 = terms_semicolon();
        let assign_expr = match self.eat_expr(terms2) {
            Ok(v) => v,
            Err(e) => {
                return Err(e);
            },
        };
        match self.eat_expect(&LexerTokenType::Symbol(';')) {
            Ok(_) => {},
            Err(e) => {
                return Err(e);
            },
        }
        let ghost iv0 = instr_views(idx_expr@);
        let ghost av = instr_views(assign_expr@);
        let ghost vn = var_name@;
        crate::expr::append_vec(&mut idx_expr, assign_expr);
        let d = ParserToken::StoreVariableArrayElement(var_name);
        proof {
            lemma_instr_views_push(idx_expr@, d);
        }
        idx_expr.push(d);
        proof {
            assert(instr_views(idx_expr@) =~= iv0 + av + seq![
                InstrV::StoreVariableArrayElement(vn),
            ]);
        }
        Ok(idx_expr)
    }

    /// `return <expr>;` or `return;`
    fn function_return(&mut self) -> (r: Result<Vec<ParserToken>, ParseError>)
        requires
            pwf(*old(self)),
        ensures
            same_parser(*old(self), *final(self)),
            pwf(*final(self)),
            old(self).pos <= final(self).pos,
            match r {
                Ok(out) => spec_function_return(toks_of(*old(self)), pst(*old(self))) == Ok::<
                    (Seq<InstrV>, SpSt),
                    PErrV,
                >((instr_views(out@), pst(*final(self)))) && old(self).pos < final(self).pos,
                Err(e) => spec_function_return(toks_of(*old(self)), pst(*old(self))) == Err::<
                    (Seq<InstrV>, SpSt),
                    PErrV,
                >(e@),
            },
        decreases self.input@.len() - self.pos, 6int,
    {
        match self.eat_expect(&LexerTokenType::Keyword(String::from_str("return"))) {
            Ok(_) => {},
            Err(e) => {
                return Err(e);
            },
        }
        let terms = terms_semicolon();
        let expr = match self.eat_expr(terms) {
            Ok(v) => v,
            Err(e) => {
                return Err(e);
            },
        };
        match self.eat_expect(&LexerTokenType::Symbol(';')) {
            Ok(_) => {},
            Err(e) => {
                return Err(e);
            },
        }
        proof {
            lemma_instr_views(expr@);
        }
        let mut tokens: Vec<ParserToken>;
        if expr.len() > 0 {
            tokens = expr;
        } else {
            tokens = Vec::new();
            let p = ParserToken::Push(Value::Null);
            proof {
                lemma_instr_views_push(tokens@, p);
                assert(instr_views(tokens@) =~= Seq::<InstrV>::empty());
            }
            tokens.push(p);
            proof {
                assert(instr_views(tokens@) =~= seq![InstrV::Push(ValueV::Null)]);
            }
        }
        let rt = ParserToken::Return;
        proof {
            lemma_instr_views_push(tokens@, rt);
        }
        tokens.push(rt);
        Ok(tokens)
    }

    /// `import "name";`
    fn import_keyword(&mut self) -> (r: Result<Vec<ParserToken>, ParseError>)
        requires
            pwf(*old(self)),
        ensures
            same_parser(*old(self), *final(self)),
            pwf(*final(self)),
            old(self).pos <= final(self).pos,
            match r {
                Ok(out) => spec_import_keyword(toks_of(*old(self)), pst(*old(self))) == Ok::<
                    (Seq<InstrV>, SpSt),
                    PErrV,
                >((instr_views(out@), pst(*final(self)))) && old(self).pos < final(self).pos,
                Err(e) => spec_import_keyword(toks_of(*old(self)), pst(*old(self))) == Err::<
                    (Seq<InstrV>, SpSt),
                    PErrV,
                >(e@),
            },
        decreases self.input@.len() - self.pos, 6int,
    {
        match self.eat_expect(&LexerTokenType::Keyword(String::from_str("import"))) {
            Ok(_) => {},
            Err(e) => {
                return Err(e);
            },
        }
        let library = match self.eat() {
            Some(t) => t,
            None => {
                return Err(
                    ParseError {
                        kind: ParseErrorKind::UnexpectedEndOfInput,
                        line: self.last_line,
                        column: self.last_column,
                    },
                );
            },
        };
        proof {
            crate::lexer::lemma_tok_variants(library.token);
        }
        match library.token {
            LexerTokenType::Value(library_val) => {
                proof {
                    crate::value::lemma_view_variants(library_val);
                }
                match library_val {
                    Value::Literal(library_name) => {
                        match self.eat_expect(&LexerTokenType::Symbol(';')) {
                            Ok(_) => {},
                            Err(e) => {
                                return Err(e);
                            },
                        }
                        let im = ParserToken::Import(library_name);
                        let mut tokens: Vec<ParserToken> = Vec::new();
                        proof {
                            lemma_instr_views_push(tokens@, im);
                            assert(instr_views(tokens@) =~= Seq::<InstrV>::empty());
                        }
                        tokens.push(im);
                        Ok(tokens)
                    },
                    other_val => Err(
                        ParseError {
                            kind: ParseErrorKind::UnexpectedToken(LexerTokenType::Value(other_val)),
                            line: self.last_line,
                            column: self.last_column,
                        },
                    ),
                }
            },
            other => Err(
                ParseError {
                    kind: ParseErrorKind::UnexpectedToken(other),
                    line: self.last_line,
                    column: self.last_column,
                },
            ),
        }
    }

    /// The parameter names of a function declaration.
    fn fn_args(&mut self, names: &mut Vec<String>) -> (r: Result<(), ParseError>)
        requires
            pwf(*old(self)),
        ensures
            same_parser(*old(self), *final(self)),
            pwf(*final(self)),
            old(self).pos <= final(self).pos,
            match r {
                Ok(_) => spec_fn_args(
                    toks_of(*old(self)),
                    pst(*old(self)),
                    str_views(old(names)@),
                ) == Ok::<(Seq<Seq<char>>, SpSt), PErrV>(
                    (str_views(final(names)@), pst(*final(self))),
                ) && old(self).pos < final(self).pos,
                Err(e) => spec_fn_args(
                    toks_of(*old(self)),
                    pst(*old(self)),
                    str_views(old(names)@),
                ) == Err::<(Seq<Seq<char>>, SpSt), PErrV>(e@),
            },
        decreases self.input@.len() - self.pos, 2int,
    {
        let tk = match self.eat() {
            Some(t) => t,
            None => {
                return Err(
                    ParseError {
                        kind: ParseErrorKind::UnexpectedEndOfInput,
                        line: self.last_line,
                        column: self.last_column,
                    },
                );
            },
        };
        proof {
            crate::lexer::lemma_tok_variants(tk.token);
        }
        match tk.token {
            LexerTokenType::Identifier(arg_identifier) => {
                let next = match self.eat() {
                    Some(t) => t,
                    None => {
                        return Err(
                            ParseError {
                                kind: ParseErrorKind::UnexpectedEndOfInput,
                                line: self.last_line,
                                column: self.last_column,
                            },
                        );
                    },
                };
                proof {
                    crate::lexer::lemma_tok_variants(next.token);
                    lemma_str_views_push(names@, arg_identifier);
                }
                match next.token {
                    LexerTokenType::Symbol(',') => {
                        names.push(arg_identifier);
                        self.fn_args(names)
                    },
                    LexerTokenType::Operator(op) => {
                        if crate::strings::str_eq(op.as_str(), ")") {
                            names.push(arg_identifier);
                            Ok(())
                        } else {
                            Err(
                                ParseError {
                                    kind: ParseErrorKind::UnexpectedToken(
                                        LexerTokenType::Operator(op),
                                    ),
                                    line: self.last_line,
                                    column: self.last_column,
                                },
                            )
                        }
                    },
                    other => Err(
                        ParseError {
                            kind: ParseErrorKind::UnexpectedToken(other),
                            line: self.last_line,
                            column: self.last_column,
                        },
                    ),
                }
            },
            LexerTokenType::Operator(op) => {
                if crate::strings::str_eq(op.as_str(), ")") {
                    Ok(())
                } else {
                    Err(
                        ParseError {
                            kind: ParseErrorKind::UnexpectedToken(LexerTokenType::Operator(op)),
                            line: self.last_line,
                            column: self.last_column,
                        },
                    )
                }
            },
            other => Err(
                ParseError {
                    kind: ParseErrorKind::UnexpectedToken(other),
                    line: self.last_line,
                    column: self.last_column,
                },
            ),
        }
    }

    /// `fn f(a,b){ body }`
    fn function_decleration(&mut self) -> (r: Result<Vec<ParserToken>, ParseError>)
        requires
            pwf(*old(self)),
            !old(self).is_expr,
        ensures
            same_parser(*old(self), *final(self)),
            pwf(*final(self)),
            old(self).pos <= final(self).pos,
            match r {
                Ok(out) => spec_function_decleration(toks_of(*old(self)), pst(*old(self))) == Ok::<
                    (Seq<InstrV>, SpSt),
                    PErrV,
                >((instr_views(out@), pst(*final(self)))) && old(self).pos < final(self).pos,
                Err(e) => spec_function_decleration(toks_of(*old(self)), pst(*old(self))) == Err::<
                    (Seq<InstrV>, SpSt),
                    PErrV,
                >(e@),
            },
        decreases self.input@.len() - self.pos, 6int,
    {
        let _ = self.eat();
        let tk = match self.eat() {
            Some(t) => t,
            None => {
                return Err(
                    ParseError {
                        kind: ParseErrorKind::UnexpectedEndOfInput,
                        line: self.last_line,
                        column: self.last_column,
                    },
                );
            },
        };
        proof {
            crate::lexer::lemma_tok_variants(tk.token);
        }
        match tk.token {
            LexerTokenType::Identifier(fn_name) => {
                match self.eat_expect(&LexerTokenType::Operator(String::from_str("("))) {
                    Ok(_) => {},
                    Err(e) => {
                        return Err(e);
                    },
                }
                let mut names: Vec<String> = Vec::new();
                proof {
                    assert(str_views(names@) =~= Seq::<Seq<char>>::empty());
                }
                match self.fn_args(&mut names) {
                    Ok(_) => {},
                    Err(e) => {
                        return Err(e);
                    },
                }
                // Parameter bindings are emitted in reverse declared order:
                // call arguments are pushed left to right and popped last
                // first.
                let mut fn_tokens: Vec<ParserToken> = Vec::new();
                let ghost nv = str_views(names@);
                proof {
                    lemma_str_views(names@);
                    lemma_instr_views(fn_tokens@);
                }
                let mut k: usize = 0;
                while k < names.len()
                    invariant
                        k <= names@.len(),
                        nv == str_views(names@),
                        nv.len() == names@.len(),
                        forall|j: int| 0 <= j < names@.len() ==> nv[j] == names@[j]@,
                        instr_views(fn_tokens@).len() == k as int,
                        forall|j: int|
                            0 <= j < k as int ==> instr_views(fn_tokens@)[j]
                                == InstrV::DeclareVariable(nv[nv.len() - 1 - j]),
                    decreases names@.len() - k,
                {
                    let d = ParserToken::DeclareVariable(names[names.len() - 1 - k].clone());
                    proof {
                        lemma_instr_views_push(fn_tokens@, d);
                        lemma_instr_views(fn_tokens@);
                    }
                    fn_tokens.push(d);
                    k = k + 1;
                }
                proof {
                    lemma_instr_views(fn_tokens@);
                    assert(instr_views(fn_tokens@) =~= rev_bindings(nv));
                }
                match self.eat_expect(&LexerTokenType::Symbol('{')) {
                    Ok(_) => {},
                    Err(e) => {
                        return Err(e);
                    },
                }
                let fn_body = match self.parse_until(&LexerTokenType::Symbol('}')) {
                    Ok(v) => v,
                    Err(e) => {
                        return Err(e);
                    },
                };
                match self.eat_expect(&LexerTokenType::Symbol('}')) {
                    Ok(_) => {},
                    Err(e) => {
                        return Err(e);
                    },
                }
                crate::expr::append_vec(&mut fn_tokens, fn_body);
                let d = ParserToken::DeclareFunction(fn_name, fn_tokens);
                let mut tokens: Vec<ParserToken> = Vec::new();
                proof {
                    lemma_instr_views_push(tokens@, d);
                    assert(instr_views(tokens@) =~= Seq::<InstrV>::empty());
                }
                tokens.push(d);
                Ok(tokens)
            },
            other => Err(
                ParseError {
                    kind: ParseErrorKind::UnexpectedToken(other),
                    line: self.last_line,
                    column: self.last_column,
                },
            ),
        }
    }

    /// `if <expr> { A }` with an optional `else` continuation.
    #[verifier::rlimit(50)]
    fn if_statement(&mut self) -> (r: Result<Vec<ParserToken>, ParseError>)
        requires
            pwf(*old(self)),
            !old(self).is_expr,
        ensures
            same_parser(*old(self), *final(self)),
            pwf(*final(self)),
            old(self).pos <= final(self).pos,
            match r {
                Ok(out) => spec_if_statement(toks_of(*old(self)), pst(*old(self))) == Ok::<
                    (Seq<InstrV>, SpSt),
                    PErrV,
                >((instr_views(out@), pst(*final(self)))) && old(self).pos < final(self).pos,
                Err(e) => spec_if_statement(toks_of(*old(self)), pst(*old(self))) == Err::<
                    (Seq<InstrV>, SpSt),
                    PErrV,
                >(e@),
            },
        decreases self.input@.len() - self.pos, 6int,
    {
        match self.eat_expect(&LexerTokenType::Keyword(String::from_str("if"))) {
            Ok(_) => {},
            Err(e) => {
                return Err(e);
            },
        }
        let terms = terms_open_brace();
        let mut expr = match self.eat_expr(terms) {
            Ok(v) => v,
            Err(e) => {
                return Err(e);
            },
        };
        proof {
            lemma_instr_views(expr@);
        }
        if expr.len() == 0 {
            return Err(
                ParseError {
                    kind: ParseErrorKind::MissingExpression,
                    line: self.last_line,
                    column: self.last_column,
                },
            );
        }
        match self.eat_expect(&LexerTokenType::Symbol('{')) {
            Ok(_) => {},
            Err(e) => {
                return Err(e);
            },
        }
        let if_body = match self.parse_until(&LexerTokenType::Symbol('}')) {
            Ok(v) => v,
            Err(e) => {
                return Err(e);
            },
        };
        match self.eat_expect(&LexerTokenType::Symbol('}')) {
            Ok(_) => {},
            Err(e) => {
                return Err(e);
            },
        }
        // An `else` keyword continues the branch.
        proof {
            lemma_tok_views(self.input@);
        }
        let has_else = self.pos < self.input.len() && token_type_eq(
            &self.input[self.pos].token,
            &LexerTokenType::Keyword(String::from_str("else")),
        );
        let mut else_body: Vec<ParserToken> = Vec::new();
        proof {
            assert(instr_views(else_body@) =~= Seq::<InstrV>::empty());
        }
        if has_else {
            match self.eat_expect(&LexerTokenType::Keyword(String::from_str("else"))) {
                Ok(_) => {},
                Err(e) => {
                    return Err(e);
                },
            }
            proof {
                lemma_tok_views(self.input@);
            }
            if self.pos >= self.input.len() {
                return Err(
                    ParseError {
                        kind: ParseErrorKind::UnexpectedEndOfInput,
                        line: self.last_line,
                        column: self.last_column,
                    },
                );
            }
            let chained = token_type_eq(
                &self.input[self.pos].token,
                &LexerTokenType::Keyword(String::from_str("if")),
            );
            if chained {
                else_body = match self.if_statement() {
                    Ok(v) => v,
                    Err(e) => {
                        return Err(e);
                    },
                };
            } else {
                match self.eat_expect(&LexerTokenType::Symbol('{')) {
                    Ok(_) => {},
                    Err(e) => {
                        return Err(e);
                    },
                }
                else_body = match self.parse_until(&LexerTokenType::Symbol('}')) {
                    Ok(v) => v,
                    Err(e) => {
                        return Err(e);
                    },
                };
                match self.eat_expect(&LexerTokenType::Symbol('}')) {
                    Ok(_) => {},
                    Err(e) => {
                        return Err(e);
                    },
                }
            }
        }
        let ghost ev = instr_views(expr@);
        let node = ParserToken::If(if_body, else_body);
        let ghost nv = instr_view(node);
        proof {
            lemma_instr_views_push(expr@, node);
        }
        expr.push(node);
        proof {
            assert(instr_views(expr@) =~= ev + seq![nv]);
        }
        Ok(expr)
    }

    /// `while <expr> { A }`
    fn while_statement(&mut self) -> (r: Result<Vec<ParserToken>, ParseError>)
        requires
            pwf(*old(self)),
            !old(self).is_expr,
        ensures
            same_parser(*old(self), *final(self)),
            pwf(*final(self)),
            old(self).pos <= final(self).pos,
            match r {
                Ok(out) => spec_while_statement(toks_of(*old(self)), pst(*old(self))) == Ok::<
                    (Seq<InstrV>, SpSt),
                    PErrV,
                >((instr_views(out@), pst(*final(self)))) && old(self).pos < final(self).pos,
                Err(e) => spec_while_statement(toks_of(*old(self)), pst(*old(self))) == Err::<
                    (Seq<InstrV>, SpSt),
                    PErrV,
                >(e@),
            },
        decreases self.input@.len() - self.pos, 6int,
    {
        match self.eat_expect(&LexerTokenType::Keyword(String::from_str("while"))) {
            Ok(_) => {},
            Err(e) => {
                return Err(e);
            },
        }
        let terms = terms_open_brace();
        let expr = match self.eat_expr(terms) {
            Ok(v) => v,
            Err(e) => {
                return Err(e);
            },
        };
        proof {
            lemma_instr_views(expr@);
        }
        if expr.len() == 0 {
            return Err(
                ParseError {
                    kind: ParseErrorKind::MissingExpression,
                    line: self.last_line,
                    column: self.last_column,
                },
            );
        }
        match self.eat_expect(&LexerTokenType::Symbol('{')) {
            Ok(_) => {},
            Err(e) => {
                return Err(e);
            },
        }
        let if_body = match self.parse_until(&LexerTokenType::Symbol('}')) {
            Ok(v) => v,
            Err(e) => {
                return Err(e);
            },
        };
        match self.eat_expect(&LexerTokenType::Symbol('}')) {
            Ok(_) => {},
            Err(e) => {
                return Err(e);
            },
        }
        let node = ParserToken::While(expr, if_body);
        let mut tokens: Vec<ParserToken> = Vec::new();
        proof {
            lemma_instr_views_push(tokens@, node);
            assert(instr_views(tokens@) =~= Seq::<InstrV>::empty());
        }
        tokens.push(node);
        Ok(tokens)
    }

    /// What follows a statement-level identifier.
    fn ident_statement(&mut self, ident: String) -> (r: Result<Vec<ParserToken>, ParseError>)
        requires
            pwf(*old(self)),
            !old(self).is_expr,
        ensures
            same_parser(*old(self), *final(self)),
            pwf(*final(self)),
            old(self).pos <= final(self).pos,
            match r {
                Ok(out) => spec_ident_statement(toks_of(*old(self)), pst(*old(self)), ident@)
                    == Ok::<(Seq<InstrV>, SpSt), PErrV>((instr_views(out@), pst(*final(self))))
                    && old(self).pos < final(self).pos,
                Err(e) => spec_ident_statement(toks_of(*old(self)), pst(*old(self)), ident@)
                    == Err::<(Seq<InstrV>, SpSt), PErrV>(e@),
            },
        decreases self.input@.len() - self.pos, 6int,
    {
        let tk = match self.eat() {
            Some(t) => t,
            None => {
                return Err(
                    ParseError {
                        kind: ParseErrorKind::UnexpectedEndOfInput,
                        line: self.last_line,
                        column: self.last_column,
                    },
                );
            },
        };
        proof {
            crate::lexer::lemma_tok_variants(tk.token);
        }
        match tk.token {
            LexerTokenType::Symbol(symbol) => {
                if symbol == '[' {
                    self.array_assignment(ident)
                } else {
                    // A symbol other than `[` after an identifier consumes
                    // both tokens and emits nothing.
                    Ok(Vec::new())
                }
            },
            LexerTokenType::Operator(op) => {
                if crate::strings::str_eq(op.as_str(), "=") {
                    self.variable_assignment(ident)
                } else if crate::strings::str_eq(op.as_str(), "(") {
                    self.function_call(ident)
                } else {
                    Err(
                        ParseError {
                            kind: ParseErrorKind::UnexpectedToken(LexerTokenType::Operator(op)),
                            line: self.last_line,
                            column: self.last_column,
                        },
                    )
                }
            },
            _ => Ok(Vec::new()),
        }
    }

    /// Statements until `term` (not consumed) or the end of input.
    fn parse_until(&mut self, term: &LexerTokenType) -> (r: Result<Vec<ParserToken>, ParseError>)
        requires
            pwf(*old(self)),
            !old(self).is_expr,
        ensures
            same_parser(*old(self), *final(self)),
            pwf(*final(self)),
            old(self).pos <= final(self).pos,
            match r {
                Ok(out) => spec_parse_until(toks_of(*old(self)), pst(*old(self)), term@) == Ok::<
                    (Seq<InstrV>, SpSt),
                    PErrV,
                >((instr_views(out@), pst(*final(self)))),
                Err(e) => spec_parse_until(toks_of(*old(self)), pst(*old(self)), term@) == Err::<
                    (Seq<InstrV>, SpSt),
                    PErrV,
                >(e@),
            },
        decreases self.input@.len() - self.pos, 7int,
    {
        proof {
            lemma_tok_views(self.input@);
        }
        if self.pos >= self.input.len() {
            proof {
                assert(instr_views(Seq::<ParserToken>::empty()) =~= Seq::<InstrV>::empty());
            }
            return Ok(Vec::new());
        }
        if token_type_eq(&self.input[self.pos].token, term) {
            proof {
                assert(instr_views(Seq::<ParserToken>::empty()) =~= Seq::<InstrV>::empty());
            }
            return Ok(Vec::new());
        }
        let token = self.input[self.pos].token.clone();
        proof {
            crate::lexer::lemma_tok_variants(token);
        }
        match token {
            LexerTokenType::Keyword(kw) => {
                let stmt: Vec<ParserToken>;
                if crate::strings::str_eq(kw.as_str(), "let") {
                    stmt = match self.variable_decleration() {
                        Ok(v) => v,
                        Err(e) => {
                            return Err(e);
                        },
                    };
                } else if crate::strings::str_eq(kw.as_str(), "fn") {
                    stmt = match self.function_decleration() {
                        Ok(v) => v,
                        Err(e) => {
                            return Err(e);
                        },
                    };
                } else if crate::strings::str_eq(kw.as_str(), "return") {
                    stmt = match self.function_return() {
                        Ok(v) => v,
                        Err(e) => {
                            return Err(e);
                        },
                    };
                } else if crate::strings::str_eq(kw.as_str(), "if") {
                    stmt = match self.if_statement() {
                        Ok(v) => v,
                        Err(e) => {
                            return Err(e);
                        },
                    };
                } else if crate::strings::str_eq(kw.as_str(), "while") {
                    stmt = match self.while_statement() {
                        Ok(v) => v,
                        Err(e) => {
                            return Err(e);
                        },
                    };
                } else if crate::strings::str_eq(kw.as_str(), "import") {
                    stmt = match self.import_keyword() {
                        Ok(v) => v,
                        Err(e) => {
                            return Err(e);
                        },
                    };
                } else {
                    return Err(
                        ParseError {
                            kind: ParseErrorKind::UnexpectedToken(LexerTokenType::Keyword(kw)),
                            line: self.last_line,
                            column: self.last_column,
                        },
                    );
                }
                self.rest_after(stmt, term)
            },
            LexerTokenType::Identifier(ident) => {
                let _ = self.eat();
                let stmt = match self.ident_statement(ident) {
                    Ok(v) => v,
                    Err(e) => {
                        return Err(e);
                    },
                };
                self.rest_after(stmt, term)
            },
            LexerTokenType::NewLine => {
                let _ = self.eat();
                self.rest_after(Vec::new(), term)
            },
            other => Err(
                ParseError {
                    kind: ParseErrorKind::UnexpectedToken(other),
                    line: self.last_line,
                    column: self.last_column,
                },
            ),
        }
    }

    /// One statement's instructions followed by the rest of the parse.
    fn rest_after(&mut self, stmt: Vec<ParserToken>, term: &LexerTokenType) -> (r: Result<
        Vec<ParserToken>,
        ParseError,
    >)
        requires
            pwf(*old(self)),
            !old(self).is_expr,
        ensures
            same_parser(*old(self), *final(self)),
            pwf(*final(self)),
            old(self).pos <= final(self).pos,
            match r {
                Ok(out) => spec_parse_until(toks_of(*old(self)), pst(*old(self)), term@) matches Ok(
                    (restv, stf),
                ) && instr_views(out@) == instr_views(stmt@) + restv && stf == pst(*final(self)),
                Err(e) => spec_parse_until(toks_of(*old(self)), pst(*old(self)), term@) == Err::<
                    (Seq<InstrV>, SpSt),
                    PErrV,
                >(e@),
            },
        decreases self.input@.len() - self.pos, 8int,
    {
        let mut stmt = stmt;
        let rest = match self.parse_until(term) {
            Ok(v) => v,
            Err(e) => {
                return Err(e);
            },
        };
        crate::expr::append_vec(&mut stmt, rest);
        Ok(stmt)
    }

    /// Parses a whole token sequence to one instruction sequence.
    pub fn parse(tokens: Vec<LexerToken>, is_expr: bool) -> (r: Result<
        Vec<ParserToken>,
        ParseError,
    >)
        requires
            !is_expr,
        ensures
            match r {
                Ok(out) => spec_parse(tok_views(tokens@)) matches Ok((iv, st)) && iv == instr_views(
                    out@,
                ),
                Err(e) => spec_parse(tok_views(tokens@)) matches Err(pe) && pe == e@,
            },
    {
        let mut parser = Parser::new(tokens, is_expr);
        parser.parse_until(&LexerTokenType::Eof)
    }
}

} // verus!\n